//! The actions that the task list posts, and the message shown after each.
use vstd::prelude::*;
use crate::text::concatenate;

verus! {

/// An action posted from the task list.
#[derive(Clone, Copy, PartialEq, Eq, Structural, Debug)]
pub enum TaskAction {
    StatusUpdate,
    ToggleTimer,
    ModifyTask,
    AnnotateTask,
    DenotateTask,
}

/// What to do for an action before the task store is touched.
pub enum ActionStep {
    /// Run the action against the task store.
    Run,
    /// Show this message and leave the store alone.
    Report(String),
}

/// The message when a status update names no task.
pub open spec fn no_task_text() -> Seq<char> {
    "No task to update"@
}

/// The message when a command action comes without a command.
pub open spec fn no_command_text() -> Seq<char> {
    "Failed to execute command, none provided"@
}

/// Whether the action runs a command typed by the user.
pub open spec fn takes_command(a: TaskAction) -> bool {
    a == TaskAction::ModifyTask || a == TaskAction::AnnotateTask
}

/// Decides whether an action runs: a status update needs a task to update
/// (`has_update`), a modify or annotate action needs a non-empty command
/// (`entry`); every other action runs.
pub fn plan_action(action: TaskAction, has_update: bool, entry: &str) -> (s: ActionStep)
    ensures
        match s {
            ActionStep::Run => (action == TaskAction::StatusUpdate ==> has_update) && (takes_command(
                action,
            ) ==> entry@.len() > 0),
            ActionStep::Report(m) => {
                ||| action == TaskAction::StatusUpdate && !has_update && m@ == no_task_text()
                ||| takes_command(action) && entry@.len() == 0 && m@ == no_command_text()
            },
        },
{
    match action {
        TaskAction::StatusUpdate => {
            if has_update {
                ActionStep::Run
            } else {
                ActionStep::Report(String::from_str("No task to update"))
            }
        },
        TaskAction::ModifyTask | TaskAction::AnnotateTask => {
            if entry.unicode_len() == 0 {
                ActionStep::Report(String::from_str("Failed to execute command, none provided"))
            } else {
                ActionStep::Run
            }
        },
        _ => ActionStep::Run,
    }
}

/// What the task store answered to an action.
pub enum ActionOutcome {
    /// The action succeeded.
    Done,
    /// The timer of the task was started (other running tasks were stopped).
    Started,
    /// The timer of the task was stopped.
    Stopped,
    /// The action failed with this error text.
    Failed(String),
}

/// Whether an answer is one that the action can get: only toggling the
/// timer starts or stops it, and toggling does nothing else.
pub open spec fn outcome_fits(a: TaskAction, o: ActionOutcome) -> bool {
    match o {
        ActionOutcome::Done => a != TaskAction::ToggleTimer,
        ActionOutcome::Started | ActionOutcome::Stopped => a == TaskAction::ToggleTimer,
        ActionOutcome::Failed(_) => true,
    }
}

/// The message shown after an action on the task `uuid` got the answer `o`.
pub open spec fn outcome_text(a: TaskAction, uuid: Seq<char>, o: ActionOutcome) -> Seq<char> {
    match o {
        ActionOutcome::Done => match a {
            TaskAction::StatusUpdate => "Task ["@ + uuid + "] was updated"@,
            TaskAction::ModifyTask => "Modify command success"@,
            TaskAction::AnnotateTask => "Annotation added"@,
            _ => "Denotated task"@,
        },
        ActionOutcome::Started => "Task "@ + uuid + " started, any other tasks running were stopped"@,
        ActionOutcome::Stopped => "Task "@ + uuid + " stopped"@,
        ActionOutcome::Failed(e) => match a {
            TaskAction::ModifyTask => "Modify command failed: "@ + e@,
            TaskAction::AnnotateTask => "Annotation command failed: "@ + e@,
            TaskAction::DenotateTask => "Denotation command failed: "@ + e@,
            _ => "Failed to update task: "@ + e@,
        },
    }
}

/// Each answer has its own fixed wording, whatever the task's uuid: a stopped
/// timer reads "Task <uuid> stopped", a started one "Task <uuid> started, any
/// other tasks running were stopped", a finished action names what was done,
/// and a failure names the command that failed followed by the error text.
pub proof fn lemma_outcome_wording(a: TaskAction, uuid: Seq<char>, o: ActionOutcome)
    ensures
        o is Started ==> outcome_text(a, uuid, o) == "Task "@ + uuid
            + " started, any other tasks running were stopped"@,
        o is Stopped ==> outcome_text(a, uuid, o) == "Task "@ + uuid + " stopped"@,
        o is Done && a == TaskAction::StatusUpdate ==> outcome_text(a, uuid, o) == "Task ["@ + uuid
            + "] was updated"@,
        o is Done && a == TaskAction::ModifyTask ==> outcome_text(a, uuid, o)
            == "Modify command success"@,
        o is Done && a == TaskAction::AnnotateTask ==> outcome_text(a, uuid, o)
            == "Annotation added"@,
        o is Done && a == TaskAction::DenotateTask ==> outcome_text(a, uuid, o)
            == "Denotated task"@,
        forall|e: String|
            o == ActionOutcome::Failed(e) ==> #[trigger] outcome_text(a, uuid, ActionOutcome::Failed(e))
                == match a {
                TaskAction::ModifyTask => "Modify command failed: "@ + e@,
                TaskAction::AnnotateTask => "Annotation command failed: "@ + e@,
                TaskAction::DenotateTask => "Denotation command failed: "@ + e@,
                TaskAction::StatusUpdate => "Failed to update task: "@ + e@,
                TaskAction::ToggleTimer => "Failed to update task: "@ + e@,
            },
{
}

/// The message shown after an action on the task `uuid` got the answer
/// `outcome` (see `outcome_text`).
pub fn outcome_message(action: TaskAction, uuid: &str, outcome: &ActionOutcome) -> (m: String)
    requires
        outcome_fits(action, *outcome),
    ensures
        m@ == outcome_text(action, uuid@, *outcome),
        *outcome is Started ==> m@ == "Task "@ + uuid@
            + " started, any other tasks running were stopped"@,
        *outcome is Stopped ==> m@ == "Task "@ + uuid@ + " stopped"@,
{
    match outcome {
        ActionOutcome::Done => match action {
            TaskAction::StatusUpdate => {
                let a = concatenate("Task [", uuid);
                concatenate(a.as_str(), "] was updated")
            },
            TaskAction::ModifyTask => String::from_str("Modify command success"),
            TaskAction::AnnotateTask => String::from_str("Annotation added"),
            _ => String::from_str("Denotated task"),
        },
        ActionOutcome::Started => {
            let a = concatenate("Task ", uuid);
            concatenate(a.as_str(), " started, any other tasks running were stopped")
        },
        ActionOutcome::Stopped => {
            let a = concatenate("Task ", uuid);
            concatenate(a.as_str(), " stopped")
        },
        ActionOutcome::Failed(e) => match action {
            TaskAction::ModifyTask => concatenate("Modify command failed: ", e.as_str()),
            TaskAction::AnnotateTask => concatenate("Annotation command failed: ", e.as_str()),
            TaskAction::DenotateTask => concatenate("Denotation command failed: ", e.as_str()),
            _ => concatenate("Failed to update task: ", e.as_str()),
        },
    }
}

} // verus!
