use taskwarrior_views::actions::{outcome_message, plan_action, ActionOutcome, ActionStep, TaskAction};
use taskwarrior_views::pages::{
    bar_template, count_operations, new_task_response, query_text, undo_entry_label, undo_heading,
};

fn report(s: ActionStep) -> Option<String> {
    match s {
        ActionStep::Run => None,
        ActionStep::Report(m) => Some(m),
    }
}

#[test]
fn plan_reports_missing_inputs() {
    assert_eq!(report(plan_action(TaskAction::StatusUpdate, false, "")), Some("No task to update".to_string()));
    assert_eq!(report(plan_action(TaskAction::StatusUpdate, true, "")), None);
    assert_eq!(
        report(plan_action(TaskAction::ModifyTask, true, "")),
        Some("Failed to execute command, none provided".to_string())
    );
    assert_eq!(
        report(plan_action(TaskAction::AnnotateTask, false, "")),
        Some("Failed to execute command, none provided".to_string())
    );
    assert_eq!(report(plan_action(TaskAction::ModifyTask, false, "prio:H")), None);
    assert_eq!(report(plan_action(TaskAction::ToggleTimer, false, "")), None);
    assert_eq!(report(plan_action(TaskAction::DenotateTask, false, "")), None);
}

#[test]
fn outcome_messages() {
    let u = "abc-123";
    let err = || ActionOutcome::Failed("boom".to_string());
    assert_eq!(outcome_message(TaskAction::StatusUpdate, u, &ActionOutcome::Done), "Task [abc-123] was updated");
    assert_eq!(outcome_message(TaskAction::StatusUpdate, u, &err()), "Failed to update task: boom");
    assert_eq!(
        outcome_message(TaskAction::ToggleTimer, u, &ActionOutcome::Started),
        "Task abc-123 started, any other tasks running were stopped"
    );
    assert_eq!(outcome_message(TaskAction::ToggleTimer, u, &ActionOutcome::Stopped), "Task abc-123 stopped");
    assert_eq!(outcome_message(TaskAction::ToggleTimer, u, &err()), "Failed to update task: boom");
    assert_eq!(outcome_message(TaskAction::ModifyTask, u, &ActionOutcome::Done), "Modify command success");
    assert_eq!(outcome_message(TaskAction::ModifyTask, u, &err()), "Modify command failed: boom");
    assert_eq!(outcome_message(TaskAction::AnnotateTask, u, &ActionOutcome::Done), "Annotation added");
    assert_eq!(outcome_message(TaskAction::AnnotateTask, u, &err()), "Annotation command failed: boom");
    assert_eq!(outcome_message(TaskAction::DenotateTask, u, &ActionOutcome::Done), "Denotated task");
    assert_eq!(outcome_message(TaskAction::DenotateTask, u, &err()), "Denotation command failed: boom");
}

#[test]
fn bar_templates() {
    assert_eq!(bar_template(Some("left_action_bar")), Some("left_action_bar.html"));
    assert_eq!(bar_template(Some("anything")), Some("task_action_bar.html"));
    assert_eq!(bar_template(Some("")), Some("task_action_bar.html"));
    assert_eq!(bar_template(None), None);
}

#[test]
fn undo_report_texts() {
    assert_eq!(count_operations(&vec![2, 3, 0]), Some(5));
    assert_eq!(count_operations(&vec![]), Some(0));
    assert_eq!(count_operations(&vec![usize::MAX, 1]), None);
    assert_eq!(count_operations(&vec![i64::MAX as usize]), Some(i64::MAX));
    assert_eq!(count_operations(&vec![i64::MAX as usize, 1]), None);
    assert_eq!(undo_heading(5), "The following 5 operations would be reverted");
    assert_eq!(undo_heading(0), "The following 0 operations would be reverted");
    assert_eq!(undo_heading(-12), "The following -12 operations would be reverted");
    assert_eq!(undo_heading(i64::MIN), format!("The following {} operations would be reverted", i64::MIN));
    assert_eq!(undo_entry_label("u-1", Some("Buy milk")), "Buy milk(u-1)");
    assert_eq!(undo_entry_label("u-1", None), "u-1");
}

#[test]
fn query_text_skips_empty_values() {
    assert_eq!(query_text(&None), None);
    assert_eq!(query_text(&Some(String::new())), None);
    let v = Some("{\"tags\":[]}".to_string());
    assert_eq!(query_text(&v), Some(&"{\"tags\":[]}".to_string()));
}

#[test]
fn new_task_responses() {
    let (status, headers) = new_task_response(true);
    assert_eq!(status, 201);
    assert_eq!(
        headers,
        vec![("HX-Retarget", "#list-of-tasks"), ("HX-Reswap", "innerHTML"), ("Content-Type", "text/html")]
    );
    let (status, headers) = new_task_response(false);
    assert_eq!(status, 200);
    assert_eq!(headers, vec![("Content-Type", "text/html")]);
}
