# taskwarrior_views

The decisions behind a small web front end for a task list, written in Verus
and proved against their contracts.

- `src/text.rs`: splitting, joining and decimal rendering of texts.
- `src/shortcut.rs`: random two- or three-character keyboard shortcuts, each
  handed out once.
- `src/string_map.rs`: a map from texts to texts.
- `src/task.rs`: tasks and the ordered map of tasks (`indexmap::IndexMap`).
- `src/filters.rs`: project filters expanded to each level of the project.
- `src/view_data.rs`: the tasks with their tags shown and a shortcut for every
  tag, project level, filter, task number and task uuid.
- `src/actions.rs`: which actions run, and the message shown after each.
- `src/pages.rs`: bar templates, undo report texts, the query of the new-task
  window, and the answer to a new task.
- `app/main.rs`: the web server around them (routes, task store, templates).
