# absence_notify

A school absence notifier. Every few seconds it asks the school's GraphQL
service which period is under way and which teachers are absent, and sends
push notifications to the students subscribed to each teacher.

- `src/` is the verified library (Verus): the wording of notifications and
  of period lists (`notifications/`), the periods of the day and their order
  (`schedule.rs`), the teachers' absences and the decisions of the status
  loop (`status_loop.rs`), a keyed list (`id_map.rs`) and the text of UUIDs
  (`ids.rs`).
- `app/` is the program around it: settings, the GraphQL queries, the push
  client, the timed loop and the HTTP health check.
- `tests/` runs the library on concrete values.
