# xhub

Core logic of the x-hub desktop assistant, verified with Verus.

- `src/` — the verified library:
  - `calendar`, `local_time` — civil dates (day arithmetic through `chrono::NaiveDate`) and the
    machine's local time zone (`chrono::Local`);
  - `models`, `todo_recurrence`, `recurrence_laws` — recurrence rules of todos: validation,
    stepping a date one instance forward or back, rolling to the next instance, listing the
    instances of a range, and the laws that tie forward and backward steps together;
  - `todo_store` — what completing or undoing a recurring todo writes, the errors of guarded
    writes, manual ordering;
  - `config` — defaults and the "disk is authoritative" merge of a whole-config save;
  - `floating_ball`, `placement` — ring buttons, visibility, where the ball and the
    notification window go on a work area;
  - `skills` — metadata, content hash and install status of the skill bundle,
    and the steps of replacing an install through a temporary copy;
  - `service` — checks before a service backend starts, its addresses, firewall rule
    arguments and the registry of running backends;
  - `autostart` — the registered login command line and how it is read back;
  - `api_spec` — URLs and body fields of the platform server's routes;
  - `text` — string helpers the above share.
- `tests/` — tests of the library.
- `app/` — the host around it: configuration file, SQLite store, skill files, processes and
  sockets, registry, window geometry at the live DPI scale.
