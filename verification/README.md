# Splanner

A family weekly planner served by a small local web server. Accounts,
groups, tasks, broadcasts and events are kept in plain text files under
`data/`; people sign in with an account name and a 4-digit PIN, and an
admin password guards account and group management.

## Layout

- `src/` is the verified library (Verus). Every request handler is a
  function from the request body and the current stored state to the reply
  and the state to save, with a contract over spec functions:
  - `text`, `lists`, `json`: characters, trimming, splitting, the JSON field
    reader and string escaping.
  - `fields`: the sanitizers and validators of names, texts, dates, times,
    PINs and assignee lists.
  - `auth`: the salted FNV-1a password hash, the admin password check, ids
    and the host clock reply (the time is passed in).
  - `people`, `plans`: the record types, their line formats, file formats and
    JSON renderings.
  - `access`: who may delete what.
  - `http`: request parsing, routing and the response text.
  - `admin_api`, `planner_api`: the request handlers, and laws about them.
  - `persistence`: what the handlers save reads back unchanged.
- `app/main.rs` is the server around it: the listener, file reads and
  writes (with backups), the clock, and the command-line admin password
  setup. The browser pages (`index.html`, `styles.css`, `app.js`) are served
  from the `web/` directory of the working directory.
- `tests/` runs the library on concrete values.
