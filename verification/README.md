# lockdown

Lockdown keeps a list of files locked on Windows: a background service opens
each listed file and holds it, and a control panel edits the list and starts
the service.

`src/` is the verified library; `app/` is the Windows program around it.

- `panel` — the control panel as a state machine: `LockdownPanel::update`
  takes a message, changes the panel and names the outside work that must
  follow (`Effect`); `view` describes what the window shows.
- `screen` — the banner and button texts of the window.
- `store` — the data file: reading its contents into paths, and writing paths
  into contents.
- `paths` — where the service, its executable and the data file live.
- `flow` — the steps that register, stop and start the service, and that
  ask whether it runs, as a state machine over the answers of the service
  manager.
- `procedures` — the same service work written as nested procedures, and
  the proof that the flow machine does exactly their work.
- `daemon` — the service's answers to control requests and its handling of
  files that it cannot open.
- `order` — the order of texts, by code point.
- `laws` — properties that span several functions, proved.

`app/` performs the work that the library names: the window (iced), the file
dialog (rfd), the service manager and the shell (windows), the service
runtime (windows-service).
