# partly_claudy

A terminal viewer for a Statuspage status page: the overall indicator, a
90-day uptime bar per service, the incident timeline for the selected
service, a disruption banner and a detail modal.

The decisions are a verified library (`src/`), checked with Verus:

- `api` — the Statuspage data model, its labels, and the fetch plan
  (endpoint URLs, which history months and incident codes to follow).
- `bars` — which components are services and in which order, the status
  painted on each day of each service, and the weighted downtime behind
  each uptime figure, with the laws that relate them.
- `app` — the application state machine: keys, refresh results, toasts,
  selections, the modal and the overlays, stated over an abstract model.
- `theme` — the theme list (opaline's builtin themes and the user's
  theme files), the picker cursor and its preview debounce, and the
  colour each role resolves to in the applied theme.
- `settings` — the saved theme preference: read out of the settings
  file's TOML text, and written back into it so that it reads back.
- `ui` — the pure layout and content decisions behind each pane.
- `clock`, `text`, `sorting` — instants and calendar days, string
  comparison and truncation, and a stable sort stated as insertion.

`app/` is the binary around it: command-line arguments, the terminal and
event loop, HTTP and fixture reading, reading and writing the theme and
settings files, and drawing with ratatui. It runs with `--base <URL>` for a
live page or `--fixture <PATH>` for a saved `summary.json`.

Lookups by string id (a component's group, a service's row, the
incidents already fetched, the incidents of a day) are scans over vectors,
stated as spec functions in which the last match wins, as with a map that
is filled in order. Verus gives std's `HashMap` and `HashSet` keyed by
`String` no contract that would pin what such a lookup returns, so the
maps were not carried over; the hash-map form was not tried here.
