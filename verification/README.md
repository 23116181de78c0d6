# rebab

A small rule-based reverse proxy. Each request goes to the backend of the
first rule whose path prefix starts the request path; rules may also start
a command that serves that backend.

- `src/` is the verified library (Verus): reading rules from
  `key=value,...` text, combining the configuration file with the command
  line, first-match routing, the choice of forwarded headers, planning and
  reporting of rule commands, regex route listings, and the text of
  addresses and log lines.
- `app/` is the program around it: argument parsing (clap), the JSON
  configuration file (serde), the HTTP server and client (hyper, tokio) and
  the child processes.
- `tests/` runs the library on concrete values.
