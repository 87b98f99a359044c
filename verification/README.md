# loadymcloadface

A load testing tool that reads a Siege style url file and sends its
requests at a set pace, logging each result and reporting statistics as it
goes.

- `src/` is the library, verified: the url file language (assignments,
  variable references and escapes, comments, methods, content types and
  bodies), the split of a url file among cooperating instances, the
  classification and totals of call results, the report arithmetic, the
  pacing of calls, the countdown to a scheduled start, the request headers,
  the units of the configuration, cpu usage captures and the trimmed HTTP
  archive records.
- `app/` is the program around it: configuration files and the
  environment, the url file on disk, the HTTP client, the threads, the
  clock, the cpu usage report of the operating system and the floating
  point display.
- `tests/` runs the library on concrete inputs.
