# netwatch

A network traffic monitor for the terminal in the manner of nload, with a
multi-panel dashboard of interfaces, connections, processes, host load,
active diagnostics, alerts and security events.

The program is in two parts.

- `src/` is a library verified with Verus: its functions are proved
  against their `requires`/`ensures` contracts. The few calls into the
  standard library that Verus has no specification for (the clock,
  Unicode letter classes and case mapping, `Duration` seconds) sit in
  small trusted wrappers whose contracts say what the standard library
  documents; the reading of the clock itself promises nothing of the
  time it returns. It holds the
  parsing of what the kernel and the system tools report (`/proc/net/dev`,
  `/proc/net/{tcp,udp}`, `ss`, `netstat`, `lsof`, `ps`, `/proc/stat`,
  `/proc/meminfo`, `/etc/os-release`, `nslookup`), the traffic statistics,
  input validation, security event tracking, connection intelligence, the
  settings, the decisions of both interactive displays (which key does
  what), and the text of sizes, uptimes and log lines. Each module states
  its laws as public proof functions named `law_*`.
- `app/` is the program around it: command-line parsing, reading files
  and running commands, the terminal user interface, the process-wide
  security monitor, and the figures kept as floating point (round-trip
  times, load averages, percentages).

`tests/` exercises the library on concrete inputs.
