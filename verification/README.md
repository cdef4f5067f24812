# llmtmplog

A wrapper for commands that write too much: it keeps a command's whole output
in a log file and shows, on request, its first and its last lines.

```
llmtmplog [--head] [--tail] <command> [args...]
```

`src/` is the logic as a library, written in Verus and proved against its
contracts:

- `cli`: the command line, the help text and the lines on standard error.
- `run`: a run from the command line to the exit code, event by event.
- `preview`, `lines`: splitting output into lines and picking those shown.
- `pipe`: reading a pipe until it ends.
- `log_dir`, `log_name`: where log files are and what they are called.
- `calendar`, `decimal`: dates and numbers, as the names need them.
- `sweep`: which old log files are deleted.
- `signals`: which signals are passed on to the command, and how.

Proof functions whose names begin with `law_` state what holds of the library
as a whole: that the log holds every byte of the output, that the preview is
the first and the last 50 lines, that log file names are unique and are
recognised, and so on.

Two outside functions are trusted to do what their declarations say:
`dirs::cache_dir`, of which nothing is claimed, and
`String::from_utf8_lossy`.

`app/` is the program around the library: files, processes, threads and
signals. `tests/` runs the library on examples.
