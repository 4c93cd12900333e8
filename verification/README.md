# recap

A screen recorder for macOS and Windows: recording with pause and resume,
stills, text grab and scrolling capture, around the capture that ffmpeg and the
operating system already do well.

`src/` is the library: everything that decides, parses or builds, in Verus. It
never touches a process, a file or a window. It plans what to run and where to
look, takes in what came back as plain values, and says what follows. `app/` is
the program around it: `main`, processes, files, threads, the window.

| Module | What it states |
|---|---|
| `capture` | the backends: device listings, segment and still commands, regions; `capture::windows_laws` says what holds of the Windows ones as a whole |
| `recorder`, `recorder_laws` | the recording machine, and what holds of it as a whole |
| `ffmpeg` | where ffmpeg is looked for, encoder probes, joining, GIF |
| `progress` | frame counts, the tail of the error output |
| `sessions`, `clock` | scratch folders, their owners, stale ones, time stamps |
| `disk` | free space: reading it, wording it, what follows from it |
| `still` | screenshots: plan, command, check, crop |
| `frame`, `scroll`, `scroll_laws` | pictures, aligning and stitching frames |
| `ocr` | reading order of recognised lines |
| `editor` | data URLs, file names, query strings |
| `cli` | the headless command line |
| `settings`, `shell`, `devctl`, `permissions` | the window's side of things |
| `double`, `single` | how the hardware compares, subtracts and rounds |
| `text`, `numbers`, `pieces`, `paths` | strings, numbers, paths |

Laws that span several functions are public proof functions; their doc comments
say what they state. Calls into `image`, `base64`, `chrono` and `serde_json` sit
behind small trusted wrappers, each with a comment on what it claims.

The library holds no floating-point numbers. Coordinates of recognised text are
the bits of double-precision numbers, and scores of the scrolling capture whole
multiples of 2^-64, each rounded as the hardware rounds. Paths are text.
