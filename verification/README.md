# dsh-desktop

The decisions of a desktop shell that supervises `dsh web`, written in Verus: which Node and which
`dsh` to run, what environment a child gets, how to tell an instance of one's own from a foreign
one, when to restart, update, roll back or reload, and what may appear in a log.

- `src/` is the library. Every function states what it returns in its contract, and the laws that
  relate several functions stand beside them as public proof functions. It does no I/O: what was
  read from the disk, the clock, the environment or a process comes in as an argument, and what is
  to be done goes out as a value.
- `app/` is the shell around it: windows, processes, files, sockets and threads.
- `tests/` runs the library on concrete values.

## Layout of `src/`

| Modules | Subject |
| --- | --- |
| `text`, `split`, `search`, `number`, `bytes`, `json`, `paths`, `search_path` | text, paths and the outside parsers |
| `config`, `runtime`, `locator`, `resolve`, `childenv`, `shellenv`, `seed` | what to run, and with what environment |
| `harness`, `redaction`, `process`, `identity`, `takeover`, `supervise` | the child process, its output and its rivals |
| `version`, `update`, `update_flow`, `generations`, `snapshot`, `transaction` | versions, updates and the way back |
| `launch` | the course of one start |
| `window`, `webview`, `scripts` | the page, its probes and its shims |
