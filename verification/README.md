# WSL Keeper

A Windows tray application that keeps a WSL distribution running and remounts Linux
physical disks inside it after a reboot or detach.

## Layout

```
src/        the verified library (Verus)
  text       string operations with their specifications (trim, split, case, decimal)
  bindings   trusted wrappers around chrono, uuid, regex and std text conversions
  i18n       locales and the message tables
  config     configuration model, validation, pauses
  state      runtime records of the guardians, reset requests
  status     the status summary shown in the window and the tray
  wsl        parsing `wsl -l -v`, choosing a distribution, decoding wsl.exe output
  disk       disk inventory, lsblk matching, mount commands and probes
  mount      the elevated scheduled task's scripts
  guardian   the decisions of the WSL and disk guardians (breakers, back-off, attach steps)
  tray, log  tray actions and icons, log levels
tests/      tests of the library
app/        the Tauri application around it: processes, files, tray, events, the loops
```

The guardians' loops live in `app/`; each step they take (whether to start a session,
what a failure does to the circuit breaker, when the next mount attempt is due, what to do
after a partition lookup) is a verified function of `src/guardian.rs`.

Configuration and logs live in `%APPDATA%\lea\wsl-keeper`.
