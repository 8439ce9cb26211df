# portly

The logic behind Portly, a macOS menu-bar app that lists the processes
listening on local ports, ends them, and starts registered development
servers. The library is written in Verus and verified:

- `scan` reads `lsof` and `ps` output (listening sockets, command lines,
  working folders, memory use);
- `kill` chooses the arguments of `kill` and words its failures;
- `registry` keeps the registered projects (save, find, delete) with the
  laws that relate those operations;
- `config` checks the configured project folders and tells where the app
  runs from;
- `detect` suggests a package manager and a run command for a folder;
- `spawn` plans how a project is started and reads back the end of its log;
- `text` states and implements the pieces of `str` behaviour the parsers
  need (lines, words, trimming, decimal numbers);
- `tray` decides what a tray click or a menu choice does;
- `host` holds the questions asked of the machine (home folder, whether a
  path is a folder).

`app/` is the Tauri shell around it: the tray, the window, and the commands
that run `lsof`, `ps`, `kill` and the login shell and read and write the JSON
files under `~/.portly`.
