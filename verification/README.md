# runterm_core

The engine of a Windows launcher for Windows Terminal and WSL workspaces,
verified with Verus: the configuration model and its validation, the
resolution of a project's customizations, the Bash, PowerShell and SSH pane
scripts, the Windows Terminal command line that rebuilds a layout, and the
order of a launch.

- `src/`: the verified library. `flow` and `preparing` decide each step of a
  launch; the program runs the steps and reports how they went.
  `laws` and `separators` state properties of the library as a whole.
- `tests/`: tests of the library on concrete values.
- `app/`: the Windows program around it: the configuration file, running
  `wsl.exe`, `reg.exe`, `wt.exe` and the browser, and the Tauri interface.
