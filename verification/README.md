# mcconsole

A terminal console for running and administering a Minecraft server, locally
or over ssh.

- `src/` is the library, verified with Verus: commands and their exit
  reasons, quoting for the remote shell (with a proof that the remote shell
  reads a quoted command line back as the words that were asked for), the
  event bus and the app manager that registers, closes and drives scenes, the
  tabbed scene, and the decisions of each job (which command it runs and what
  it makes of the output).
- `app/` is the program around it: the terminal, key and tick events, the
  threads that run jobs, rendering, and the HTTP request for the modpack
  manifest.
- `tests/` exercises the library on concrete values.
