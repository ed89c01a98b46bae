# Binder

Binder is the desktop shell of mochiOS: the system bar, the Dock, the App
Library, the windows of running applications and the wire protocol that
those applications speak to the desktop.

The crate is a Verus library. `src/` holds the shell's logic with its
contracts and proofs:

- `protocol`, `client`, `ipc`: the window-server frames and their encoding,
  with round-trip laws for requests, events and packets.
- `window`: the window stack, focus, title-bar controls and what the
  owning processes are told, with the law that focus only ever rests on a
  window on screen.
- `dock`, `dock_preferences`, `app_library`, `catalog`, `top_bar`: what the
  Dock and the App Library show and how they answer the pointer and the
  keyboard; the saved pins and their file format.
- `linux`, `mochios`, `decoration`, `context_menu`: the bookkeeping of each
  platform, as state machines that take events and give the next action.
- `clock`, `session`, `launch_failure`, `manifest`, `platform`, `text`:
  the system bar's clock, the session's user, the launch-failure notice and
  the application manifests.

`app/` is the program around the library: process start-up, sockets,
child processes, files, and the screen drawn with ViewKit. `tests/` runs
the library on concrete values.
