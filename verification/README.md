# G-Terminal

The logic of a native terminal, verified with Verus, and the program around it.

- `src/` is the library. Verus proves every function in it against its contract,
  but for the few that make a call into another crate or the standard library:
  their contracts are assumed. What the functions do together is stated in the
  proof functions whose names begin with `law_`.
  - `text`, `layout`, `input`, `editing`, `graphics`, `frames`, `agent`: plain
    text, the tree of splits, what keys, mouse and pastes send, text fields,
    pictures in the output, when the window is drawn, and the reserved protocol.
  - `appicon`, `icons`: the mark of the program and its glyphs, as integers.
  - `config`: connections, groups, search engines, settings and hosts from an SSH
    configuration.
  - `session`, `workspace`, `app`: sessions, tabs and panes, and what the user
    can do with all of it.
  - `port_owner`: which program holds a serial port, and how to get it back.
- `app/` is the program: the window, the sessions and the platform's own calls.
  What the library cannot do itself it hands out as an effect or an action, and
  is told what came of it.
- `tests/` runs the library on concrete values.

The library relies on `base64` and `image` for pictures, on `directories` for the
home directory, and on a few functions of the standard library. Each of these
calls stands in one function or declaration whose comment says what is assumed.
