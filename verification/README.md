# grok_hooks

Connects the Grok command line tool to the hcom message bus. The library, under `src/`, is
verified with Verus: it decides what stands in the hooks file of Grok, what each hook does and
what it answers. It touches neither files nor the bus; its functions take what has happened and
return what is to be done next.

- `setup`, `install`, `paths`, `commands`: putting the hooks into the file, testing for them,
  taking them out.
- `dispatch`, `handlers`, `payload`: the run of one hook.
- `json`, `wire`, `text`: JSON values, their text (through `serde_json`), and strings.
- `install_laws`, `readback`, `dispatch_laws`: what holds across these functions.

`app/` is the process around it: files, standard streams, and the trait `Host` through which
hcom is reached. `tests/` runs the library.
