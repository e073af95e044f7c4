# aipack script support

The decisions behind the Lua and Rhai scripting layer of an agent runner,
written in Verus and proved against their contracts.

- `src/` — the verified library: line utilities (`text`, `md`), path joins
  (`path`), the JSON value model and the custom values that scripts return
  (`json`, `custom_value`, `aipack_custom`, `devai_custom`, `devai_action`,
  `rhai_devai`), the reading of script arguments (`lua_support`,
  `dynamic_support`), Lua error messages (`lua_error`), `dump`, the
  configuration table, and what the script modules for commands (`cmd`,
  including `git restore`) and web requests (`web`) hand back once the
  outside work is done.
- `app/` — the runtime around it: the `mlua` and `rhai` modules, processes,
  web requests, and the conversions between script values and library values.
- `tests/` — tests of the library.
