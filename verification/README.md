# wispet

The lookup engine of Wispet, an instant word-lookup tool, written in Verus
with its behaviour stated in `requires` / `ensures` contracts and proved.

- `src/` is the verified library:
  - the MDict container parser (`header`, `keys`, `cipher`, `compress`,
    `container`, `index`, `sort`, `dict`): reading `.mdx` dictionaries and
    `.mdd` resource archives from their bytes, and case-insensitive lookups
    in them;
  - what each online provider asks for and makes of its answer
    (`provider`, `html`, `url`);
  - the configuration, its defaults and the order in which providers are
    tried (`config`, `plan`, `startup`);
  - the hotkey syntax, resource requests and clipboard rule (`shortcut`,
    `resource`, `clipboard`).
- `app/` is the desktop program around it: file and network I/O, the
  window and global-shortcut plumbing, and the serde forms of the
  library's types.
- `tests/` runs the library on concrete inputs, among them synthetic
  dictionaries built with `flate2` and `ripemd`.
