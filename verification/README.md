# adbs

`adbs` shows the Android devices that are connected, lets one be chosen, and prints its serial
number, for use as `ADB_SERIAL`.

- `src/` is the library, verified with Verus: reading the output of `adb` (`device`, `track`, with
  `text` and `decode` below them), the picker itself (`picker`), what the screen says (`screen`) and
  where it says it (`layout`). `laws` holds what is true of the picker whatever happens to it.
- `app/` is the terminal program around it: it runs `adb`, reads keys and draws.
- `tests/` runs the library on examples.
