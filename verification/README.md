# adb-sync-tool

Keeps a local directory and a directory on an Android device in step, over
`adb`.

    adb-sync-tool devices
    adb-sync-tool storage
    adb-sync-tool push <alias> [--ignore-changes] [--delete]
    adb-sync-tool pull <alias> [--ignore-changes] [--delete]

An alias is an entry of `~/.config/adb-sync-tool/config.json`:

    {
        "music": {
            "device_name": null,
            "local_dir": "Music",
            "remote_dir": "/sdcard/Music",
            "allow_hidden": false
        }
    }

## Layout

- `src/` decides: which files to copy and to delete, what to show and to ask,
  and in which order things are done. All of it is verified with Verus, but
  for two calls of the standard library whose contracts are believed:
  `String::push` and `String::from_utf8`.
  - `text`, `number`, `path`: lines and words, decimal numbers, Unix paths;
    `path_laws` says how stripping and joining belong together.
  - `cli::scan` compares the two sides, `cli::sync` leads from there to the
    user's consent, `cli::writer` carries the work out step by step.
    `cli::push` and `cli::pull` fix what differs between the directions.
  - `cli::scan_laws` and `cli::writer_laws` hold what is true of a transfer as
    a whole: nothing wanted is left out, nothing else is touched.
- `app/` acts: it talks to the device, the file system and the user.
- `tests/` runs the library on examples, and against the standard library.
