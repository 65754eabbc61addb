# terminal_effects

The project model and editing logic of the Terminal Effects video editor,
written in Verus with contracts that the verifier proves.

`src/` is the verified library:

- `model`: frame rates, assets, tracks, clips and projects, the rules of a
  well-formed project, id lookups by exact id or unambiguous prefix, and
  fresh random ids.
- `edit`: the timeline edits (add, append, duplicate, transform, split, move,
  remove, trim) as functions from a project to a project.
- `history`: a project with its undo and redo stacks, and the commands that
  commit edits, undo and redo them.
- `decimal`, `time`: times written as frames, seconds or timecodes, read as
  exact decimals, and timecode text.
- `paths`, `media`: project files and directories, media files, importing
  probed media, cache file names.
- `server`, `icons`, `session`: the editor server's routes, byte ranges,
  content types, icons and session URLs.
- `runtime`, `keys`, `ui`: choosing the renderer, what the editor's keys do,
  and short interface text.
- `text`: characters, digits and decimal numbers.

`app/` is the `te` command line around it: files on disk, JSON, FFmpeg,
the HTTP server and the renderer process.
