# lilaccaps

A subtitle command-line tool: transcribe media into SRT captions, translate and review
captions with a Codex agent, burn captions into video, apply text or image watermarks,
and keep caption projects whose renders are bound to the exact captions that were
accepted.

## Layout

- `src/` is the library, written in Verus. Every function there carries a contract
  that Verus proves: SRT writing and reading (including that a rendered document
  reads back as the cues that were written), cue timing and layout, speech-window
  arithmetic, the rules that decide which agent edits are kept, the caption-project
  state machine, settings defaults and validation, watermark and preset rules,
  renderer choices, and the text that each command prints.
- `tests/` exercises the library on concrete values.
- `app/` is the `lilaccaps` binary: argument parsing, files, processes (FFmpeg,
  ImageMagick, Codex, Homebrew, cargo), the network (GitHub releases, model downloads)
  and speech recognition with whisper-rs or a faster-whisper helper. It hands the
  library plain values and acts on what the library decides.

## Runtime files

- The whisper model is downloaded into `<runtime home>/models` on first use.
- The faster-whisper engine runs `<runtime home>/faster_whisper_helper.py` with `uv`.
- `lilaccaps install` writes the agent skill from `SKILL.md` and its manual from
  `README.md`, looked up in `share/lilaccaps` beside the installed binary (or next to
  it).
