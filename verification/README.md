# mofa_studio

The verified core of the MoFA studio apps (Cast, FM, Debate, Hello): the
parsing of transcripts and scripts, WAV framing and the mixing of segment
files into one WAV file, the recent-files list, script templates, voice
assignment, the sequential queue of segments sent to the TTS dataflow, the
decisions of the cast and FM dataflow workers, the reading of `dora` and
`pgrep` output, and the texts and choices of the screens.

- `src/` is the library, written in Verus: every function is verified,
  each with a contract where it computes something (the constructors of
  field-less types have nothing to state); the laws that relate several
  functions are public proof functions beside them.
- `tests/` exercises the library on concrete values.
- `app/` holds what cannot be verified: file, process and thread work,
  serde, the floating-point parts of audio, and the dataflow workers' loops.
