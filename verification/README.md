# open_voice

Speech-to-text and text-to-speech from one command line: local engines and
remote providers (OpenAI, ElevenLabs, Cartesia, xAI) behind one normalized model
of transcripts and audio. The logic is a Verus library; what reads and writes
the world is ordinary Rust around it.

## Layout

- `src/`: the verified library.
  - `text`, `path`, `decimal`, `binary`: strings, file paths, decimal numbers, and
    the binary numbers of 53 bits that stand for them.
  - `error`, `provider`, `domain`, `capabilities`, `ports`: the vocabulary.
  - `json`, `encoding`, `http`: JSON documents, base64 and percent-encoding,
    and HTTP requests as values.
  - `openai`, `elevenlabs`, `cartesia`, `xai`, `xai_timestamps`, `xai_voices`,
    `xai_stream`, `xai_realtime`: the remote adapters, as the requests they make
    and the meaning of the answers.
  - `canary`, `qwen3_tts`, `models`: the local engines and their model files.
  - `audio`: what ffmpeg is called with, and WAV files.
  - `engine`, `compose`, `config`: provider selection, validation, transcoding
    and fallback; which adapters a configuration enables.
  - `output`, `splitting`, `cli`, `reports`: renderings of transcripts, chunks of
    long texts, and what the commands decide and say.
- `tests/`: tests of the library.
- `app/`: the `openvoice` program: arguments, files, HTTP, WebSockets, ffmpeg and
  local inference. Local speech-to-text needs the `transcribe-rs` crate and ONNX
  Runtime, and is part of builds that are made with them and `--cfg local_stt`.

## How the parts meet

The library performs no input or output. An adapter turns a request into an
`HttpRequest` or into the address and messages of a session, and turns what
comes back into a transcript or audio. A transcription over several candidates
is a run: `action` says what to do next (decode a file, measure it, call a
provider), and `converted`, `measured` and `answered` take what came of it.

Times, speeds and thresholds are decimal numbers with eighteen digits after the
point. The program reads and writes floating-point numbers by their shortest
decimal notation. Where the library calculates with one, it does so with the
binary number nearest to it, and rounds as floating-point arithmetic rounds.

## What is trusted

`serde_json`, `base64` and `urlencoding` are called through the wrappers in
`json` and `encoding`, and `String::push` through the declaration in `text`. Each
says in its comment what it takes on trust.

## Laws

Besides the contracts of the functions, proof functions whose names begin with
`law_` state what holds of several functions together, such as that a run tries
its candidates in order, that redaction leaves no audio behind, that the chunks
of a text lose nothing, and that a number is read back from its notation.
