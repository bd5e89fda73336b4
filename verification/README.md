# kokoro

The text front end of the Kokoro speech model, verified with Verus.

- `src/phonemize.rs`: conversion of espeak IPA into Kokoro phoneme symbols
  (an ordered table of substitutions), with the laws of what it keeps and
  what it removes.
- `src/vocab.rs`: the Kokoro vocabulary read from a tokenizer document, and
  longest-match tokenization of phoneme strings into model ids.
- `src/config.rs`: checks of a voice configuration and resolution of its paths.
- `src/cli.rs`: the decisions of the command-line front end: synthesis mode
  names, how a request is carried out, which back end a voice needs.
- `src/json.rs`: the JSON documents these read, parsed by `serde_json`.
- `app/`: the command-line program and the file reading around the library.
