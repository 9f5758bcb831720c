# blue_rs

Text handling for a local Hebrew/English text-to-speech service, verified
with Verus.

- `src/` is the verified library: phoneme chunking (`chunking`), Hebrew
  text preparation and niqqud/stress handling (`handling`, `speech`), the
  G2P plan that routes text to eSpeak, the plain-Hebrew engine or the
  niqqud engine (`phonemize`), phoneme tokenization and the vocabulary file (`tokenizer`, `json`), and the
  HTTP service's and desktop client's own logic and bodies (`server`,
  `sources`, `dto`, `desktop`). Calls into `regex` and
  `unicode-normalization` and `serde_json` stand behind the trusted items in
  `patterns`, `tokenizer` and `json`.
- `tests/` runs the library on concrete inputs.
- `app/` holds what stays outside: audio buffers, WAV output, model and
  vocabulary files, the G2P engines themselves, and the serde shapes of
  the HTTP bodies.
