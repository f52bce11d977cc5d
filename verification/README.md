# millie

The decision logic of Millie, a coding agent that works with a language model served on
the user's own machine, written in Verus: executable Rust whose behaviour is stated in
contracts and proved.

## Layout

- `src/` is the verified library.
  - Text and JSON: `text`, `decimals`, `json`, `json_text`, `canonical`,
    `digest`.
  - The conversation as the model sees it and what is read back from it: `conversation`,
    `prompt`, `render`, `markers`, `chat`, `grammar`, `tool_call`, `round_trip`.
  - Completions as they stream in: `sse`, `regions`, `events`, `raw_stream`, `chat_stream`,
    `request`.
  - Loops and repeats: `repetition`, `repeat_guard`, `pathology`, `dispatch`, `call_events`.
  - The file editing tools and their corrector: `edit`, `tool_specs`, `correction`,
    `normalization`, `seeding`, `alignment`, `reindent`, `line_diff`.
  - Models and their server: `catalog`, `selection`, `oss`, `installation`,
    `install_plan`, `model_updates`, `download`, `launch`, `server`, `settings`,
    `system_prompt`.
  - Logs: `traffic_log`, `redaction`, `model_call_log`.
  - The rest: `broker`, `telemetry`, `skills`, `pets`, `update_action`.
- `tests/` runs the library on concrete values.
- `app/` is ordinary Rust around it: files, processes, HTTP, the terminal, and everything
  that is computed with floating-point numbers. The library takes the outcome of such work
  as plain values.

## What is trusted

The library calls a few functions of other crates and of the standard library. Each stands
behind a small wrapper whose doc comment says what is taken on trust: `serde_json` reading
and quoting (`json`), `sha2` (`digest`), `url` (`model_updates`), `shlex` (`update_action`),
UTF-8 decoding (`text`, `sse`) and `String::push` (`text`).
