# rsllm

The logic of an AI stream analyzer and Twitch chat bot, written in Verus with
its behaviour stated in `requires`/`ensures` contracts and proved.

- `src/` is the verified library:
  - `tokens`, `speech_text`, `text`: token counting and truncation, caps
    adjustment, text cleaning for speech synthesis, and the character-level
    helpers they share.
  - `openai_api`: chat prompt formats and the handling of a streamed answer.
  - `session`: the decisions of the query loop (history size limit,
    paragraphs of the streamed answer, log level, loop end).
  - `twitch_client`: chat commands, prompts, posted answers and history.
  - `mpegts`, `ts_payload`: CEA-608 captions and the ITU-T T.35 payloads
    that carry them, SCTE-35 timing, the clock-reference slots of programs,
    demultiplexer filters, TS payload offsets, H.264 NAL unit ranges and the
    demultiplexer buffer.
  - `hexdump`, `numfmt`, `console`: hex dumps, number formatting and line
    breaking of terminal output.
  - `images`, `stable_diffusion`, `candle_mistral`, `pipeline`, `ndi`,
    `openai_tts`, `mimic3_tts`, `clock`: the integer and text decisions of
    image, model, speech and video output handling.
- `tests/` runs the library on concrete values.
- `app/` is the command-line program around the library: argument parsing,
  HTTP requests, Twitch connection, MPEG-TS demultiplexing, audio decoding
  and drawing.
