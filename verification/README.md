# Pipecat Audio Metrics

Audio-level turn latency benchmarking for voice agents: what the human hears,
not what the pipeline believes. The raw microphone and a tap of the system's
audio output are captured on one monotonic clock, and the gap between the moment
a voice stops and the moment the bot's audio starts is measured.

The decisions are a library verified with [Verus](https://github.com/verus-lang/verus):

- `src/analysis/` cuts the lanes into blocks (`segmenter`), pairs turns and
  follows interruptions (`turns`), keeps the echo gate, the time map, the
  waveform bins, the statistics and the speech intervals, and puts it all
  together tick by tick (`engine`). The `*_laws` modules state and prove what
  holds of these as a whole.
- `src/session.rs`, `src/protocol.rs`, `src/export.rs` hold the session, the
  bridge messages and the exported figures.
- `src/ui/` and `src/app.rs` work out what the panels show.
- `src/scalar.rs` and `src/millis.rs` carry measurements and times exactly.

`app/` is ordinary Rust around the library: the window, audio devices, the
WebSocket bridge, files, and everything that is floating point (band filter,
level meter, resampling, inference, drawing coordinates). It needs `cpal` for
capture and `tract-onnx` for speech classification, and the Silero VAD model
`silero_vad_openvino_16k_named.onnx` beside the program.

`tests/` runs the library on concrete conversations, signals and messages.
