# capture_stream

Streams a Windows display, the sound of an output device and a microphone
to a URL (FLV over RTMP, for instance) through FFmpeg's encoders.

- `src/` is the verified library (Verus): command-line value parsing
  (stream size, bit rates, encoder options, which sources to capture), the
  audio sample layout and the per-channel queues that cut audio into encoder
  frames, presentation timestamps, frame pacing, the timestamped frame
  messages passed from the capture thread to the encoder, the copy of a
  mapped texture into packed rows, the order of a two-input mixing round,
  the outcome of opening the output and writing its header, and the
  key-press log with its key names.
- `app/` is the program around it: the command line, WASAPI and Windows
  Graphics Capture, the FFmpeg calls, the keyboard hook and the async loops.
- `tests/` runs the library on concrete values.
