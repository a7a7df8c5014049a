# dj_tool

A DJ track tool: it asks for a folder, finds the tracks in it, decodes them
and computes spectrograms, waveform overviews and MFCCs, and writes audio to
MP3 or AIFF. A Python module (`decoding_backend`) exposes track listing,
decoding and spectrograms.

Layout:

- `src/` — the library, verified with Verus: whitespace trimming and path
  extensions (`text`), folder crawling and input parsing
  (`folder_crawler`, `parse_path`, `backend::folder_crawler`,
  `backend::parse_path`), the AIFF container and its 80-bit sample-rate field
  (`backend::audio::encoder`), the MP3 writer's use of LAME in the same
  module (the parameters and output-buffer sizes it hands to LAME, and that
  its output is the bytes
  LAME writes for the samples followed by those of the final flush; the LAME
  calls themselves are trusted, in `backend::audio::lame`, and what LAME
  writes is named rather than proved), output-format selection
  and mono mixdown layout (`backend::audio`), waveform peak ranges
  (`backend::encoder`), spectrogram framing (`backend::spectrogram::fft`) and
  the track listing and matrix layout behind the Python calls
  (`backend::api`).
- `app/` — the program around it: stdin, directory walking (walkdir),
  decoding (symphonia), the floating-point signal processing (rustfft),
  file output and the PyO3 module.
- `tests/` — tests of the library on concrete values.
