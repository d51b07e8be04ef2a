# Stemify

Stemify pitch-shifts Spotify on Windows, and can take stems (vocals, drums,
bass, ...) out of it, by routing Spotify's audio to a virtual cable, processing
what the cable carries, and playing the result on the default output device.

## Layout

- `src/` is the verified library (Verus). It holds the decisions:
  - `spotify`: the watch that believes Spotify gone only after several missed checks.
  - `controller`: the engine state and the changes the window may ask for.
  - `supervisor`: the engine's supervisor as a state machine, from event to
    next state and action, with its invariants proved.
  - `routing`: which processes, devices and persisted paths are Spotify's and
    the cable's, and the outcomes of routing and restoring.
  - `flows`: routing Spotify to the cable and putting it back, as step
    functions that fix the order of the checks and count the routings.
  - `pipeline`: the capture history, the output ring, arming and trimming,
    and the layout of separated blocks.
  - `stems`: stem names, masks and mixes.
  - `backend`: the desktop window's own engine state.
  - `nowplaying`: picking Spotify's media session and the cover's data URI.
  - `experiments`: argument handling, mixes and device lookup for the
    command-line experiments.
  - `text`: substring search, exact comparison, trimming and decimals.
- `app/` is the program around it: Windows audio and audio policy calls,
  threads, the separation model (ONNX Runtime), the pitch shifter
  (Rubber Band), the tray window (Tauri) and the experiments' main functions.
- `tests/` exercises the library on concrete values.
