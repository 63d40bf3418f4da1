# Owl Player

A media player for Raven Linux, built on the FFmpeg libraries with its own GPU
renderer. Its logic is a library whose behaviour is stated in contracts and
proved by Verus; what talks to FFmpeg, the sound card, OpenGL and GTK is
ordinary Rust around it.

## Layout

    src/     the verified library
    tests/   tests that run the compiled library
    app/     the program: decoding threads, sound card, renderer, window

The library never waits and never touches a thread, a file or a widget. Each
thread of the program asks it what to do next, does it, and says what came of
it.

## What is where

| Part | Modules |
| --- | --- |
| Subtitles | `markup`, `markup_laws`, `subtitle`, `cues` |
| Playback | `clock`, `ring`, `audio`, `engine`, `demux`, `player`, `channel` |
| Pictures | `frame`, `colour`, `render`, `hwaccel`, `stage`, `visualizer` |
| Files | `media`, `browse`, `queue`, `path`, `order` |
| Window | `window`, `theme`, `config`, `cli` |
| Basics | `text`, `time`, `error` |

Times are nanoseconds in an `i64`; the volume is in millionths; colours are in
thousandths; matrices and scales are exact fractions. The floating-point work
(mixing samples, the spectrum, the shader's numbers) is in `app/`.

## Data

Shaders and stylesheets are read at run time from `/usr/share/owl-player`, or
from the directory that `OWL_DATA_DIR` names.
