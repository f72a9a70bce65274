# mp3_to_video

A command-line tool that turns MP3 files and a folder of images into a video,
or cuts a video into segments, by running `ffmpeg` and `ffprobe`.

- `src/` is the verified library (Verus): command-line parsing, the argument
  lists handed to ffmpeg/ffprobe, reading the duration fields out of an ffmpeg
  report, the segment plan, the choice of background music and of effects.
- `app/` runs the processes, touches the file system, and does the
  floating-point work on durations.
- `tests/` exercises the library on concrete values.
