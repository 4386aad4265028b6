# pinterest_downloader

Downloads the video of a Pinterest pin. The library (`src/`) holds the logic, with
contracts proved by Verus:

- `downloader`: normalizing a typed pin link, finding the video link in the pin page
  (through the `regex` crate), the file name a video is saved under, and how fetch
  results map to errors;
- `output`: download events, the `Output` sink trait and the download worker's job and
  event queues;
- `state`, `app`: the form, the download cards and the window state (submitting,
  applying events, dismissing and clearing finished downloads);
- `widgets`, `icons`, `printer`, `cli`, `text`: path shortening, icons, the plain form
  window, command-line arguments and character helpers.

`app/` is the program: HTTP and file I/O with `ureq`, the worker threads, the egui
window and the folder picker. Run it with a pin link (and optionally a directory) for
the command line, or without arguments for the window.
