# smartpaper

The logic of a wallpaper daemon for Wayland desktops, verified with Verus.

- `src/` is the library: the configuration model (`model`), path helpers and the trusted
  wrappers around `std::path` and `str::to_lowercase` (`paths`), the control-socket protocol
  (`ipc`), classification of directory entries (`media`), syncing the media list with a
  directory scan (`library`), the rotation order (`playlist`), the daemon's state between
  events and the wallpaper manager (`rotation`), file-watch event classification (`watch`)
  and the helpers behind the desktop app's commands (`gui`).
- `app/` is the daemon program around it: configuration file I/O, the control socket,
  the file watcher, directory listing, running the wallpaper script, and the event loop.
- `tests/` exercises the library on concrete values.
