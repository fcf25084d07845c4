# xtools

The verified library behind the xtools desktop toolbox (a floating ball
that opens a timestamp converter, a JSON tool and a translator). Verus
proves the library's logic against its contracts. Where that logic calls
serde_json, jiff or std, the call stands in a small wrapper whose contract
is taken on trust from that crate's source and documentation; a few
functions that only hand an opaque value on (the time zone lookups) state
nothing of it.

- `json_ops`, `json_tree`, `json_app`: validation, re-printing and
  unescaping of JSON, the fold tree of a document, and the JSON window.
- `time_convert`, `time_app`: Unix seconds and milliseconds against local
  time in a chosen zone (zones and calendars are jiff's), and the time window.
- `engine`, `md5`, `config`, `trans_app`: MyMemory and Baidu requests and
  replies, the MD5 signature, the settings, and the translation window.
- `instance`: the one-line requests between a second launch and the running
  instance, over a Unix socket or a named pipe.
- `boot`, `kwin`, `x11_windows`, `window_state`, `chrome`, `tray`,
  `surface`, `ids`: start-up, desktop and window decisions of the tools and
  the host.
- `text`: whitespace, trimming, numerals, search and replacement on
  characters.

`app/` is a command-line front end that does the I/O around the library:
sockets, files, environment, HTTP, KWin and X11. `tests/` exercises the
library on concrete values.
