# iptv-speed-tester

Collects IPTV sources (public API hosts and M3U/TXT subscriptions), measures
their speed, filters them, and serves the result as M3U8 and TXT playlists
over HTTP.

The library in `src/` holds the logic, verified with Verus:

- `config`: constants and the run-time settings, each set at most once.
- `state`: command-line settings, the subscription list, start-up decisions,
  the shared playlists and the run flag, which follows a run through its
  stages.
- `schedule`: the cron schedule read in the configured time zone (falling
  back to Asia/Shanghai), and the wait before the next run; the calls into
  the `cron` and `chrono-tz` crates.
- `server`: the replies of the HTTP endpoints.
- `speedtest`: playlist segment resolution, the channel lists of the API host
  types, download bookkeeping, progress, subscription hosts.
- `order`: ordering by speed, fastest first, as a stable sort.
- `selection`: choosing the sources to keep.
- `task`: entries of sources and subscriptions, the resolution filter, the
  hsmdtv address list, the steps of a run.
- `playlist`: reading subscriptions and the resolution of HLS master
  playlists.
- `output`: sources per channel and the two playlists.
- `text`, `types`, `urls`, `patterns`: strings, data types, and the calls into
  the `url` and `regex` crates.

Rates are counted in bytes per second (`types::Speed`); the command line takes
MB/s.

`app/` is the program around it: command line, HTTP server, the timer that
sleeps until the next run, network and files.
