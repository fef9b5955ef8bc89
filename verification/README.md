# Hotspot Hub

A read-only dashboard for a phone that shares its connection as a Wi-Fi
hotspot: session length and traffic, upload and download speed, battery and
temperature, and the number of connected devices, with bounded trends.

- `src/` is the library, verified with Verus: the connected-device counters
  (`/proc/net/arp`, `ip neigh`, `dumpsys wifi`, neighbour entries and netlink
  neighbour dumps), the session reducer and its health rules, the bounded
  ring buffer, the reading caches (the battery is read at most every ten
  seconds, the connected-device count likewise), the sampling cadence (every
  second in the foreground, every minute in the background, the window
  refreshed only in the foreground), the dashboard texts, and the decisions
  of the Android sources.
- `app/` is the application around it: the Slint window and timer, the JNI
  and netlink calls of the Android sources, and the texts computed in
  floating point.
- `tests/` runs the library on concrete inputs.
