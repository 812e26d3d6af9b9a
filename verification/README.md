# irig106-time

Nanosecond-precision time handling for IRIG 106 Chapter 10 telemetry data, written in
Verus: the public functions of the library state in `requires` / `ensures` contracts what
they return, the verifier proves those contracts, and no function of the library can panic.

## Layout

- `src/` — the verified library.
  - `rtc` — the 48-bit Relative Time Counter (wrap-safe arithmetic, 100 ns ticks).
  - `absolute` — `AbsoluteTime`, `CalendarTime` and the wire formats Chapter 4 binary
    time, IEEE-1588 and extended RTC.
  - `bcd`, `csdw` — Time Data Format 1: BCD day-of-year / day-month-year messages and the
    channel-specific data word.
  - `network_time` — Time Data Format 2: NTP, PTP, the leap-second table.
  - `secondary`, `intra_packet` — secondary header time and intra-packet time stamps.
  - `correlation`, `streaming` — RTC-to-absolute-time correlation, time-jump and RTC-reset
    detection, and a sliding-window correlator.
  - `quality` — integer reference-point statistics of a correlator.
  - `version`, `packet_standard`, `recording_event` — IRIG 106 version detection and
    version-aware parsing.
  - `scanner` — the packet walk of a Chapter 10 file: sync search, time packets, RTC
    resolution.
  - `chrono_interop` — conversions to and from `chrono::NaiveDateTime`.
  - `util`, `text`, `search`, `error` — calendar arithmetic, text rendering, sorted
    insertion and search, errors.
- `tests/` — tests run against the compiled library.
- `app/` — the `irig106-time` command-line tool: memory-maps a file, runs the scanner and
  prints summaries, timelines, CSV and drift reports (drift figures in floating point).

## Checking

Laws that relate several calls (byte round trips in both directions, the RTC's 48-bit
range, add/subtract round trips of `AbsoluteTime` that stay within the 366-day clock, the
offsets after an insertion into the leap-second table, what the correlators give back
after an insertion and what they keep, the point counts over channels and over a run of
insertions, ...) are public proof functions next to the code they speak of.
