# control-ofc-daemon

The logic of a fan-control daemon for Linux: what the kernel shows of sensors, fan
headers and graphics cards, how current that knowledge is, and how fans are taken from
the firmware and given back to it. The library is written in Verus; every function of it
states in its contract what it returns or changes, and Verus proves it.

Five contracts on the standard library are believed and not proved. They stand in
`src/text.rs`: `String::push`, `str::to_lowercase`, `str::to_uppercase`,
`String::from_utf8_lossy` and the `Debug` form of a string. What the last four make of
text beyond ASCII, of bytes that are no text, or of characters to escape is named there
and not stated.

## Layout

- `src/` is the library.
  - `text`, `collections`, `clock`, `pwm`, `error`: what the rest is made of.
  - `health`: the state cache, its history, sensor failures, and health by age of data.
  - `hwmon`: discovery and classification of sensors, monitor-only fans, header
    capabilities, chips and their kernel modules, cooling devices and their policies,
    graphics cards and their fan curves, the write lease, and the hand-back of headers.
  - `api`: what is answered to clients.
- `tests/` holds the tests.
- `app/` is the daemon's side in ordinary Rust: files, clocks, locks and the wire format.

## Reading and writing

The library opens no file. A directory of sysfs comes as a value that says what was read
and what could not be read; a file comes as its text, or as nothing. Writes go through
two traits, `FanCurveWriter` and `SysfsWriter`, whose contracts keep an account of every
access, so that a contract can say which writes are tried, in which order, and what was
read back. What is proved of such a write holds for a writer that keeps to those
contracts.

Time is an argument. Temperatures are whole thousandths of a degree, as the kernel gives
them. Where a value is a floating-point number (a rate of change, a duty, a trip point),
the library carries it and does not look into it: the smoothing of rates is handed to it
as a function.
