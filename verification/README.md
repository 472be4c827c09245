# holdtap

Tap a second finger to click without lifting the first: a filter between a Linux touchpad and a
virtual twin of it. The logic is a library verified with [Verus](https://github.com/verus-lang/verus);
the daemon around it does the device I/O.

## The gesture

While one finger moves the pointer, a second finger that lands is hidden from the output for a
moment.

- If it leaves soon enough, the left button is pressed and released, and the output never shows it.
- If it moves, stays, or is joined by another finger, or the first finger leaves, it is shown with
  all that it has reported meanwhile.

## Settings

| Option | Default | Meaning |
|---|---|---|
| `--tap-timeout-ms` | 140 | how long a second finger can be a tap |
| `--scroll-move-mm` | 0.8 | how far a second finger must move to scroll |
| `--primary-age-ms` | 45 | how long the first finger must be down |
| `--primary-move-mm` | 1.5 | how far the first finger must have moved |

## Layout

- `src/recognizer.rs` decides between tap and scroll, contact by contact.
- `src/session.rs` is the filter: events of the touchpad in, reports of the virtual device out.
- `src/frame.rs`, `src/event.rs`, `src/codes.rs` and `src/order.rs` build the reports.
- `src/device.rs` says which device to filter, by what `src/attributes.rs` takes from the `evdev`
  crate about its capabilities; `src/options.rs` reads the command line with the
  helpers of `src/text.rs`.
- `src/gesture_laws.rs` and `src/stream_laws.rs` state what holds of the recognizer and of the
  output as a whole.
- `app/` is the daemon: listing, grabbing and cloning the device, and the multiplication that turns
  millimetres into device units, which is floating point.

Times are counted in nanoseconds and positions in device units. Arithmetic on positions and
thresholds is wide enough for every value, so no operation of the library overflows.
