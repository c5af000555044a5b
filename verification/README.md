# holocubic

Host side of a small screen that is driven over USB: the line protocol, the
scripts that upload pictures and read them back, the data that the radar, the
calendar and the hourglass show, and the console that keeps all of it in step.
Everything under `src/` is verified with Verus; `app/` is the window around it.

## How it is laid out

- `json`, `text`, `dates`: values, texts, days and moments, with what is needed to
  speak of them.
- `typed`: what is said of a value that is not the record that it should be.
- `outside`: every call into another crate, with what is believed of it.
- `codes`, `protocol`, `link`: sums and Base64, frames and parts, and finding a
  response in a stream.
- `script`, `usb`, `readback`, `playlist`, `preload`, `actions`, `device`,
  `bridge`: scripts. A script is a function of the answers that it has got so
  far: it ends with a result, with an error, or with what it asks for next.
  Whoever runs it sends commands, draws pictures, looks at the clock, and
  starts it again.
- `model`, `task`, `mirror`, `home`, `radar`, `calendar`, `console`: drafts,
  what the device confirmed, and the clocks that run on both sides.
- `contexts`, `tally`, `site`, `radar_data`, `calendar_data`: the sources of the
  radar and of the calendar, from bytes and rows to one record.
- `canvas`, `wrap`, `render`, `sheet`, `face`: what is drawn, and where.

Contracts speak of models: `JsonView` for values, a `Turn` for how a script
ended, and a view for every page and clock. What holds of several functions at
once is stated as a proof function whose name begins with `law_`.

Floating point stays in `app/`: glyph outlines, smooth animation, and numbers
that come with a fraction. The library takes what they are rounded to, or a
function that answers whether a text fits.
