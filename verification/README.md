# reader_bt

A client for the SPORTident Reader BT, a Bluetooth Low Energy reader for orienteering cards.

* `src/` is the library, verified with Verus: reassembly of segmented messages, parsing of card
  states and card readouts, formatting of what is shown, and the choice of the device and its
  characteristics. It does no I/O.
* `app/` is the program around it: it scans, connects, subscribes and prints.
* `tests/` runs the library on a captured readout and on its edge cases.

## What is proved

* A message that is sent in segments comes out of the reassembly exactly as it went in, and only
  when its length is the announced one; messages of one characteristic do not disturb another.
* Card states, punches and owner names are read back from the payloads that carry them; payloads
  that are cut short are rejected.
* A formatted time identifies the time of the week.
* The text of an id is read back as that id.

What is taken on trust is what `String::from_utf8_lossy` and the `uuid` crate's parsing and
printing return; each stands in a small function of its own with a doc comment that says what it
claims.
