# zoners

One moment in time, read in every zone you care about: a CLI that prints a
psql-style table, and a small web app that shows the same answer on a 24 hour
dial.

The library under `src/` is written in Verus and verified:

- `band.rs`: the part of the day an hour falls in.
- `text.rs`: whitespace, trimming, searching, ASCII case folding and decimal
  integers over chars.
- `parse.rs`: the parsers for clock times, dates and offsets.
- `places.rs`: the places list, its entries and where it is loaded from.
- `convert.rs`: resolving the source zone and reading the moment in every place.
- `view.rs`: what the table and the dial show, and how a request is answered.
- `error.rs`: the error type and its messages.
- `moment.rs`: dates, clock times and moments as plain values, with the
  calendar arithmetic that ties a moment to its instant.
- `zone.rs`: the calls into `jiff`, with the contracts they are trusted to
  meet, and the zones the library holds, each with the name it was asked
  for under.
- `laws.rs`: properties that hold for every input.

`app/` holds the command line, the web server and the reading of the
environment and the config file.
