# qtp_core

Order books of Shanghai and Shenzhen stocks and ETFs, rebuilt event by event, with the replay
of whole market days, snapshots at fixed intervals and the comparison of the rebuilt books with
published reference snapshots. Every function of the library states in its contract what it
returns or changes, and Verus proves it.

## Layout

- `src/market_data.rs`: scalar types and the events that a book accepts.
- `src/order_book/`: the book. `model.rs` is its mathematical model, `relation.rs` relates the
  stored queues to the model, `laws.rs` holds what is true of all books.
- `src/legacy/`: normalization and replay of order and trade records of an older feed.
- `src/production/`: market days. `input/` checks rows, `sequence.rs` brings rows into sequence,
  `spool.rs` is the format of rows in channel files and `spool_file.rs` reads whole files,
  `replay/` turns rows into books and snapshots, `validation/` reads reference frames, compares
  them with the books and reports.
- `tests/`: the library from outside.
- `app/`: the command line program, which reads and writes Parquet and JSON files.

## Contracts

Contracts speak of models: a type's view is a value made of sequences, maps, sets and integers,
and what a function does to it is a specification function. Counts and prices are integers; one
price unit of the production feed is a ten-thousandth of a yuan.

Calls into other crates stand behind small functions marked `external_body`, each with a comment
that says what is claimed of the call: `slotmap` holds the orders of a book, `hashbrown` the
places of symbols, `smallvec` the levels of a snapshot, `chrono` knows the calendar.
