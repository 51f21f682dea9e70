# sdfat

A file allocation table and an SD card driven over SPI, verified with Verus.

Nothing in the library waits, reads or writes. An operation is a value that names the next
thing to perform and is stepped with the reply, so that one proof covers every executor,
bus and stream.

* `src/block.rs` views a run of bytes as fixed-size blocks and back.
* `src/fat/` holds the FAT12, FAT16 and FAT32 table: what the entries say (`entry`), the
  stream that a table lies in (`stream`), reading and writing an entry (`access`), looking
  for free clusters (`scan`), taking one (`allocate`), laying out a table (`format`),
  walking along a chain and setting it free (`chain`).
* `src/sd/` holds the SD card: checksums (`crc`), what a card answers (`response`), the
  commands that it is sent (`card`), the bus (`bus`) with a command (`command`), a data
  block (`data`) and a wait (`idle`) on it, and above those the exchanges with a card
  (`exchange`) that reading, writing and erasing (`errand`) and bringing a card up (`init`)
  are made of. `session` carries such an operation out over the bus, and `driver` begins
  them.

The public proof functions whose names begin with `law_` state what holds of the operations
together. What the library takes from `sdio-host` stands in `src/sd/card.rs`, and what it
takes from the slices of std in `src/block.rs`, each with the contract that is relied on.

`app/` runs the operations on the streams, buses and timers of `embedded-io-async`,
`embedded-hal` and `embedded-hal-async`.
