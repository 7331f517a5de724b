# spi-flash-for-embassy

A driver for standard SPI NOR flash parts (JEDEC identification, chip /
sector / block erase, page programming with automatic page splitting, reads
by address, page, sector and block), whose core is verified with Verus.

Geometry: pages of 256 bytes, sectors of 4 KiB, blocks of 64 KiB; parts
above 16 MiB (256 Mbit and more) use the four-byte address commands.

## Layout

- `src/` — the verified library.
  - `geometry.rs`: manufacturers, JEDEC ids, capacities, `DeviceInfo`.
  - `command.rs`: command bytes, address headers, page-boundary checks.
  - `plan.rs`: plans of bus steps and the bus actions and events.
  - `executor.rs`: the state machine that runs a plan, one bus action at a
    time, and the laws it keeps (chip select is always released, a clean run
    performs exactly its plan, every run ends, a run that ends well returns
    exactly the bytes of its data read).
  - `flash.rs`: `SpiFlash`, which checks an operation's arguments against
    the identified part and produces its plan; the page split of writes;
    the record of identifications, whose last success is the known part.
- `app/` — the async side: runs plans on `embedded-hal-async` devices and
  offers the operations as `async fn`s (`SpiFlashOps`).
- `tests/` — tests that drive plans against scripted buses.

An operation is run as: `flash.plan_xxx(..)` (refused before any bus traffic
when the part is unknown or the range is out of bounds), then an `Executor`
over the plan (perform `action()`, report the result to `advance`), then the
outcome (`finish_initialize` for identification).
