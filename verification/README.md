# hyntix

The core of a USB flasher for Android, verified with Verus: it lays raw
Linux images and Windows installers onto USB mass-storage devices.

## Layout

- `src/` — the verified library.
  - `bytes`, `text`, `error`, `config` — byte encodings, text helpers, the
    error type and the pipeline's sizes.
  - `cbw`, `csw`, `scsi` — the Bulk-Only Transport wrappers and the SCSI
    command blocks.
  - `native` — the adaptive (AIMD) chunking of synchronous bulk transfers.
  - `mass_storage` — the BOT protocol as a state machine: command phases,
    device initialisation, block transfers split into READ(10)/WRITE(10).
  - `async_plan` — how the asynchronous writer gathers bytes into jobs and
    plans aligned or read-modify-write block writes.
  - `gpt`, `fat_format`, `fat_entries`, `fat_writer`, `fat_file` — the GPT
    table, FAT32 formatting, directory entries (short and long names), the
    FAT chain and the streaming file writer, all as planned disk writes.
  - `udf`, `wim`, `iso` — parsing UDF images, reading and splitting WIM
    archives into SWM parts, recognising Linux ISO images.
  - `windows`, `flash`, `linux`, `jni` — the Windows pipeline's decisions,
    the raw flashing pipeline's chunking and BLAKE3 verification, and the
    face shown to the Android application.
- `tests/` — tests of the library on concrete values.
- `app/` — the I/O around the library: USBDEVFS ioctls, the asynchronous
  writer's threads, file and device access, the UniFFI bindings and the
  command-line flasher.
