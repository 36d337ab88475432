# hazmat

Deniable storage behind an ordinary looking FAT32 disk.

`format` fills a file or block device with random bytes, lays a Windows-style
GPT disk with one FAT32 partition over it, and hides one encrypted header sector
past the first thousand free clusters of that partition. Everything behind the
header, up to the end of the FAT32 data area, is the hidden volume. `open` finds
the header again with the password and exposes the volume as a userspace block
device. `sanitize` only fills the target with random bytes.

## Layout

- `src/` is the verified library. It makes no system calls: its functions hand
  out the requests to perform and take what the system returned.
  - `cipher`: password-derived sector cipher (Argon2id, AES-256-CTR, sector
    stream).
  - `hazmat`, `volume`: the hidden header, formatting and opening.
  - `shadow`: requests of the exposed block device.
  - `io`, `transfer`, `sanitize`: accounting of the target, transfers of whole
    buffers out of partial calls, random fill.
  - `msfat32`: geometry, GPT, FAT32 areas, identities and boot sector of the
    cover disk.
  - `formatted`: what holds of a formatted disk as a whole.
  - `prompt`, `error`, `text`, `sizes`, `utils`: answers of the user, texts and
    little-endian fields.
- `tests/` runs the library on concrete values.
- `app/` is the command line program around the library.

The program reads the Windows-made structures of the cover disk from the
directory `msfat32-blobs` beside it.
