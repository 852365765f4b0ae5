# flashkit

Flashing raw disk images to USB drives, SD cards and other block devices, on
Linux, Windows and macOS. What the flasher decides is verified with Verus.

## Layout

- `src/` is the verified library.
  - `flasher`: a flash as a machine. It names the next operation on the image, the
    drive or the progress channel, and is told how that ended.
  - `runs`: what holds of whole flashes, such as that the drive holds the image
    afterwards, and that a refused image leaves the drive alone; and of checks of
    what was written.
  - `aligned`, `memory`, `hashing`: buffers of whole pages that start on a page
    boundary, the memory they lie in, and SHA-256.
  - `linux`, `udisks`, `macos`, `windows`, `volumes`: how each platform lists,
    unmounts, opens and ejects drives.
  - `watch`: which changes of the drives are told.
  - `documents`, `markup`, `oldstyle`, `bplist`: which property lists are handed to
    `plist`, in XML, in the old text style and in binary form.
  - `data_types`, `error`, `text`, `decimal`, `paths`, `order`, `bytes`, `utf16`: what
    the others are made of.
- `tests/` runs the library on images and drives in memory.
- `app/` performs the operations: files, D-Bus, processes and the Windows API.

## What is trusted

The contracts of the functions that call `sha2`, `hex`, `plist`, `rustix` and
parts of `std`. Each has a doc comment that says what is claimed. Of the page size
of the process, and of the address at which memory lies, nothing is claimed: the
functions that take them are verified for every value.
