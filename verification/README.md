# mic-rs

A verified library, and a command line tool around it, for downloading recordings from Bluetooth
voice recorders. The supported device is the Anker Soundcore Work D3200.

## Layout

- `src/`: the library, verified with Verus. It computes and decides; it does no input or output.
  - `protocol`: the packets that go to the device and the replies that come back
  - `crypto`: key agreement, session and file keys, decryption of slices
  - `download`: the transfer of a file as a state machine
  - `ogg`, `crc`: the Ogg/Opus file that a recording is stored in
  - `recorder`: a session with a device: handshake, file list, deletion, start of a download
  - `ble`: which peripherals are recorders, which characteristics to use
  - `cli`: hexadecimal input and dumps, choice of a device by name or address
  - `error`, `text`, `bytes`: errors and their messages, numbers as text and as bytes
  - `protocol_laws`, `download_laws`, `ogg_reader`: properties that span several functions
- `tests/`: tests of the library from outside
- `app/`: the tool `mike`: Bluetooth, files, arguments and printing

## What is proved

Every function states exactly what it returns, over mathematical models of the packets, keys,
files and states. On top of that:

- A recording that a device sends encrypted, slice by slice, ends up in the Ogg file frame by frame,
  unchanged and in order: an Ogg reader finds the two header packets and every frame.
- The checksum of each page is the remainder of the page as a polynomial over bits.
- Packets that do not belong to a download change nothing.
- A device that holds the secret behind the public key that it sends is always accepted by the
  handshake, and a refused handshake leaves the session as it was.

## What is trusted

The elliptic curve, key derivation and cipher come from the crates `p256`, `hkdf`, `sha2`, `aes` and
`ctr`. Each is called in one small function of `crypto` whose comment says what is believed of it.
Of the standard library, `String::push` and `str::to_lowercase` are given a contract.

## The tool

```
mike scan
mike list -d "D3200"
mike download -d "D3200" -f 1780722187 -o ./recordings
mike raw -d "D3200" -x "08EE0000001A0700000001"
```
