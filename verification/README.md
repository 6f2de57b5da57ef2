# meowpdf

The core of a document viewer for terminals that speak the Kitty graphics protocol, written in
Verus. The functions of the library carry contracts that Verus proves; the thin wrappers around
the crates below carry contracts that are taken as given.

- `src/drivers/graphics.rs`: graphics commands, the transfer of bitmaps in chunks, and what a
  terminal reads of a transfer
- `src/drivers/response.rs`: graphics responses
- `src/encoding.rs`: PNG files and Base64 texts, on top of the `png` and `base64` crates
- `src/input.rs`: keys, on top of the `keybinds` crate, and the mouse wheel
- `src/session.rs`: the decisions of the main loop
- `src/handshake.rs`: the bounded wait for the terminal's responses
- `src/globals.rs`: constants, user activity and the debug log
- `src/messages.rs`: messages of the debug log
- `src/text.rs`: numerals, splitting and searching
- `app/`: the program around the library: the terminal, the clock, files and channels. A
  document backend is plugged in through the trait in `app/backend.rs`.
