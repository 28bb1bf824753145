# sdrtop: the NET section's panels, verified

The 2.4 GHz section of a terminal monitor for SDR hardware: what the band
holds (occupancy, coexistence), who is on it (the BLE census and packet list,
classic Bluetooth piconets and their hops), and what the receiver missed (feed
health). Each panel is a function from the monitor's state and a size to the
lines it draws, and each is proved to write exactly the text its specification
says. The inks (the roles the theme turns into colours) are stated and proved
where they carry meaning, in the panels' own contracts: every piece of the
hop panel (whose colour a bar wears, which lane is selected, what recedes)
and of the coexistence panel (each canvas cell's heat, the newer moment on
top), the occupancy profile's bar rows (power live, duty at a past moment),
the residual plot's rows and limit marks, the timing readouts and the status
badges; elsewhere only the text is.

## Layout

- `src/` is the library, written in Verus. Every function carries a contract
  over mathematical models (`Seq<char>` for text, `Seq` for lists), and Verus
  proves the code meets it.
  - `state.rs` is the state the panels read; `census.rs`, `piconet.rs`,
    `ble.rs` and `ble/` hold the domain logic (ordering, address kinds,
    advertising-data parsing, channel selection).
  - `rounding.rs` is how a count of hertz becomes a printed figure: the
    quotient a double gives, printed with ties to the even digit.
  - `ui/frame.rs` draws a panel in its frame and fits its spacers to the
    height; `ui/chrome.rs` is the vocabulary of inks and pieces; `ui/wrap.rs`
    wraps text; `ui/widgets/` holds the table, the band plan and the
    formatters.
  - `ui/panels/net/` holds the panels.
- `tests/` runs the library on concrete states.
- `app/` is the terminal side: the theme that turns inks into colours, the
  drawing through ratatui, the registry of panels, and the read-outs computed
  in floating point (the receive chain's modelled figures, the signal
  readings, the micro views' colours and sparklines), which the library does
  not hold, and the census's ppm dial, a canvas drawing. The lab's signal
  panel is laid out by the library from readings the application formats.
