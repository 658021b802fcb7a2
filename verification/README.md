# rf64

Core logic of a bare-metal firmware for the MIDI Fighter 64 (ATmega32U4,
64 arcade buttons, 128 WS2812 LEDs), written in Verus and proved correct
against its contracts.

- `src/` — the verified library: button masks and the time-based debouncer,
  LED colours, the frame power budget and the WS2812 bit buffers, the USB
  MIDI packet framing and receive buffer, the SysEx parser (FastRGB, Mystrix, device identity), the
  note/LED mapping of incoming MIDI, the snake idle animation, the HID
  keyboard mode, the telemetry reports and the bootloader entry decisions.
- `tests/` — tests of the library on concrete values.
- `app/` — the firmware around the library: hardware set-up, pin timing,
  the USB device stack and the main loop.
