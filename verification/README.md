# rp235x

Firmware logic for RP2350 boards, verified with Verus: a command shell over a
USB console, drivers for the chip's buses and the parts on them, sound, an
Ethernet and a Wi-Fi network with their update server and setup portal, and the
boot image.

The library (`src/`) computes and decides; it touches no hardware. What a driver
does is a machine there: given its state and what the hardware answered, it says
what to do next. The Ethernet controller's driver is the exception: it calls a
bus, a reset line and a delay through traits whose contracts keep a log of the
calls. Every function states what it returns in its contract, and what
holds across functions is stated as a proof function next to them.

| Modules | What they hold |
| --- | --- |
| `board`, `romapi`, `errors`, `words`, `text`, `ring` | boot image, identity, boot-ROM tables, shared types and helpers |
| `gpio`, `uart`, `i2c`, `pwm`, `i2s`, `usb`, `mailbox`, `flash`, `auxflash` | the chip's own blocks |
| `sdcard`, `fat`, `st7789`, `ds1302`, `slink`, `w5500`, `gspi`, `sdpcm` | the parts on its buses |
| `audio`, `flac`, `mp3`, `player` | decoding and playing sound files |
| `inet`, `dhcp`, `dns`, `http`, `portal`, `net` | packets, the setup portal, the update server |
| `console`, `command`, `shell`, `report`, `bench`, `update` | the shell, its replies and its image transfers |

Two calls leave the library: `flac::decode_stream` has `claxon` decode a FLAC
stream, and `st7789::font_glyph` takes a glyph from `font8x8`.

`app/` joins the library to registers, sockets, files and the console. Its
`main` is the host tool that decodes a sound file to WAV.

`tests/` runs the library on concrete values.
