# fang

A daemon that drives Razer peripherals over hidraw and shows them on D-Bus.

- `src/` is the library: the feature reports and their exchange, what the devices are asked and
  what they answer, the discovery of devices, their setup, registration and removal, the state of a
  mouse, and what the objects on the bus show. It is verified with Verus.
- `app/` is the program around it: it talks to udev, to hidraw and to the bus, and does what the
  library decides.
- `tests/` runs the library.

What the library trusts is marked `external_body`: the validation of object paths by `zvariant`, the
hexadecimal encoding of `hex`, and the parsing of hexadecimal numbers by std.
