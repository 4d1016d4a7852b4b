# deepcool_digital

The decoding and selection logic behind a status-display driver for DeepCool
coolers, verified with Verus.

- `src/` — the verified library:
  - `text` — character-level helpers: splitting into fields and lines, trimming,
    decimal notation;
  - `num` — unsigned integer parsing with `from_str_radix` semantics;
  - `wide` — UTF-16 encoding and lossy decoding;
  - `pci` — vendors, PCI address and ID parsing, the device-name table, and the
    discovery of GPUs from sysfs `uevent` files;
  - `dxgi` — GPUs from a DXGI adapter enumeration;
  - `amd` — AMD GPU readings from hwmon files and from AMD's Display Library;
  - `winring0` — the WinRing0 driver interface and the Ryzen Tctl register.
- `app/` — the system side: file reads, DXGI, ADL and WinRing0 calls.
- `tests/` — tests of the library, several against std as an oracle.
