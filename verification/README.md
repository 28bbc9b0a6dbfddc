# nova_core

The verified core of a GPU driver. Its parsers, layouts, queues and state machines stand in `src/`,
with contracts that Verus proves. What touches the hardware stands in `app/`, and so do the
measuring of time and the layouts that the firmware of the GSP defines.

- `firmware`: TLV firmware images, falcon and RISC-V microcode descriptors, signature patching, and
  the list of firmware files.
- `fsp`, `falcon::fsp`: the boot handshake with the FSP. An exchange is a state machine that tells the
  driver what to do next and takes what happened.
- `gsp`: page tables, log buffers, the command queue shared with the GSP, and its sequencer.
- `mm::vram`: access to video memory through the PRAMIN window, as a state machine.
- `drm`, `iface`: the requests of user space, and what the display driver asks of the core.
- `wire`, `text`: little-endian numbers and hexadecimal text.

The functions whose names begin with `law_` state what holds of several functions together.

The library trusts one function of the standard library, `core::str::from_utf8`.

The code in `app/` is generic over traits that describe registers, shared memory, firmware files and
layouts, and the passing of time.
