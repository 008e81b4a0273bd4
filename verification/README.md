# vfio_passthrough

The rules by which a virtual machine monitor hands a VFIO device of the host to its guest, written
and proved in Verus.

- `src/` holds the rules. They work on plain values: they say what an access of the guest is for,
  which bytes of it the device may see, what is to be mapped for DMA, and which requests for
  devices are taken. Every function there has a contract that Verus proves. `src/outside.rs` holds
  what is believed of other crates.
- `app/` holds what touches the host: devices, containers, memory mappings, and the text of
  requests.
- `tests/` runs the library on concrete values.
