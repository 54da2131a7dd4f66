# nuonuo

The decisions of a small Wayland compositor's bare-metal backend, verified with Verus.

A compositor that runs without another display server has to follow the hardware: GPUs come and
go, monitors are plugged in and out, the session gains and loses the devices, frames are shown,
drawn, queued or fail. What it decides along the way stands in `src/` as functions on plain values
whose contracts Verus proves. What it does to the hardware and to its clients stands in `app/`.

- `src/mode.rs`: which display mode a connector is driven with
- `src/text.rs`: names of outputs, recognition of a driver
- `src/formats.rs`: sets of buffer formats and what clients are told about them
- `src/tty.rs` and `src/tty/`: the record of devices, connectors and surfaces, and everything that
  changes it: devices that are added and removed (`hotplug`, `removal`), connectors that are set up
  and taken down (`setup`, `connectors`), the session (`session`), frames (`frame`), feedback about
  buffers (`feedback`), and what holds of the record at all times (`consistency`)
- `src/xdg_shell.rs`, `src/compositor.rs`: commits of surfaces and requests to move a window
- `tests/`: the library run on concrete values
- `app/`: the event sources, the GPUs and the Wayland handlers around the library

The hardware is asked one question at a time. Where setting up something takes several answers, the
library holds a state, takes an answer, and gives the next state and the next thing to do; `app/`
does it and comes back with the next answer.

Functions that call the `drm` crate or the standard library behind a contract that Verus does not
check say so in their doc comments.
