# mykvm

One mouse and one keyboard for several machines: the cursor crosses an edge of
the screen and goes on, on the screen of another machine.

`src/` is the library. It decides everything and is proved with Verus: which
edges lead where, when the cursor crosses and where it lands, what is sent to
the controlled machine and what is let go of when control comes home, who is
believed when input arrives, how machines find each other and pair.

- `text`, `seqs`: texts and lists, as the other modules speak of them.
- `rounding`, `double`, `single`: floating-point numbers as their bits.
- `layout`, `edge`, `platform`, `targets`, `wiring`, `moved`: screens, their
  sides, the links between them, and what a fingerprint tells of the links.
- `active`, `switch`, `held`: crossing, following, coming home; hotkeys that
  switch screens; keys and buttons that are held.
- `keys`, `hotkeys`: key codes of the platforms, and chords of them.
- `packet`, `credentials`, `receive`, `recency`, `clipboard_target`: packets on
  their way out and in.
- `macos_capture`, `windows_capture`, `linux_input`, `linux_capture`: what a
  platform's hooks hand over becomes a plan; where a step depends on whether a
  send succeeds, the plan waits for it.
- `mac_inject`, `linux_inject`, `windows_helper`: input that arrives becomes
  what a platform's own interface takes.
- `addresses`, `interfaces`, `discovery`, `pairing`, `clipboard`, `client`: a
  machine on the network, and one that is only ever controlled.
- `status`: what the user is told.

Public proof functions named `law_..` state what holds across functions.

`app/` is the ordinary Rust around it: sockets, threads, files, the wire
encoding and the platforms' interfaces. It performs what the library plans and
hands back what happened. The QUIC transport is installed from outside.

`tests/` runs the library.
