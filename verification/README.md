# virtgpu_channel

A Wayland transport for guests of a virtual machine: messages travel over the
cross-domain context of a virtio GPU instead of a socket.

- `src/` is the library, verified with Verus. It encodes and decodes what is
  exchanged with the host (`bytes`, `layout`, `protocol`, `iov`), remembers the
  channel's state (`channel`, `cache`, `platform`), and holds one machine per
  operation: `name`, `ring`, `submit`, `blob` and `identify` are the small ones,
  `context`, `connect`, `metadata`, `send` and `receive` are built from them. A
  machine asks for one request at a time (`request`) and goes on with the reply.
- The functions named `law_*` state what whole runs of the machines do: what is
  asked for, in which order, and what comes out.
- `app/` drives the machines on a real card and offers them to Wayland clients.
- `tests/` runs the library against scripted cards.

Guest and host share one machine: all numbers that they exchange, and those in
the card's events, are in the machine's byte order, which `platform` finds out.
