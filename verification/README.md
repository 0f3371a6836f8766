# SomeNET

Multichannel audio over IP, as 24-bit linear PCM in RTP packets over UDP: a program of its own
(`somenet`) and a VST3 plug-in that send or receive a stream by unicast or multicast.

## Layout

- `src/` is the library, verified with Verus. It holds no sockets, threads, clocks or windows: it is
  told the time, is handed datagrams and audio, and says what is to be done.
  - `sample`, `rtp`: samples as 24 bits, and packets of them.
  - `stream`, `state`, `params`: what a stream is, how it is saved, and its parameters.
  - `sender`, `pacer`: audio to packets, and when they go out.
  - `receiver`, `playout`, `ring`, `block`: packets to audio, with gaps made up and drift taken up.
  - `processor`, `arrangement`: the plug-in's audio callback and buses.
  - `editor`, `scene`: the plug-in's editor, its clicks and what it draws.
  - `status`, `lines`: warnings, session descriptions, and reports that are written and read back.
  - `cli`, `device`, `standalone`: the program's command line, devices and console.
  - `text`, `wide`: numbers, addresses and UTF-16.
- `app/` runs the library: sockets, threads, audio devices, windows, and the plug-in's host.
  `main.rs` is the root of the program, `lib.rs` that of the plug-in, a dynamic library.
- `tests/` runs the library on concrete values.

Audio samples are the bit patterns of 32-bit floating-point numbers throughout the library, so that
what 24 bits carry of a sample is stated and proved exactly. Times are whole nanoseconds or
milliseconds.

What is proved of the library as a whole stands in proof functions whose names begin with `law_`:
among others that callback after callback a receiver plays what a sender was given, every sample as
24 bits carry it, as long as no packet is lost and its queue stays within a packet of its target.
