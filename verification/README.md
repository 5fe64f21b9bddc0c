# cmux-tui

A debugger for serial lines that are multiplexed by 3GPP TS 27.010 (CMUX, Basic
mode). It asks a module for the multiplexer, opens virtual channels on one serial
line, and shows up to two of them side by side, in hexadecimal and as characters,
with every frame that went over the line in a view of its own.

The library under `src/` holds what the program computes and decides, and is
verified with Verus:

- `mux`: the check sequence, frames and their bytes, the decoder, control messages,
  and the link state machine;
- `serial`: the AT dialogue, the format of a character on the line, and what is
  asked of a byte stream and of a clock; `serial::handshake` states what holds of the
  dialogue as a whole, and what it comes to with a stand-in for the line;
- `app`: records, the input line, the state of the screen, the keys, and the runtime
  in which they meet the link; `app::guarantees`, `app::gathering` and
  `app::counters` state what holds of the runtime as a whole;
- `ui`: what is drawn, as plain data;
- `clock`, `text`, `cli`: times, texts, and the messages of the command line.

The runtime does nothing outside. What it wants done (frames to send, lines to log, a
log file to open) it leaves in a queue of effects.

The program under `app/` carries these out. It holds what touches the machine: the
serial port, the threads, the terminal, the log file and the arguments.

`tests/` runs the library on concrete values. No hardware is needed for them.
