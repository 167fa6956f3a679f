# ex3

The verified core of the Ex-Alta 3 flight and ground software, written in
Verus. `src/` holds the rules that the flight software and the ground station
share, each function with a contract that Verus proves:

- `component_ids`, `ports`, `opcodes`, `constants`: who talks to whom, and how.
- `message`, `obc_client`: the ground station's 64-byte command frames, and the
  client that builds them from operator words and reads replies.
- `msg`, `bulk_msg`: on-board messages, and cutting a large one into numbered
  packets and putting packets back together.
- `scheduler`: execution times in message bodies, the saved-command files, and
  the rolling limit of their folder.
- `dfgm`: the DFGM handler's data-collection switch.
- `ipc`, `ipc_interface`: socket paths and the connection state of IPC servers
  and clients.
- `operator_input`, `timestamp`: the operator command line and execution times.
- `pmod_oled`, `dashboard`: the display's GPIO lines; the dashboard's pages,
  columns, search and command-form edits.
- `text`: character-level helpers (decimal numbers, equality, search).

`app/` performs the input and output around it (sockets, files, GPIO, SPI,
terminals, clocks) and hands the values to the library.
