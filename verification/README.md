# spyder

The integer and text logic of a cable-driven parallel robot toolkit, written
in Verus with its specifications proved:

- the stepper motor line protocol (host backend and firmware simulator): the
  backend records every call it makes on its transport, and its contracts
  state them (one write of the UTF-8 of the command line, then one read of
  the reply) and which error comes back; a line so written is framed back
  whole at the other end, and the simulator applies exactly the steps of
  each move line;
- motor backends (mock, stepper, multi-board fan-out) and the routing of
  cables to boards by an axis map, with proofs that routes are distinct, that
  a move commands the boards in order with their share of it and stops at
  the first board that fails, and that fanned-out values read back per cable;
- the input counts that forward kinematics requires;
- venue files: a line-oriented TOML subset read in three dialects, resolved
  into explicit anchors or a preset, and written back, with proofs that a
  written file reads back as written and that comments and blank lines
  change nothing;
- restraint classification, cable model names, the step-burst and e-stop
  safety checks, backend selection for run sessions, command-line flags, and
  line framing of received bytes.

Layout: `src/` is the verified library; `tests/` runs it on concrete values;
`app/` holds the input/output around it (serial and TCP transports, the
simulator server, JSON bodies, venue and axis-map files) and the real-valued
geometry and timing, which stay outside the proofs.
