# jukctl

Controller for a pen plotter on a serial port: an SVG file is converted to
G-code, the G-code is planned into plotter movements, and the movements are
sent to the plotter one by one.

- `src/` is the verified library (Verus):
  - `gcode` — the G-code line grammar, its parser, and the planning of a
    document into movements (pen lifts around rapid moves, a final park);
  - `session` — the decisions of the conversation with the plotter;
  - `cli` — command line arguments and the verbosity filter;
  - `logger` — which records the logger shows and how it marks them;
  - `svg` — the SVG text and its XML parsing;
  - `text` — splitting text into lines and words.
- `app/` is the program around it: argument parsing, the logger, the serial
  transport, SVG-to-G-code conversion and the floating-point conversion of
  planned movements into plotter commands.
- `tests/` exercises the library on concrete inputs.
