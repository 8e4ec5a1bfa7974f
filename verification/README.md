# alfred

The verified core of Alfred, a GPU-rendered terminal multiplexer.

`src/` is a Verus library:

- `layout` — the binary pane split tree: splitting and removing panes, the
  leaf order, and the pixel layout of every pane with its dividers.
- `manager` — workspaces, pane-id allocation, focus cycling and pane removal;
  each workspace also holds a value (the application's terminal) per pane.
- `emulator` — terminal cells and the conversion of terminal colours to RGB.
- `renderer` — grouping cells into screen rows and rows into coloured text
  spans.
- `input` — keyboard shortcuts and the bytes a key press sends to the shell.
- `platform` — the default shell and the IPC endpoint.

`app/` is the program around it: the winit event loop, the wgpu/glyphon
renderer, the `alacritty_terminal` terminal model, the PTYs and the CLI stub.
