# editor_server

A server for the live viewport of a game project. It scans a directory of games
(a folder each, with `scene.ron` and `tscn.ron`), renders the one that is shown,
and streams it as H.264 over a WebSocket. In the viewport, `n` goes on to the
next game and the arrow keys move the first object of the scene along the axes
of the screen.

- `src/` is the library: the rules of the server, verified with Verus.
- `app/` is the program around it: files, sockets, the GPU, and the rules that
  are floating point, which are how a colour becomes brightness and the two
  colour values, how far an arrow key moves (5% of the distance from the camera
  to what it looks at, along the camera's axes), and the matrix of a mesh.
- `tests/` runs the library on concrete values.

The number type of coordinates is a parameter of the library. The program uses
`f32` and hands in the few operations on numbers that a rule needs.

| Path on :5812 | Answer |
|---|---|
| `/` | the page that shows the viewport |
| `/scene` | the scene as it now stands, as JSON |
| `/game` | the name and index of the game that is shown, and how many there are |

Frames go out on `:5813/ws`: one byte, 1 for a key frame and 0 for another, and
then the frame. Key presses come back as `{"type":"keydown","key":"..."}`.

The program renders with the `shinra_engine` crate of the engine workspace.
