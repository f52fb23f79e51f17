# way-small

A small Wayland compositor. The library decides everything a compositor has to
decide, and its decisions are proved with Verus; the program around it holds the
sockets, the shared memory and the screen.

The library is one state and what happens to it. `state::CompositorState` is
what the compositor knows, `state::State` is the mathematical view of it, and
every function that changes the one says which spec function of the other it
carries out. Laws about the compositor as a whole are the proof functions whose
names begin with `law_`.

| module | what it is about |
| --- | --- |
| `wire`, `framing`, `text` | messages and their arguments as bytes |
| `client`, `protocol` | objects, their requests, and the events that answer them |
| `queues` | which descriptors a client's requests take from those it sent |
| `compositor` | what comes of each message from a socket or the backend, and of time passing |
| `buffers`, `scene`, `textures`, `cursor`, `dmabuf` | pixels: whose they are, who reads them, and what is drawn of them |
| `frames`, `pacer`, `sightings` | when a frame is composed, and who is told of it |
| `workspace`, `windows`, `shell`, `tree`, `positioner`, `hits` | where surfaces are |
| `focus`, `keys`, `pointer`, `touch`, `grabs` | input |
| `transfer`, `drags` | clipboard, and drag and drop |
| `departure` | what is left of a client that has gone |
| `table`, `seqs`, `objects`, `shared`, `state`, `config` | what the rest is made of |

Positions the pointer can take are in 256ths of a pixel. Descriptors are numbers
here; whoever holds the descriptors themselves closes them when told to.

`app/` is the program: it reads and writes the sockets, maps clients' memory,
draws through GLES in a window of the host compositor, and otherwise hands what
it hears to the library and does what it is told.
