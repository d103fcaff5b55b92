# Mac RDP Server

A remote desktop server for macOS. `src/` is the library: what the server decides and computes, with
contracts that Verus proves. `app/` is the program around it: sockets, TLS, the screen, the keyboard
and the mouse.

| Modules of the library | What they hold |
|---|---|
| `frame`, `tiles`, `rows` | images, the grid of tiles, which tiles changed, how long large changes wait |
| `tile_encoder`, `bitmap_encoder`, `packets`, `codecs` | tiles and bitmaps as bytes, packets of tiles, other codecs |
| `encoder` | the encoder of updates and its state from one frame to the next |
| `fast_path` | updates in fragments and packets |
| `session`, `server`, `credentials`, `input` | what a session and the server do with what comes in |
| `mac_display`, `mac_input`, `keymap` | the screen, the pointer, keys that are held, and the watchdog |
| `cli`, `config`, `daemon`, `text` | the command line, compression modes, stopping the server |
| `client`, `diagnostics` | what a client makes of what it gets, and what the test client counts |
| `graphics`, `pdu`, `decode`, `receive` | the functions of other crates that the library calls, each with what is claimed of it |

The functions named `lemma_..` that are public state what holds of the library as a whole: that a
client ends up with the picture on the screen, that packets come back together as they were made, that
no key stays down, that only the right credentials are admitted.

## Running

    mac-rdp-server --user dev --password 12345678
    mac-rdp-server --daemon
    mac-rdp-server --quit

The colour depth, the size of tiles, the frames per second and the resolution are set on the command
line or in the environment; `--help` lists them.
