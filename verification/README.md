# DeepSeek Harness

A desktop shell around the web interface of `dsh`. It launches `dsh web`, waits
until the server has reported its address and its port is reachable, shows the
page in a frameless window, and kills the server when it ends.

- `src/` is the verified library: everything the shell decides or computes.
  - `startup`, `port`: the course of a start, as state machines
  - `server_url`: the address in the output of the server
  - `web_url`: navigation, and the last segment of an address
  - `percent`, `filename`, `destination`: the name under which a download is stored
  - `scripts`: the scripts that run in the window, and their escaping
  - `process`: the command line, the kill plan, the binding to a job object
  - `window`: windows and events of the application
  - `text`: characters, words and numbers
- `tests/` runs the library.
- `app/` is the shell itself: windows, processes, sockets and threads.
