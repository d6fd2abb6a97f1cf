# marquito

A file storage that runs over plain HTTP (`marquito`) and its command-line
client (`luizito`), with the logic of both written in Verus and proved
against its contracts.

- `src/` is the verified library:
  - `text`: splitting at a character or a line break, Unicode white-space
    trimming, decimal rendering;
  - `request`: the request head parser (`from_slice`, with the http crate's
    checks on the method, the target and each header name and value), the end
    of a head in a byte stream, the announced body length and the part of the
    body already buffered;
  - `response`: `IntoResponse` for statuses, bytes and texts, and the bytes
    that write a response;
  - `handler`: the server's routing of GET and POST to files inside the
    storage directory, and the answers to reads and writes;
    `plain_handler` and `file_response` are a simpler routing and a second
    set of answers;
  - `config`, `client`, `cli`: the server's settings, the client's URL and
    display rules, and the client's command-line grammar.
- `app/` is the program around it: the TCP server loop, the file system, the
  HTTP client transfers and clap's help output. Run as `luizito` it is the
  client, under any other name the server.
- `tests/` runs the library on concrete values.
