# usbip-tools

Tools around USB/IP: a server with web management, persistent rules and
automatic binding of devices that are plugged in, and a client, on the console
or in a window, that finds servers in the local network and attaches their
devices.

- `src/` is the library. What is decided or computed is here, with contracts
  that Verus proves; only the address that is entered by hand is read outside,
  by the parser of std.
  - `text`, `number`, `net`, `text_set`: text, numerals, addresses and sets of
    strings.
  - `failure`, `process`, `protocol`: why something did not work, what comes of
    running a command, and the request by which servers are found.
  - `client`: reading `usbip list -r`, attaching devices in one privileged run,
    finding servers, the console, and the state and panels of the window.
  - `server`: rules and their file, the devices that they bind, udev events, the
    web interface, and the answers to clients that look for servers.
- `tests/` holds tests on concrete values.
- `app/` is the rest of both programs: processes, sockets, files, udev, the web
  server and the window. Invoked as `usbip-server`, or with `server` as its
  first argument, the program is the server; otherwise it is the client.

What is taken on trust from outside is marked `external_body` or
`assume_specification` and says so in its comment: decoding of bytes that need
not be UTF-8, random identifiers, the type of a file by its extension, and what
may stand in an HTTP header.
