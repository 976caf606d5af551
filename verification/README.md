# et_services

The decisions, formats and checks behind the edge-toolkit services, written in Verus and proved
against their contracts:

- `modules` and `path_order`: the module server's catalogue (which directories are modules, under
  which names, sorted how) and `Path`'s ordering of the directories to scan.
- `storage`: agent file storage requests (filename checks, object keys, the error each failure is
  answered with) and the image-extension check behind the stored-image preview.
- `tty`: the ANSI half-block thumbnail of a stored image.
- `relay`: the `/websockify` relay's connection start (SOCKS5 handshake, loopback-only CONNECT) and
  bridge decisions.
- `wire`: the split-learning demo's frame format (two base64 layers around a JSON envelope).
- `browser`, `pic_viewer`, `sensing`: the pure parts of the browser modules (hub URL, peer list,
  chat loop, capture announcements, picture viewer loop, NFC and speech summaries, the activity
  recognition window).
- `paths`, `text`: Unix path text and character helpers the rest builds on.

`app/` is the I/O shell: actix-web routes, the WebSocket and TCP sockets, the filesystem probe, stdout
and the agent's command line. It hands plain values to the library and acts on what comes back.
