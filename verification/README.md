# localsend_cli

A command-line LocalSend client (HTTP only), split in two:

- `src/` is the verified library: the protocol's messages (`protocol`,
  `message`), an insertion-ordered string map (`string_map`), discovery of
  devices (`device`), the receiving side (`receive`: routing, acceptance,
  upload resolution, the file table), the sending side (`send`: choosing a
  device, the offer, upload requests), the reader of HTTP responses (`http`),
  the size display (`convert_unit`) and the character-level text handling
  they share (`text`).
- `app/` is the program around it: arguments, sockets, the HTTP server, files,
  JSON, prompts, tables and progress bars.
