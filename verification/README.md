# port_killer

A terminal viewer for listening TCP ports that can kill the process behind
one, with its core logic verified by Verus.

- `src/` is the verified library:
  - `text.rs`: lines, words, decimal numbers and substring search over
    `Seq<char>`;
  - `order.rs`: three-way comparisons and what a stable sort is;
  - `port_info.rs`: severity, exposure and description of a port, the
    `/etc/services` parser, and the memory/percent/age formats;
  - `system.rs`: the `lsof` and `ss` output parsers (one entry per port
    and process, sorted by port);
  - `app.rs`: the application state: filter, sort, selection, the kill
    confirmation, the metric histories, and the key handling;
  - `ui.rs`: screen layout, mouse hit-testing and the texts on screen.
- `app/main.rs` is the program: terminal, keyboard, mouse, clock, running
  `lsof`/`ss`, reading process statistics, sending signals and drawing.
- `tests/` holds the tests.
