# macmapd

A DHCPv4 server with static, MAC-based assignments, BIOS/UEFI/iPXE network boot,
classless routes, a client table that is refreshed over HTTP, and Prometheus metrics.

The library under `src/` is written in Verus: what it decides and computes is stated in
contracts and proved. The program under `app/` holds the sockets, the files, the signals
and the log.

| Module | What it holds |
|---|---|
| `text`, `net` | numbers, bytes, characters and IPv4 addresses as text |
| `config` | the configuration, and when it is valid |
| `clients` | the client table and its CSV rows |
| `options` | DHCP options on the wire |
| `dhcp` | a client's message: parsing, boot stage, route mode |
| `reply` | the answer, byte by byte |
| `laws` | what holds of every answer |
| `server` | what becomes of a datagram, and how it is counted |
| `series`, `runtime` | counters, the shared state, health and metrics |
| `sync` | polls of the remote table, step by step |
| `dump`, `messages` | messages and errors in words |
| `cli` | the command line |

Properties that relate several functions are public proof functions whose names begin
with `law_`. They stand beside what they speak of; those on answers are in `laws`.

A few things are believed and not proved: `String::push`, `std::str::from_utf8` and the
text of its error (`text::utf8_fault`), the records that the `csv` crate reads
(`clients::csv_records`), whether `tracing_subscriber` accepts a log filter
(`config::filter_accepted`) and how `reqwest` displays an HTTP status
(`messages::status_line`).

## Choices

- A CSV row has seven fields (`location,hostname,boot_type,mac,ip,prefix_length,gateway`)
  or nine (`location,hostname,domain,boot_type,mtu,mac,ip,prefix_length,gateway`). Without
  a domain or an MTU the answer leaves out options 15 and 26. Lines that begin with `#`
  are comments.
- `reply` answers a machine's firmware whatever mode its row is for; `server::handle`
  lets no answer out where the two differ.
- The octets of a hardware address are two hexadecimal digits each, without a sign.
- `Config::check` refuses a log filter that `tracing_subscriber` could not read without
  a panic; `Config::validate` asks for one that it can read.
- `Scrape::metrics` puts `macmapd_` in front of every metric; the name is an argument of
  `Scrape::render`.
- A bad row of the saved table is reported with its line alone, one of a downloaded table
  with the cause too.
- Times are numbers: nanoseconds since some instant for the expiry of series, seconds of
  Unix time for the synchronization.
