# socks5

A SOCKS5 client: connections through a proxy, listeners at a proxy, and datagrams relayed by one.

`src/` is the protocol, written in Verus. It decides what to send, how many bytes to receive, and
what to make of them; every function carries a contract, and the laws that tie reading and writing
together are proved as `law_*` functions.

| module      | what it holds                                                          |
|-------------|------------------------------------------------------------------------|
| `addr`      | addresses of hosts                                                     |
| `error`     | errors, their classes and their texts                                  |
| `bytes`     | integers in network order, by way of `byteorder`, and text in UTF-8    |
| `wire`      | reading and writing addresses                                          |
| `reply`     | reading replies                                                        |
| `handshake` | the exchange that opens a connection, as a state machine               |
| `stream`    | `Socks5Stream` and `Socks5Listener`                                    |
| `datagram`  | `Socks5Datagram`                                                       |

The clients are generic in their sockets. `app/` fills in those of the operating system, moves the
bytes, and turns errors into `std::io::Error`.
