# crust

A Minecraft proxy server, with its protocol logic written in Verus and
proved against its contracts.

- `src/` is the verified library: VarInts, strings and the other wire
  encodings (`util`), the HAProxy PROXY protocol (`haproxy`) and the text
  form of addresses and ports it carries (`inet`), chat
  components and their JSON form (`chat`), NBT, the packets and their ids
  per protocol version, Brigadier command trees, compression and
  encryption of frames, the login, status, server-switch and client-write state machines,
  the connection throttle and packet limiter, the server list, permissions
  and the built-in commands (`server`).
- Calls into outside crates (zlib, AES/CFB-8, RSA, SHA-1, MD5, UUIDs,
  CESU-8, URL encoding) go through small trusted wrappers whose contracts
  name what the crate computes; the logic around them is verified.
- Laws (round trips of the encodings, the behaviour of the server list as
  a map, and others) stand as public proof functions named `law_*`.
- `app/` is the program around the library: configuration, sockets, the
  async runtime, key generation, the server icon and the session server.
- `tests/` runs the library on concrete values.
