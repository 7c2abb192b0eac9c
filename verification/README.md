# libax

Verified core of a small unikernel's user library.

- `src/fd_table.rs` — the descriptor table (over `flatten_objects`): lookup,
  lowest-free allocation, close, `dup`, `dup3`, `fcntl`, and the checks in
  front of `read`/`write`/`fstat`.
- `src/select.rs` — `fd_set` bit operations and the rounds of `select`.
- `src/dir.rs` — directory entries, their full paths, and the directory
  iterator's state machine (`.` and `..` are never yielded).
- `src/udp.rs` — UDP socket state and the single attempts on a `smoltcp`
  socket, with how the stack's errors are reported.
- `src/http.rs` — the request of the simple HTTP client.

`app/` holds what runs around it: the C entry points over raw pointers, the
global descriptor table and socket set, the retry loops, directory reading
on the host file system, and the HTTP client program.
