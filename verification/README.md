# installer

The Firefly Zero app installer: it lists the Wi-Fi access points, asks for
the password, connects to the install server, opens a download session and
installs the ROM that the server streams.

- `src/` is the library, verified with Verus: the stream parser
  (`installer`), the response headers (`headers`), the checks and file system
  work after the download (`finalize`, as a conversation of requests and
  replies), the stats file (`stats`), the screens' decisions (`points`,
  `password`, `connection`), the app state and stored credentials (`state`),
  and the host's Wi-Fi codes (`wifi`). Contracts are stated over plain-value
  models; the laws that span functions are the public `lemma_*` proof
  functions.
- `app/` is the device side: the host calls, the file system, drawing, and
  the frame loop that hands the library what it read and performs what the
  library asks for.
- `tests/` runs the library on concrete inputs.

`app/` also calls `firefly_ui` (input and widgets) and `firefly_sudo` (the
privileged file system calls and app launching). Neither can be built here,
so they are not in `Cargo.toml`, and `app/` does not compile without them.
