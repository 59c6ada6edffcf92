# ctf_arena

A Telegram-driven arena for two-player CTF matches. The library (`src/`) is
verified with Verus: admission of players against a database of SHA-224
credential keys, the bot's replies and state changes, the HTTP endpoints'
replies, and the plans for the Docker images, containers and network. The
program in `app/` does the I/O: Docker, Telegram, the HTTP server, packet
capture, and reading the database and the Dockerfile.

`takecell` is not called by the code: the line in Cargo.toml holds
teloxide's own dependency on it to 0.1.1, as later releases of it need a
newer Rust than 1.95.
