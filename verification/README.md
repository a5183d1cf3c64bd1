# rust_core (OpenCrypt core, verified)

The encryption engine of OpenCrypt: `.ocrypt` files are a 41-byte header
(magic `ORP\0`, version 1, plaintext length, salt, base nonce) followed by
the plaintext in 1 MiB chunks, each sealed with AES-256-GCM under a nonce
made of the first 8 bytes of the base nonce and a big-endian chunk counter.
The key is Argon2id of a password (password mode) or 32 raw bytes given as
unpadded URL-safe base64 (key mode).

Layout:

- `src/` — the library, verified with Verus.
  - `format.rs` — header encoding and parsing, chunk nonces, sealing and
    opening of the chunk stream, whole or one chunk at a time.
  - `crypto.rs` — whole-file encryption, decryption and password check in
    both modes, the start of chunk-by-chunk encryption, key strings, the overwrite schedule of secure deletion.
  - `laws.rs` — properties that relate the operations: encrypted files
    decrypt and pass the password check, key mode ignores the salt, how
    single-byte header changes are caught, and that chunk-by-chunk
    encryption and decryption give what the whole-file operations give.
  - `validate.rs` — the path checks made before an operation.
  - `registry.rs` — the Explorer context-menu entries: what registration
    writes, and unregistration as a state machine whose run over a model of
    the registry is proved to remove exactly the menu.
  - `ffi.rs` — error codes and the C entry points that need no file system.
  - `encoding.rs` — unpadded URL-safe base64, stated in full, with the
    proofs that decoding inverts encoding.
  - `primitives.rs` — the trusted bindings to `aes-gcm`, `argon2`, `base64`,
    `getrandom` and `zeroize`.
  - `error.rs` — the error type.
- `app/` — the DLL around the library: file I/O (files are streamed one
  chunk at a time), the Windows registry (`winreg`) and the `extern "C"`
  exports.
- `tests/` — tests of the library.
