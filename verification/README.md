# encryption_cli

A command line tool that encrypts a file or a directory with AES-256-GCM,
and decrypts it again. The library under `src/` holds its logic, verified
with Verus; `app/` is the program around it.

- `src/flags.rs`: the commands, the flags each command takes, and the flags
  given on a command line, with their checks.
- `src/cli.rs`: reading a command line into what it asks for, and building
  the context of an encryption or a decryption.
- `src/archive.rs`: the archive format that packs a file or a directory tree
  into one byte string, its decoding into the operations that recreate the
  tree, and the proof that decoding the archive of a well-formed tree
  recreates exactly that tree.
- `src/crypto.rs`: the key drawn from a generator seeded with the password,
  and sealing and opening with AES-256-GCM.
- `src/descriptions.rs`: the help texts.
- `src/error.rs`: the errors and their messages.
- `src/test_utils.rs`: random passwords and contents for tests.
- `app/main.rs`: arguments, password input, and the file system.
