# primitive_bench

Verified core of a benchmark of four cryptographic primitives (Keccak-256,
SHA-256, ECDSA over secp256k1, Ed25519) executed inside the SP1 zkVM.

- `src/` is the verified library:
  - `digest`: the hash-chain workloads;
  - `records`: payloads of fixed-size records and their index arithmetic;
  - `ecdsa`, `ed25519`: decoding, verifying and signing through k256 and
    ed25519-dalek (ECDSA messages are 32-byte digests, used as the prehash);
  - `signature`: the batch signature-verification workloads and their record layout;
  - `scenario`: the guest program's dispatch from header and payload to what it commits;
  - `primitive`: the primitives, their report names and header tags;
  - `payload`: the host's deterministic test vectors;
  - `runs`: pinning of cycles and gas across repeated runs, and the median time;
  - `report`: the CSV and Markdown reports;
  - `hardware`: parsing of `/proc/cpuinfo`, `/proc/meminfo` and `sysctl`
    output, and the choice between those sources.
- `tests/` runs the library against the real cryptographic crates.
- `app/` holds the I/O: the host driver (SP1 executor, files, processes) and
  the guest's input/output.
