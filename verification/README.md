# luks-enroll

A D-Bus system service for LUKS2 volumes: it enrolls FIDO2 tokens, TPMs, recovery
keys and passphrases, removes keyslots, opens and closes volumes, makes encrypted
image files and formats removable media. Its tokens are those of
systemd-cryptenroll.

The decisions are a library that Verus verifies; what only the machine can do is
ordinary Rust around it.

- `src/` is the library. An operation is a function of its arguments and of the
  answers that it has had so far: it gives the next request, or the result
  (`host`). A query about the machine is a function of the facts that are known:
  it gives the next question, or the result (`facts`).
  - `text`, `order`, `table`, `error`: texts, sorting, tables and errors
  - `codec`, `json`: base64, digests, secrets and JSON documents
  - `luks`, `cache`, `volume`: LUKS2 headers, volume keys and volumes
  - `fido2`, `tpm2`, `recovery`: tokens, TPMs and recovery keys
  - `devices`, `format`: block devices, partition tables and image files
  - `auth`, `service`, `settings`, `constants`: authorization and the operations
- `tests/` runs the library against machines that the tests make up.
- `app/` is the service: the bus, libcryptsetup, libblkid, libfido2, the TPM
  software stack, and files.

Functions named `law_...` state what holds of several functions together, or of
every course that an operation can take.
