# mc_mod_updater

Keeps the Minecraft mods of a client and of servers reachable over SFTP in
step: jars are identified by their SHA-512 (Modrinth) and their Murmur2
fingerprint (CurseForge), newer versions for the configured Minecraft version
and loader are looked up, and the differences between two mod sets are listed
and resolved.

- `src/` is the library, verified with Verus: fingerprints, the decoding of
  service answers, identification, the comparison of mod sets, the plans of
  remote uploads, transfers and deletions, SFTP chunking, the blacklist and
  the application state after each finished job.
- `app/` is the desktop program around it: window, configuration and state
  files next to the executable, HTTP requests, SSH/SFTP sessions.
- `tests/` runs the library on concrete values.
