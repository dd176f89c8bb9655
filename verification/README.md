# guardit

An application firewall for Linux on nftables: IP/port rules rendered into the
kernel ruleset, per-application verdicts decided on queued packets, domain
blocklists applied to DNS (a blocked query is answered from the machine
itself) and at the connection, and an auto mode that decides unruled
connections from evidence.

## Layout

- `src/` — the library, verified with Verus: rule matching and the config
  model (`config`), the nft ruleset text (`ruleset`), packet and DNS parsing
  (`packet`, `dns`), the NXDOMAIN answers and rewrites with their checksums
  (`reply`), the blocklists, their catalogue and per-category choices
  (`blocklist`, `catalogue`, `key_order`), auto mode (`auto`), the daemon's
  decisions and state (`tap`, `state`, `blocked`, `procnet`, `sandbox`,
  `names`), the CLI's edits (`cli`, `address`), and the dashboard's logic
  (`tui`, `panes`, `keys`).
- `app/` — the program around it: the command line, the daemon's queues,
  sockets and files, the list downloads and the terminal drawing.
- `tests/` — tests of the library's public functions.

Each public function of `src/` states what it returns in its `ensures`; the
laws that relate several functions are public proof functions beside them.
