# subnet_recon

The verified core of a parallel IPv4 subnet scanner (ICMP echo or TCP
connect probes), written in Verus.

`src/` is the library; every function in it is proved against its contract:

- `config` — the settings, their defaults, the checks a configuration file
  must pass (in a fixed order, with the exact error for the first failure),
  and the command-line overrides.
- `net` — IPv4 networks: CIDR parsing (through `ipnet`), network address,
  host ranges and counts, dotted-quad text.
- `scan` — expansion of the subnets into scan targets in sequential,
  globally shuffled or per-subnet round-robin order; every order probes each
  host exactly once.
- `echo` — RFC 1071 checksum, ICMP echo requests (which verify to a zero
  checksum) and reply matching.
- `rate` — a token bucket counted in billionths of a token, with its rate
  bound proved over any run of attempts.
- `results`, `progress`, `text`, `probe` — output rendering, progress texts,
  number and duration formatting, probe outcomes.

`app/` holds the program around it: argument parsing, the TOML file, raw
sockets and TCP connects, DNS, the thread pool and the terminal display.
