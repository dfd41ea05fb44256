# shadow_dns

The DNS registry of a network simulator: simulated hosts register names and
IP addresses, the registry answers lookups in both directions, and it renders
an `/etc/hosts`-style file for the simulated processes.

The library under `src/` is written in Verus and proved against its contracts:

- `addr` — IPv4/IPv6 addresses, their classification and their order;
- `text` — the textual form of addresses;
- `names` — how host names are compared;
- `model` — the abstract registry, the refusal rules, lookups and the hosts file;
- `dns` — the builder (`DnsBuilder`) and the finished registry (`Dns`);
- `laws` — properties that span several operations;
- `device` — the packet-device trait;
- `probe` — the computing parts of the IPv6 socket test program.

`app/` holds what the library leaves to the operating system: the memory file
that holds the hosts file, and the IPv6 socket test program.
