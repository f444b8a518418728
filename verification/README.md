# simpleroute

The logic of a Windows static-route tray manager, verified with Verus.

- `src/` — the verified library:
  - `text.rs`: whitespace, trimming, line and token splitting, decimal rendering;
  - `ipv4.rs`: the dotted-decimal address grammar and address classes;
  - `route_manager.rs`: route parameters, the `route add` / `route delete` commands,
    command outcomes, and reading the `route print -4` listing;
  - `routes.rs`: the route list's life cycle (found routes, start-up restore, the
    per-second guard, the user's toggles and deletions, the "add route" form);
  - `traffic.rs`: interface selection, traffic counters and the rate meter;
  - `icon.rs`: decoding the embedded logo PNG files (through the `png` crate);
  - `gui.rs`, `locale.rs`, `config.rs`: texts, languages, and the route types.
- `tests/` — tests of the library on concrete values.
- `app/` — the Windows program around it: window, tray, notifications, the `route`
  process, the interface table, the JSON configuration file, and the embedded logo bytes.
