# mywifistats

Live dashboard for the WiFi link of a Linux machine, the devices of its local network and,
optionally, the clients of a ZTE F670L router. The library holds the parsers, the rules and the
router session, verified with Verus; the program around it reads files, runs commands, talks HTTP
and draws on the terminal.

```bash
mywifistats setup    # interface and router password
mywifistats          # live dashboard
mywifistats --once   # tables
mywifistats --json   # machine-readable snapshot
mywifistats doctor   # diagnosis
```

The settings are kept in `~/.config/mywifistats/config.toml` (mode `0600`). The environment may
override them: `MYWIFISTATS_INTERFACE`, `MYWIFISTATS_ROUTER_URL`, `MYWIFISTATS_ROUTER_USER`,
`MYWIFISTATS_ROUTER_ENABLED`, `MYWIFISTATS_ROUTER_PASSWORD`.

## Layout

| Place | What it holds |
|-------|---------------|
| `src/text.rs`, `number.rs`, `addr.rs`, `textmap.rs`, `binary64.rs` | texts, numbers, addresses, maps, and the rounding of binary fractions |
| `src/model.rs`, `oui.rs`, `rate.rs` | devices and snapshots, vendors, rates |
| `src/wifi.rs`, `lan.rs` | what `iw` and `ip` print |
| `src/router/` | the router session: its protocol, pages, block list, digests and checks |
| `src/config.rs`, `cli.rs` | settings and command line |
| `src/merge.rs`, `sort.rs`, `collect.rs` | one list of devices, its order, and the snapshot |
| `src/view.rs`, `keys.rs`, `report.rs`, `dashboard.rs`, `setup.rs` | what is printed and drawn, and what the keys do |
| `app/` | the program |
| `tests/` | tests of the library |

Functions named `law_…` state what holds of the library as a whole. What is taken on trust of the
standard library and of other crates stands in the contracts of the items marked
`external_body` and `assume_specification`, each with a comment that says what it claims.
