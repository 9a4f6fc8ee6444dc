# ip_ban

Bans addresses that offend too often, and releases them again.

`src/` is the library. It decides: which addresses a log line holds, which of them are protected,
when an offense leads to a ban, how many bans a minute may see, what is done to ban or release an
address, and what the alerts say. Every function states in its contract what it returns, and
Verus proves it. The proof functions whose names begin with `law_` state what holds over several
functions or calls.

The library reads no file and talks to no service. A decision that needs an answer from outside
is a step (`engine::RecordStep`, `firewall::FirewallStep`, `progress::ActionRun`), and the answer goes to the function
that continues from there. `app/` runs these steps against a store, a firewall and an alert
channel that the host application provides.

| Module | Holds |
| --- | --- |
| `text` | trimming, splitting, searching, decimal numbers |
| `address` | IPv4 addresses and ranges |
| `clock`, `ident` | times and identifiers, by way of `chrono` and `uuid` |
| `config` | the settings and how the environment spells them |
| `extract` | addresses in log lines |
| `budget` | the ceiling on bans per minute |
| `alert`, `action` | what is stored, sent and done |
| `engine`, `release` | the decisions |
| `progress` | a list of actions on the way, any of which may fail |
| `handling` | an offense from its detection to the answer |
| `firewall` | which firewall a change goes to |
