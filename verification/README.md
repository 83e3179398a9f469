# dnsward

The logic of a DNS server that filters: it reads queries, holds the names in them
against rules, and answers those that are blocked or rewritten.

The library under `src/` is verified with Verus: every function states what it returns
in terms of specification functions on sequences of characters and bytes, and the
modules whose names end in `_laws` state what holds of several functions together.

| module | what it does |
| --- | --- |
| `dns_codec`, `wire` | DNS packets: reading, writing, responses |
| `parser`, `convert` | rule lists of AdGuardHome, Mihomo and plain domains |
| `engine` | custom rules, matching, loading of rulesets |
| `query_log` | the newest queries, and counters |
| `api` | what the web interface shows and switches |

What is taken on trust is marked in the source: letter case, UTF-8 and appending a
character in the standard library, the regular expressions of the `regex` crate, and the
date type of `chrono`.

`app/` holds the command line tool `ars-convert` and the glue of the server: files,
locks, JSON and addresses.
