# CogniDNS

The logic of a DNS server, verified with [Verus](https://github.com/verus-lang/verus), and the
programs around it.

`src/` is the verified library:

| module | what it is about |
| --- | --- |
| `codec` | packets: names, records, EDNS, queries, answers, referrals, rewriting, times to live |
| `dnssec` | signatures, trust anchors, the chain of keys, proofs that a name does not exist |
| `cache` | the response cache, its shares of the capacity, dumps of it |
| `config` | the settings, their rules, the files that they name, settings in the wrong place |
| `admin` | changes of the configuration over the administration interface |
| `ingress`, `exchange` | the course of a query over UDP, TCP, TLS and HTTP |
| `tls` | certificates and private keys in PEM files |
| `health`, `probe` | checks of addresses, and reports of their failure |
| `control`, `ctl_cli`, `ctl_config` | the control protocol and the control client |
| `bench` | the load generator and the servers that it is run against |
| `text`, `ip`, `decimal`, `toml_doc`, `json_doc` | texts, addresses, numbers and documents |

Text is modelled by sequences of characters, packets by sequences of bytes, times by numbers of
milliseconds or seconds that the caller hands in. Calls into other crates stand behind small
functions marked `external_body`; their comments say what is taken for granted.

`tests/` runs the library on examples. `app/` holds sockets, files, clocks, the keys that
the benchmark signs with, and `main`.
