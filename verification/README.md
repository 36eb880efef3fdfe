# dht_tools

A library for two programs that talk to a node of a Chord distributed hash table: an interactive
client, and a benchmark that measures a node and draws graphs. What the programs compute and decide
is in `src/`, written and proved in Verus; sockets, the terminal, clocks, random draws and drawing
are in `app/`.

| Module     | Contents                                                             |
|------------|----------------------------------------------------------------------|
| `text`     | comparing text, splitting a line into words                          |
| `decimal`  | decimal numerals, with and without leading zeros                     |
| `digest`   | the hash of a key                                                    |
| `wire`     | requests to a node and its answers, byte by byte                     |
| `client`   | where the node is, and what the client sends to it                   |
| `command`  | the command line of the client                                       |
| `config`   | the settings of the benchmark and its arguments                      |
| `workload` | the operations of a benchmark: keys, values, requests                |
| `stats`    | outcomes, latencies, percentiles, throughput                         |
| `chart`    | histograms, bars, and which graphs are drawn where                   |

Proof functions whose names start with `law_` state what holds of the library as a whole.

Three things are believed without proof: that the SHA-256 hash of `sha2` is a function of the
message, that `String::from_utf8` decodes exactly the valid UTF-8 and says where other bytes stop
being valid, and that `str::to_uppercase` is a function of the text that treats ASCII letters as one
expects.
