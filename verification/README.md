# Ollama Shepherd

A terminal monitor for the usage of Ollama Cloud API keys: one table with every key and every usage
window, a view of one key with gauges, charts of the requests by model, and a self-update.

The library in `src/` holds the rules of the monitor. Every function in it has a contract that Verus
proves; what comes from other crates is stated where it is called.

| module    | what it holds                                                                 |
|-----------|-------------------------------------------------------------------------------|
| `app`     | the state of the monitor and what keys, pastes, answers and the clock do to it |
| `ollama`  | the request for the usage of a key, and what the answer says                   |
| `summary` | windows and models of several keys together                                    |
| `store`   | the stored list of keys                                                        |
| `view`    | what is on the screen, with `style`, `label`, `table`, `chart` and `layout`    |
| `update`  | the self-update, step by step, with `release` for releases and versions        |
| `cli`     | what the arguments ask for                                                     |
| `json`    | JSON documents as trees of plain values                                        |
| `net`     | requests to be sent and the bodies of responses                                |
| `order`   | stable sorting                                                                 |
| `text`    | characters, words and numbers                                                  |

The usage of a window is a floating-point number. The library passes it on as the bit pattern that was
reported; `app/usage.rs` makes a share of it.

The program in `app/` does the rest: it sends the requests, reads and writes the file of the keys, draws
the screen and carries out the steps of an update.
