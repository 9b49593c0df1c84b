# grep+ (verified core)

`src/` is the verified library, checked with Verus:

| module     | what it decides                                                      |
| ---------- | -------------------------------------------------------------------- |
| `router`   | heuristic and feature routing of a query; router selection          |
| `query`    | quoting, literal, regex and natural-language classification          |
| `grep`     | backend choice, the exact-match channel, `grep` arguments and output |
| `search`   | search options, candidate merging, channel decisions                 |
| `fusion`   | pinning exact-match hits, which lists are fused                       |
| `laser`    | tokenizing, identifier splitting, synonym expansion                  |
| `sketch`   | shingles, FNV hashing, MinHash signatures                             |
| `index`    | manifest, projections, temperatures, JIT reheat planning, 4-bit codes |
| `catalog`  | model catalog, manifests, user overrides                             |
| `models`   | model selection, installs, picker entries and answers                |
| `download` | checksums and hub download names                                      |
| `onnx`     | model input feeding, token rows, output shapes                        |
| `eval`     | harness plans, oracle matching, the agent's path picking             |
| `paths`    | `Path::join` and component-wise `Path::ends_with`                    |

`app/` holds what runs around it: the `grep` process, file and JSON I/O,
and the floating-point scoring (rank fusion, dequantized dot products,
recall and reciprocal rank).
