# mget

A downloader for model and dataset repositories at Hugging Face, its mirror and
ModelScope. It probes the sources and chooses a fast one, resumes interrupted downloads,
fetches large files in chunks, checks what it has fetched and links it to where other
tools look for it.

The library under `src/` holds the rules of the program, verified with Verus: what to fetch,
from where, to where and how. The program under `app/` reads the command line, talks to the
network, the disk and the terminal, and runs the loops and tasks around the library.

| Module | What it decides |
| --- | --- |
| `cli`, `config` | what the command line, the environment and the configuration file ask for |
| `routing`, `mapping` | which source is used, and which repository at ModelScope |
| `source` | the addresses and headers of requests, and the reading of listings |
| `cache`, `paths`, `names`, `reach` | where files go, and which paths are refused, on Unix and on Windows |
| `download::session`, `filter`, `glob`, `plan`, `preflight` | which files are fetched, to where, and whether there is room |
| `download::steps`, `stream`, `range`, `chunks`, `content_range`, `retry` | how one file is fetched and resumed |
| `download::verify`, `checksum` | whether a file is intact |
| `download::display`, `progress`, `error` | what is shown |
| `text`, `number`, `encoding`, `status` | texts, numbers, encodings and status codes |

Calls into other crates (`globset`, `hex`, `md-5`, `reqwest`, `sha2`, `urlencoding`) stand
behind small functions whose contracts are stated beside them and taken on trust.
