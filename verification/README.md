# sec-grep

Abstract enrichment and command-line logic of a tool that searches computer science research
literature. The library under `src/` is written in Verus: every function states what it returns,
and the verifier proves it.

Finding an abstract alternates between the network and decisions. The library holds the decisions:
a step says what has to be done next, and a function takes what came of it and gives the step that
follows. `app/` performs the steps.

| module | what it holds |
| --- | --- |
| `text`, `number` | characters, words, joining, comparing; decimal and hexadecimal numbers |
| `markup`, `html` | character references and white space; abstracts on publishers' pages |
| `json`, `sources` | JSON documents as plain values; abstracts in the replies of services |
| `literal`, `address`, `location` | address literals, public addresses, pages that may be fetched |
| `http`, `scrape` | retries, limits and reasons; fetching a page over bounded redirects |
| `openreview`, `enrich` | listings of a venue; the order in which sources are asked |
| `search`, `cli` | searches built from a query and the command line; arguments and paths |
| `report`, `run`, `update` | printed lines and counts; an enrichment run; an update |

Laws that span functions are public proof functions in the module they are about. What the
outside crates return is named or stated in the trusted wrappers of `json`, `html`, `location` and
`http`; each says what it claims.
