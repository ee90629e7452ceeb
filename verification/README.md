# openfang_memory

Recall of memories from external services, verified with Verus.

`src/` holds the library: which requests are made of a memory service, what its
answers mean, and how a memory is written as a Markdown document and handed over.
Every function carries a contract over the mathematical content of its values, and the
properties that span several functions stand as public proof functions whose names
begin with `law_`.

The library talks to no service and computes with no floating point. From its
surroundings it takes two things, each through a wrapper: the time of the clock and
random identifiers for recalled memories. `app/` sends the requests with `reqwest`,
hands the outcome of each exchange back, and converts between the plain values of the
library and the types that callers use. There a score becomes a confidence between 0
and 1, and a confidence is written with two decimals.

Calls into `serde_json`, `chrono` and `uuid` stand behind small wrappers whose contracts
are trusted; each wrapper says what it claims of the function that it calls.
