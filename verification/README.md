# tei_manager

Control plane for several text-embedding backends on one host. It starts and
stops backend processes, watches over them, keeps their settings across
restarts, and routes batches of texts to the ones that run.

`src/` is the library. It decides and computes on plain values and is verified
with [Verus](https://github.com/verus-lang/verus): each function states what it
returns in `requires` and `ensures` clauses, and public proof functions named
`law_...` state what holds across functions.

| module | what it decides |
| --- | --- |
| `config` | settings, their overrides and faults, and which instances to create |
| `gpu` | what `nvidia-smi` reports, and whether this image runs on it |
| `instance` | command lines, what logs say, and the states of an instance |
| `health` | what a check makes of an instance, and when it restarts |
| `api` | what each HTTP call answers, and where new instances are placed |
| `auth` | who is let in, by client certificates |
| `grpc::rows` | embedding a batch over backend streams, row by row |
| `grpc::stream` | streams of batches: many at once, answered in order |
| `grpc::arrow_batch` | batches in Arrow's form |
| `grpc::ipc` | where messages lie in a stream, and whether a batch keeps to its own |
| `grpc::noop` | answers made up without asking a backend |
| `grpc::multiplexer` | which instance a request goes to |
| `grpc::pool` | which connections are kept |
| `error`, `metrics`, `bench` | errors over HTTP and gRPC, what is counted, benchmarks |
| `text`, `sorting` | text as sequences of characters |

Calls into other crates stand behind small functions whose contracts are
believed, not proved. Each says in its comment which function it calls and what
is claimed of it.

`app/` is the program around the library: processes, files, sockets and clocks.
`tests/` runs the library with the real crates linked.
