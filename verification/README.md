# Aether

A small cluster that runs shell commands: a master with a queue, workers with
slots and tags, a client, and a web console. The decisions are a Verus library;
the processes around it are ordinary Rust.

- `src/` holds the library. `security` is the command policy, `cli` and `config`
  settle the arguments, `tags` and `workers` choose who runs a task, `queue` and
  `master` keep the tasks, `runtime` is the worker's side, `dispatch` the
  master's view of a remote execution, `diagnostics` the proof that new workers
  can introduce themselves. `text`, `splitting`, `order` and `sequences` are what
  these are stated with.
- Public proof functions whose names begin with `law_` state what holds of
  several operations together.
- `tests/` runs the library on concrete values.
- `app/` is the program: gRPC, HTTP, processes, files and sensors. It computes
  the workers' scores, which are floating-point numbers, and hands them to the
  library by their bits.

Trusted without proof are the contracts on `uuid::Uuid::new_v4` (in `ids`) and on
`char::is_whitespace`, `str::to_lowercase` and `String::push` (in `text`).
