# rsrun

A small OCI container runtime. The decisions it takes are a library verified with Verus; the
system calls around them are a thin program.

## Layout

- `src/`: the verified library. It reads bundles, compiles them, lays out what a command does
  step by step, and says what follows each outcome. It makes no system call.
- `app/`: the program. It parses the command line, performs the steps that the library lays out,
  and hands the outcomes back.
- `tests/`: the library on concrete values.

## The library

| modules | what they hold |
| --- | --- |
| `error`, `text`, `bytes`, `order`, `path`, `json` | errors, characters, paths and JSON documents |
| `spec`, `plan` | a bundle, and the plan it compiles to |
| `ext`, `seccomp`, `devices`, `cgroup`, `hooks` | the filters, limits and hooks of a plan |
| `syscall_table_x86_64`, `syscall_table_aarch64` | the numbers of the system calls |
| `create`, `clone`, `bpf`, `child`, `child_calls` | making a container, on both sides of the clone |
| `hook_run`, `deadline`, `signal`, `steps` | running hooks, time limits, signals, lists of steps |
| `state`, `lifecycle`, `stats` | a container's state, and the commands on it |
| `exec`, `agent` | running a process in a container, with or without capturing its output |
| `overlay`, `diff`, `markers`, `snapshot`, `tree`, `rollout`, `tar` | layered root filesystems |
| `options`, `args`, `validate`, `report`, `reexec`, `unsupported` | the command line and its answers |

Contracts speak of views: text is a `Seq<char>`, a JSON document a `JsonView`, a list of steps a
`Seq` of operations. Properties that span functions are the public proof functions named `law_..`.

What the library takes from outside crates and from `std` stands behind contracts that are not proved here:
`serde_json` for reading and writing JSON, `nix` for the numbers of signals, `libc` for device
numbers and wait statuses. So do three functions of `std`: `String::push`, `std::str::from_utf8` and
`String::from_utf8_lossy`. Each such item says in its comment what is claimed of the call.
