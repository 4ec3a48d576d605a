# cargo-sandbox

Run Cargo so that every build script and `rustc` compilation it spawns is
sandboxed (macOS `sandbox_init` profiles), and report the sandbox
violations that the build hit.

## Layout

- `src/` — the library, verified with Verus:
  - `kind.rs`: which processes are sandboxed and on behalf of which package;
  - `config.rs`: the configuration and how it resolves for one process;
  - `policy.rs`: the parts of a sandbox profile that depend on the
    configuration and on the process;
  - `env.rs`: the environment handed to a sandboxed process;
  - `interpose.rs`: spawn decisions and `sandbox-exec` arguments;
  - `log_analyzer.rs`, `laws.rs`: reading back and grouping the violations
    that the kernel logs;
  - `cli.rs`: the decisions of the `cargo-sandbox` command;
  - `path.rs`, `text.rs`, `bytes.rs`: Unix paths, strings and bytes.
- `app/` — the command itself, the configuration file reader, the log
  streaming and the interception library (built with
  `--cfg cargo_sandbox_interceptor` on macOS).
- `tests/` — tests of the library.
