# secure_lightclaw

The verified core of Secure LightClaw, a small assistant framework that is
deny-by-default: tools, memory writes and plugins pass a permission policy,
and what the agent does is recorded in an audit log.

`src/` is written in Verus and verified by it. A few small functions there
are trusted rather than proved: thin wrappers around standard-library
calls (the clock, `String::push`, `{:?}` formatting, string hashing),
each with a doc comment that says what its contract claims. `app/` is the
command-line program around the library: sockets, files, the environment
and the OpenAI connection.

## Layout

- `text`, `numfmt`: character-level text operations (`split`, `lines`,
  `trim`, `split_whitespace`, ...) and integer rendering/parsing, each with
  its mathematical definition.
- `policy`, `plugins`, `sandbox`, `audit`: permissions, vetted plugin
  registry, the default tool sandbox, the audit log.
- `memory`: key/value store and its XOR-enciphered line format, with the
  proof that saving and loading give the same map.
- `scheduler`: tick-driven repeating tasks, with the proof that a task
  comes due exactly at the multiples of its interval.
- `providers`, `agent`, `channels`: provider fallback routing and the agent
  that ties everything together.
- `config`, `http`, `net`, `web`, `telegram`, `registry`, `benchmark`:
  configuration checks, HTTP text, the web page router, the Telegram Bot API
  adapter, signed plugin publication, the start-up benchmark.
- `lc_core`, `lc_provider`, `lc_sandbox`, `lc_scheduler`, `toml_config`,
  `adapters::telegram`: the command-line program's core, its providers,
  manifest gate, cron tasks and `key = value` configuration.
