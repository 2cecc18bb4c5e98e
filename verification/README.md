# evm_contract_exporter

Reads view functions of EVM contracts and shows what they return as Prometheus gauges.

- `src/` is the library: the configuration with its defaults, its validation and its environment
  variables (`config`), the plan of calls and series (`planner`), the bundling of calls
  (`multicall`), the reading of return data (`decoder`), the decisions of a scrape (`exporter`),
  the exporter's own metrics (`metrics`) and the answers of its server (`server`). It is verified
  with Verus: every function states what it returns, and the laws that span functions are public
  proof functions beside them.
- `tests/` runs the library on concrete configurations, interfaces and return data.
- `app/` is the program around it: command line, files, RPC, HTTP, the Prometheus registry, and
  the floating-point arithmetic of the gauges.

Calls of other crates stand behind small functions whose contracts are believed without proof; the
doc comment of each names the outside function and says what is claimed of it. They are in `sol`
(contract interfaces and their encoding), `words` (256-bit numerals, hexadecimal texts, addresses),
`yaml`, `metrics` (descriptions of metrics and the registry that compares them), `exporter` (the
name of a block), `text` and `config::naming` (the standard library's
text functions).
