# jcode_pricing

What a model call costs, and the config behind it.

`src/` is a verified library. Its functions carry contracts that Verus proves:

- `[pricing]`: the section's validation (`pricing_config`, `pricing_sources`,
  `pricing_section`) and the view of it that is in force (`pricing_memo`).
- Prices: entries, tariffs, schedules and long-context tiers (`entry`, `rules`),
  the models.dev catalog (`catalog`), price sheets and vendor files
  (`source_registry`, `vendor_files`, `file_cache`), the layers that they form
  (`price_layers`, `call_rates`) and the estimates of routes (`route_pricing`).
- Money: currencies and exchange rates (`currency`, `fx`), how amounts are shown
  (`money_display`, `spend_summary`) and what was spent (`provider_activity`).
- The config file: settings, trust decisions, one-time migrations and the save
  that keeps comments (`config_file`, `config_auth`, `migrations`, `removals`,
  `toml_merge`).

A price is kept as the bits of a binary64 number and as the factors of a product
(`rate`). The arithmetic on such numbers is the caller's: the library says which
factors, terms and quotients are asked for.

`app/` is ordinary Rust around the library: files, clocks, the network, and the
arithmetic on floating-point numbers.

`tests/` runs the library on concrete values.
