# wodo-interop

Converts a **Jira** project or a **Linear** team into a `wodo-space-export-v2` archive, the
ZIP format that the Wodo import wizard accepts, and builds the Yjs documents of a space from
such an export or from a template. The library is written in Verus: what each function returns
or changes is stated in its contract, and the contracts are proved.

## Layout

- `src/text.rs`, `src/str_map.rs`, `src/order.rs`, `src/json.rs`, `src/codec.rs`,
  `src/calendar.rs`: text, maps from strings, stable orders, JSON values, UUIDs and Base64,
  dates.
- `src/ydoc.rs`, `src/rich_text.rs`, `src/yrs_xml_copy.rs`: what Yjs documents hold, as trees,
  and the calls into `yrs`; deep copies of rich text.
- `src/update_scan.rs`, `src/update_levels.rs`: whether bytes are a Yjs update that can be
  applied. Nothing else is handed to `yrs`.
- `src/markdown/`: Markdown to rich text.
- `src/filter_token.rs`: the tokens of saved-view filters.
- `src/template/`: templates and the spaces made from them.
- `src/export/`: the export types and the archive.
- `src/import/`: spaces made from exports (`space.rs` and what it uses), the converters
  (`convert/linear`, `convert/jira`, `convert/adf.rs`), when two exports say the same
  (`convert/same.rs`), and what the fetchers decide (`fetch.rs`, `linear_fetch.rs`,
  `jira_fetch.rs`).
- `app/`: the `wodo-import` command: flags, credentials, HTTP, and JSON in and out.
- `tests/`: tests of the library.

Laws that relate several functions are public proof functions. Those of the converters stand
in `laws.rs` beside each of them; the others stand with the functions they speak of.

## What is trusted

The bodies of the functions marked `external_body` call `yrs`, `uuid`, `base64`, `chrono`,
`zip` or `std`. Their doc comments name the function that is called and say what is claimed of
it. They stand in `ydoc.rs`, `codec.rs`, `calendar.rs`, `text.rs`, `export/package.rs` and
`import/linear_fetch.rs`.

Floating-point numbers do not enter the library. Estimates, story points, workflow positions
and query costs are turned into integers and texts by `app/`.
