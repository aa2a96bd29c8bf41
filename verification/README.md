# gftools

The core of the Google Fonts push tooling, verified with Verus.

- `src/` is the library. `push::items` holds the records a push publishes (families,
  family metadata, designers, axes) and the rules that build them from font files,
  METADATA.pb fields, HTML and JSON. `push::servers` holds a server's state and the
  decisions that keep it current: reading version manifests, storing axes, designers
  and metadata, deciding which families to update, the metadata cache, and the server
  settings of the configuration file, read from the texts that the servers and the
  configuration file give. `text`, `html`, `json` and `strmap` are the string
  operations, the visible text of HTML, the JSON model (parsed with `serde_json` and
  `toml`, written back by `serde_json`) and the string-keyed map they rest on.
- `app/` does the I/O around it: reading files, HTTP requests, the serde forms of the
  records, and the loops that drive the servers' updates; it hands the library the
  texts it fetched and read.
- `tests/` exercises the library on concrete values.

Reading METADATA.pb files needs protobuf types generated from the Google Fonts `.proto`
schemas; the library takes the fields it needs (`FamilyProto`, `DesignerInfoProto`)
already read.
