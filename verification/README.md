# apix

`apix` browses, searches and calls API endpoint documentation kept as
markdown vaults, and imports such vaults from OpenAPI documents.

- `src/` is the library, written in Verus: route and namespace resolution,
  the registry index and its search, vault generation from an OpenAPI model,
  request building, listings and the command decisions, each with its
  contract, and the properties that relate them as proof functions named
  `law_*`.
- `app/` is the `apix` command: argument parsing, files, git, HTTP, and the
  terminal; it hands the library plain values.
- `tests/` runs the library on concrete values.
