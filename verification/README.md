# firm_mesh

The data behind the firm service, verified with Verus.

- `src/df.rs` — the organisation mesh: links between users, positions, areas,
  sites, units, jobs and employees, read from the tab-separated mesh file,
  kept sorted without duplicates; position look-ups and the mesh of a user.
- `src/tx.rs` — the text catalogue read from the organisation file.
- `src/ad.rs` — the user directory: sorted by user number, look-up, search by
  common name, and the evaluation file.
- `src/oldap.rs` — log-in: the local account, and the claims after a bind to
  the directory server.
- `src/server.rs` — the service's replies and event numbering.
- `src/client.rs` — how the client reads link and kind numbers.
- `src/firm.rs` — the reply and request messages.
- `src/chars.rs`, `src/decimal.rs`, `src/codes.rs`, `src/sorting.rs` — character
  sequences, decimal numbers, name numbering and link ordering.

`app/main.rs` reads the data files (YAML through `serde_yaml`), binds to the
directory server through `openldap`, reads passwords with `rpassword`, and
prints the replies of requests given on the command line.
