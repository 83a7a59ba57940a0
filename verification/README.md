# rostra_client_db

The local database of a Rostra client: signed events and their payloads, what
they make of follows, profiles and posts, and which payloads are kept.

Every operation works on the open tables of one write transaction (`Tables`).
Its contract says what the tables hold afterwards, as a function of what they
held before (`DbState`). An operation fails only for the reasons that its
contract gives, or because a row could not be read or written; the transaction
is to be dropped in either case.

- `storage`, `bytes`, `words`, `table`, `tables`: rows of bytes, and typed rows.
- `ids`, `event`, `payload`, `retention`, `limits`: the values.
- `insert_event`, `graph`, `content`, `usage`: the event graph, payload states,
  references and usage.
- `lifecycle`, `process_event`, `process_content`, `projection`, `lineage`,
  `follow`, `latest`, `reception`: what events and payloads bring about.
- `timeline`, `social`, `merging`, `paging`, `personas`, `wot`, `account`:
  reading it back.
- `retention_index`, `quota_pruning`: candidates for giving up, and giving up.
- `soundness` and the modules named `*_laws`: what holds of all of these
  together.

Work that belongs to other parts of a client, and notices to send once a
transaction is committed, are returned as a list of `Action`s. `app` holds the
database file, the clock, the tasks and the channels around the library.
