# imap-safe-mail

A safety-first mailbox API for agents and applications, verified with
[Verus](https://github.com/verus-lang/verus).

Its public mutation vocabulary is deliberately small:

- `trash(message)` moves a message into a mailbox that carries the `\Trash` role.
- `restore(message, destination)` moves a message back to a normal mailbox.

It intentionally has no `expunge`, permanent-delete, or raw `\Deleted` API.

## Layout

- `src/store.rs`: mailboxes, messages, the `MailStore` trait and an in-memory
  store. No operation loses a message, a refused request changes nothing,
  restoring undoes trashing, and every move is recorded.
- `src/imap.rs`: what to ask an IMAP server and what to make of its answers,
  without the connection: logging in, listing, fetching with `BODY.PEEK[]`, and
  synchronizing with QRESYNC. Listing, finding and fetching messages take `LIST`,
  `SELECT` and peeking `UID FETCH` commands alone; a synchronization also
  negotiates QRESYNC.
- `src/headers.rs`, `src/rdf.rs`: the header fields of a message and its
  projection to N-Triples or N-Quads in the `https://mail.described.at/` and
  `http://schema.org/` vocabularies. `src/rdf_laws.rs` proves what holds of the
  projection as a whole: one statement per line, whatever a message holds.
- `src/sync.rs`: the QRESYNC cursor and SPARQL Update documents. A cursor
  file is replaced by renaming a temporary file beside it.
- `src/cli.rs`: the decisions of the command-line program. Messages are written
  in the order of their UIDs, and a cursor is kept only after an endpoint has
  accepted an update.
- `src/text.rs`, `src/name_map.rs`: texts as sequences of characters, and a map
  that is ordered by name.
- `src/foundation.rs`: the functions of the standard library whose behaviour is
  stated rather than proved.
- `app/`: the command-line program around the library. It owns the TLS
  connection, the files and `curl`. Its ignored test fetches a message from a
  local GreenMail container.
- `tests/`: tests of the library.

## Quick example

```rust
use imap_safe_mail::{InMemoryMailStore, MailboxRole, MailStore, MessageId};

let mut mail = InMemoryMailStore::new();
mail.add_mailbox("INBOX", MailboxRole::Inbox);
mail.add_mailbox("Trash", MailboxRole::Trash);
mail.add_message("INBOX", MessageId::new("42"))?;

mail.trash(&MessageId::new("42"))?;
mail.restore(&MessageId::new("42"), "INBOX")?;
# Ok::<(), imap_safe_mail::MailError>(())
```

## Design constraints

- A message has exactly one current mailbox.
- Trash is a normal mailbox with the special `\Trash` role, not the IMAP
  `\Deleted` flag.
- Restore cannot target a Trash mailbox.
- Moves are recorded as `Trashed` and `Restored` events.
- The public trait has no operation capable of permanent deletion.
