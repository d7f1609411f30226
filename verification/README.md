# eddie

The verified core of the Eddie mail client: the logic that decides what the
client does with mail, proved with Verus against contracts stated over
mathematical models (sequences, maps, multisets).

- `src/` — the library. Text utilities (`text`), the rule-based classifier
  (`classifier`), participant keys and conversation identifiers
  (`participants`, `digest`), threading (`union_find`, `threads`),
  conversation summaries (`conversations`), IMAP envelopes, headers and MIME
  structure (`envelope`, `headers`, `mime`), planning of IMAP fetches
  (`batches`), vCard and CardDAV (`vcard`, `vcard_roundtrip`, `carddav`), server discovery
  (`discovery`), folders (`folders`, `mailbox`), device encryption of stored
  passwords (`crypto`), configuration and accounts (`config`, `accounts`),
  sending from the compose view and the message sent over SMTP (`compose`, `smtp`), skills (`skills`) and setup of
  new accounts (`onboarding`). Each law the library keeps is a public proof
  function next to the functions it speaks of (`law_*`).
- `tests/` — tests of the library on concrete values.
- `app/` — a command-line program around the library: configuration files,
  HTTP, DNS, TCP and TLS for discovery, the platform's secret store and the
  machine identifier.
