# smtp-relay

A small SMTP relay that resolves [SimpleLogin](https://simplelogin.io) reverse aliases for outgoing
mail and forwards it to an upstream server. Its rules are written in Verus and verified; the sockets,
TLS and HTTP around them are ordinary Rust.

## Layout

- `src/` is the verified library.
  - `text`, `chars`, `codec`, `map`: searching, splitting and trimming; decimal numbers; Base64, UTF-8
    and letter case; maps from texts to texts.
  - `config`: the configuration from environment variables, and its check.
  - `auth`: AUTH LOGIN and AUTH PLAIN credentials.
  - `session`: the server side of SMTP, one line at a time.
  - `simplelogin_client`: the lookups of reverse aliases, one answer at a time.
  - `quoting`, `mail`, `message`: quoted strings and comments, address headers, and the rewriting of
    a message.
  - `dots`, `upstream`: the transparency rule, and the dialogue with the upstream server.
  - `handler`: a message from acceptance to the reply.
  - `laws`: what holds of the relay as a whole.
- `tests/` runs the library on concrete values.
- `app/` is the program: listener, TLS, HTTP requests, logging and timeouts.

## What it does

1. A client authenticates itself with AUTH LOGIN (on an encrypted connection) or AUTH PLAIN. Any
   other mechanism is answered `504`.
2. For each recipient of a message, the relay looks up the reverse alias that SimpleLogin has for the
   sender's alias and that recipient.
3. `To` and `Cc` name the reverse aliases. Display names stay, written anew: quoted where they hold a
   special character. Addresses without a reverse alias stay. `Bcc` is stripped. Other fields, lines
   that are no part of a field, the empty line and the body keep their bytes, but for the address of
   a single mailbox in `From`, which becomes the upstream's user.
4. The message goes to the upstream server, with the upstream's user as the envelope sender. The
   client gets `250 OK`, or a `451` reply that says what went wrong.

The environment variables are those that `config_of` in `src/config.rs` names, with their defaults.
