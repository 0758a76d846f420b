# verification-test

Reads zkApp proofs: from base64 text, from the JSON that o1js writes, and from the
account updates of a GraphQL `sendZkapp` mutation.

- `src/` is the verified library.
  - `text`: white space around a text, and base64.
  - `reader`: from text to an S-expression, and on to a proof.
  - `sexp`: S-expressions and the places inside them.
  - `padding`: padding the challenges of a proof to two entries.
  - `dummy`: the empty challenges of a proof of none, and filling them in.
  - `o1js`: the proofs of o1js.
  - `zkapp`: what an executed mutation gives, and its first proof.
  - `error`: the errors and their messages.
- `tests/` runs the library with the crates that it calls.
- `app/` joins the library to JSON, GraphQL, files and the wire types of Mina.

A proof of none holds no entry to copy, so the functions that pad take the entry that
it is padded with. `app/` hands in one of zero challenges, which decodes; it does not
hold the dummy values of Pickles.

An S-expression may hold decimal escapes between quotes. The parser overflows on one
above 255, so the functions that read a proof demand that there is none;
`has_fitting_escapes` tests it.
