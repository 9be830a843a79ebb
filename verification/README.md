# GlacialCast

A publisher captures a screen, encodes it and seals every frame under a key that rotates
with groups of frames. A relay stores the sealed objects and forwards them, with one wrapped
key per viewer and group, and cannot open any of them. A publisher decides by hand, by
policy or by a trusted authority who may watch, and takes access away for good.

`src/` is the library: what publisher and relay decide and compute, with contracts that
Verus proves.

| Modules | What they hold |
| --- | --- |
| `records`, `ids`, `bytes`, `text`, `time`, `digest`, `order` | records, identifiers, text, spans of time, digests, stable sorting |
| `store_model`, `store`, `store_lemmas`, `store_laws` | the relay's store of sealed groups: admission, limits, retention, listing |
| `pairing_model`, `pairing`, `pairing_laws` | the relay's bounded queue of pairing records |
| `access`, `service`, `service_laws`, `subscription` | admission, publisher and viewer sessions, replay and live delivery |
| `runtime`, `files`, `pki` | settings, what files must be like, validity periods |
| `admin_model`, `admin`, `admin_laws`, `listing` | who may watch: requests, decisions, revocations, outboxes |
| `publication`, `key_history` | publishing under rotating keys, keys that are kept for history |
| `dash`, `resend`, `cadence` | segmented media: numbering, acknowledgements, when frames are sent |
| `capture`, `formats`, `pixels`, `cursor_meta`, `cursor`, `meter`, `test_pattern` | captured buffers: formats, pictures, cursors, damage, rates |
| `portal`, `startup`, `identity`, `client`, `failure_laws` | desktop sessions, options, identity and keys, reconnecting and what is not retried |

The files whose names end in `_laws` state what holds across functions, for every state and
every order of events; other modules state such laws next to the functions they are about.

What is not proved is declared where it is used: the digest of `sha2`, the random numbers of
`rand` and `uuid`, the resampling of `image`, and a few functions of the standard library on
characters, strings and durations.

`tests/` runs the library on concrete values. `app/` is the program around it: command line,
files, sockets, database, desktop sessions, encoder process and clock.
