# smtp2cf

A small SMTP submission relay that accepts authenticated mail, spools it on disk and forwards it to
the Cloudflare Email Service.

- `src/` holds the relay's rules, verified with Verus: the configuration and its checks
  (`config`), what clients and messages are accepted (`smtp_server`), the spool and its retries
  (`queue`), what is forwarded of a raw message (`mime`), the request that is sent and what a reply
  means (`cloudflare`), TLS material (`tls`) and when the process restarts for new certificates
  (`reload`). `text` has what they share.
- `app/` is the service around them: files, environment, network and listeners.
- `tests/` runs the library on concrete values.

The public proof functions whose names start with `law_` state what holds of the library as a whole:
for instance that a message leaves the spool only when it has been delivered, that retrying comes to
an end, and that no stripped header is forwarded.
