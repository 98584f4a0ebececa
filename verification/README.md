# fake-email-server

A fake SMTP catcher for development, with a web inbox. No auth, no TLS, and the
inbox lives in memory: a restart wipes it. Never expose it publicly.

```text
:1025 (SMTP_PORT)   mail intake (EHLO/MAIL/RCPT/DATA/RSET/NOOP/QUIT)
:8080 (PORT)        GET /api/messages, GET /healthz, GET / (web UI)
```

The rules of the server are a library whose behaviour is stated in contracts and
proved with Verus.

- `src/smtp.rs`: the dialogue with one client, line by line
- `src/message.rs`: what comes after `DATA`, split into subject and body
- `src/inbox.rs`: the bounded inbox
- `src/search.rs`: newest first, and the search
- `src/html.rs`: the fragments of the web page
- `src/settings.rs`: where the server listens
- `src/text.rs`: text as sequences of characters
- `src/outside.rs`: what is taken on trust of std, `chrono` and `uuid`
- `src/laws/`: what holds of the library as a whole
- `app/`: the server around the library: sockets, HTTP, JSON, logging

The page loads `htmx.min.js`, which the server reads, once, from the directory it
is started in; it does not start without it.
