# k8s_ldap_auth

The decisions of a webhook token authentication server for Kubernetes that
relies on an LDAP directory, written and proved in Verus, and the server around
them.

A token is the base64 text of `user:password`. The server looks the user up in
the directory, binds with the password that was presented, and answers the
`TokenReview` with the attributes of the user's entry.

- `src/` is the library. `request` and `reader` take HTTP requests apart,
  `token` reads and answers token reviews, `ldap` and `search` hold the dialogue
  with the directory, `conns` decides what is answered and logged, `args` and
  `logging` hold the options of the program and the form of its log. `text`,
  `number`, `map` and `error` are what these rest on.
- `app/` is the program: the command line, the sockets, TLS, and the connection
  to the directory.
- `tests/` runs the library.

The functions whose names begin with `law_` state what holds across several
functions.
