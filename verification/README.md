# loki-file-access

A frontend-agnostic file picker: platform dialogs hand back a
`FileAccessToken`, a capability that can be stored as text and used later to
re-open the file.

The crate is written in Verus.

- `src/` is the verified library: the options, the errors and their texts,
  the one-shot result slot behind every picker future, the token and its
  stored form (a JSON text of its own, encoded in URL-safe base64, with a
  proof that what is written reads back as the same token), the MIME-type to
  extension table for dialog filters, the zenity command lines and output
  parsing, and each platform's decisions around its dialog (desktop, Android,
  iOS, WASM).
- `app/` is the unverified shell around it: the async pickers, the native
  dialogs (`rfd`, zenity, JNI, the DOM), the filesystem, and `Display` for
  the error types.
- `tests/` runs the library on concrete values.
