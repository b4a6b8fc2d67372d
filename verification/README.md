# webproxy

A proxy that lets a web view embed third-party pages. A page under `webproxy://host/path` is
fetched from `https://host/path`. On platforms without custom schemes the address is
`http(s)://webproxy.host/path`.

- Response headers and `<meta http-equiv>` tags that forbid framing are removed.
- Each page gets a small script that reports its real address, its title and its navigation to the
  embedding window, and that sends the page's HTTPS requests through the proxy.
- Responses are cached on disk by the HTTP client.

`src/` is the verified library. It decides what is done about a request, what goes upstream and
what comes back, and it rewrites pages. `src/guarantees.rs` states what holds of every request and
of every response.

`app/` is the Tauri plugin around it: the HTTP client, the cache directory, the scheme handler. The
client speaks TLS through `rustls`. Tauri itself comes with the application that the plugin is
built into.
