# censorless_protocol

The protocol of a censorship-resistant proxy whose traffic goes from a local
SOCKS5 client, through a serverless relay function, to a gateway server that
connects to the target hosts.

`src/` is a Verus-verified library:

- `wire`, `text`, `address`, `compression`, `message`: the byte format of
  addresses, client messages and server responses, with proofs that what is
  serialized deserializes back;
- `crypto`: payload encryption and connection id signatures, through small
  trusted wrappers around the crates. A payload is sealed for the holder of
  an Ed25519 key pair: an ephemeral X25519 key is agreed with the Montgomery
  form of the recipient's public key, and ChaCha20-Poly1305 encrypts under
  the shared secret; the body is the ephemeral public key, the nonce, then
  the ciphertext. What is proved is that the recipient's secret key opens
  it; that nobody else can, the relay included, rests on the security of
  X25519 and ChaCha20-Poly1305, which nothing here proves;
- `nonce`: the sliding replay window, with its replay-protection laws and the
  proof that it behaves as a record of seen nonces;
- `connections`: the open connections of a client on the server, bounded by
  the limit per client key;
- `batch`: the client's per-server queues and nonces;
- `server`, `client`, `lambda`, `session`, `keys`: the decisions of the three
  programs (private targets, connection ids, signed connection ids, request
  framing and the relay's whitelists, what the server does with each item of
  a request, keys from configuration). A request to the relay carries the
  client's public key and its signature over server address, port and
  payload, and the client whitelist admits it only when the key is listed
  and the signature verifies.

`app/` holds the programs themselves (`server`, `client`, `lambda`
subcommands): configuration, sockets, HTTP, timers and logging.
