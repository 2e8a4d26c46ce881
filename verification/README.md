# Teeify enclave

The secure compute engine of a Nitro enclave, with its decisions verified.

A client sends a JSON request. The enclave opens the agent code and the secrets in
it (RSA-OAEP, AES-256-GCM, AWS KMS), runs the code in a JavaScript engine with a
secp256k1 wallet of its own, and answers with the output, the wallet's address and
an attestation that binds both the code and the wallet. Agent code reaches the
network through a blind tunnel to the parent instance; TLS runs inside the tunnel.

## Layout

| module | what it holds |
| --- | --- |
| `text`, `encoding` | characters, numbers, hexadecimal, Base64, UTF-8 |
| `keys` | the enclave's RSA key, unwrapping AES keys and agent code |
| `wallet` | wallet keys, Ethereum addresses, EIP-191 signatures |
| `json`, `request`, `reply` | what is read of a request, what a reply says |
| `session`, `session_laws` | one request from beginning to end, and what holds of it |
| `intake`, `settings` | limits on what is read, settings of the environment |
| `weburl`, `http`, `options`, `fetch` | `teeify.fetch`, from its arguments to its result |
| `proxy` | the local `CONNECT` proxy |
| `script` | `teeify.signMessage`, the console, settling promises |

`app/` performs what the library asks for: sockets, the key service, the script
engine, the attestation device.

Functions named `law_...` state what holds across functions.
