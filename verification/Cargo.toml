[package]
name = "teeify_enclave"
version = "1.0.0"
edition = "2021"
publish = false

[dependencies]
aes-gcm = "0.10"
aws-config = { version = "1", default-features = false, features = ["rt-tokio"] }
aws-credential-types = "1"
aws-nitro-enclaves-nsm-api = "0.4"
aws-sdk-kms = { version = "1", default-features = false, features = ["rt-tokio"] }
aws-smithy-http-client = { version = "1", features = ["rustls-aws-lc"] }
base64 = "0.22"
boa_engine = { version = "0.21", default-features = false }
hex = "0.4"
k256 = "0.13"
libc = "0.2"
nix = "0.23"
rand_core = { version = "0.6", features = ["getrandom"] }
rsa = "0.9"
rustls = "0.23"
rustls-pki-types = "1"
serde_bytes = "0.11"
serde_json = "1"
sha2 = "0.10"
sha3 = "0.10"
tokio = { version = "1", features = ["full"] }
tokio-rustls = "0.26"
tokio-vsock = "0.3"
url = "2"
webpki-roots = "0.26"
