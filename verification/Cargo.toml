[package]
name = "solana-ml-dsa"
version = "0.1.0"
edition = "2021"
publish = false

[dependencies]
sha3 = "=0.10.9"
solana-account-info = "=3.1.1"
solana-program-entrypoint = "=3.1.1"
solana-program-error = "=3.0.1"
solana-pubkey = "=4.4.0"

[dev-dependencies]
fips204 = "=0.4.6"
pqcrypto-mldsa = "*"
pqcrypto-traits = "*"
