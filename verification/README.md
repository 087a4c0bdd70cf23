# Myth Loader

Load generator for Muse development and test networks. It funds accounts, creates
an NFT collection, and lets concurrent senders mint, transfer, trade and burn items
for pairs of users until their funds run out.

The library under `src/` is written in Verus: it decides what is submitted, in which
order and by whom, and its functions are proved against their contracts. What it has
from other crates (hexadecimal text, keys and signatures, hashes, the SCALE encoding,
random numbers, channels, parallel iteration) comes through small wrappers whose
contracts are trusted, not proved; each says above it what is trusted. The program under `app/` is ordinary Rust: it reads the configuration and the clock, talks
to the node and does what the library says.

| Module | Content |
|---|---|
| `config`, `substrate` | settings and identifiers |
| `amounts` | targets, grants and prices |
| `hexadecimal`, `keys` | secret keys, from text and from seeds |
| `calls`, `batch` | calls of the runtime and batches of them |
| `scale`, `trade` | the signed message of an order, orders and trades |
| `setup` | the preparation as a state machine |
| `load` | the load test as a state machine for all senders |
| `channel` | channels on which outcomes are told |
| `monitor` | extrinsics that are waited for, and finalized blocks |

## Usage

* Create a `config.toml` with the fields of `app/config.rs`.
  * `fee_signer_pk` must be the secret key of `marketplace.fee_signer`.
  * `users_count` should be at least twice `senders_count`: users then never run out.
  * `batch_size` must not be zero; 1000 stays within the limits of a block.
* Set the environment variable `CONFIG_PATH` to the path of the file.
* Run the program. `RUST_LOG` sets the level of the log.
