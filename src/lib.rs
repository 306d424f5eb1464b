//! A self-modifying block stream cipher over 64-bit words.
//!
//! A message is viewed as big-endian 64-bit blocks. Each block is masked with a
//! keystream word derived from a sliding window of sixteen state words, and the
//! window is then perturbed by powers of the ciphertext block just produced.

pub mod block;
pub mod cipher;
pub mod codec;

pub use block::Block;
pub use cipher::{generate_key, Elegabalus, Key, KEY_SIZE};
pub use codec::{convert, convert_block, pad};
