//! Decoder for the "ResBin" game-asset container: header validation,
//! per-region keystream removal, exact-size raw DEFLATE inflation,
//! directory parsing, entry loading and an optional Blowfish layer.

pub mod bytes;
pub mod obfuscation;
pub mod inflate;
pub mod cipher;
pub mod resbin;

pub use crate::bytes::{get_u32_le, read_cstr};
pub use crate::cipher::{decrypt_payload, CipherKey, BLOCK_LEN, KEY_LEN, KEY_OFFSET};
pub use crate::inflate::{check_inflated, decompress, DecompressErr, InflateFault};
pub use crate::obfuscation::decode;
pub use crate::resbin::{DumpJob, Header, LogicalFile, ResBin, ResBinErr, ResEntry, ARC1_TAG};
