//! The names that the cache looks for and creates.
use vstd::prelude::*;
use vstd::utf8::encode_utf8;

verus! {

/// The name of the cache directory under a discovered root.
pub const CACHE_DIR_NAME: &'static str = ".cache";

/// The name of the file that marks the root of a crate.
pub const CARGO_TOML_FILE_NAME: &'static str = "Cargo.toml";

/// The bytes of `CACHE_DIR_NAME`.
pub open spec fn cache_dir_name() -> Seq<u8> {
    encode_utf8(CACHE_DIR_NAME@)
}

/// The bytes of `CARGO_TOML_FILE_NAME`.
pub open spec fn cargo_toml_file_name() -> Seq<u8> {
    encode_utf8(CARGO_TOML_FILE_NAME@)
}

}
