//! Marshaling primitives for a native credential binding: wide strings,
//! credential blobs and ownership handles, each with a proved contract.

pub mod features;
pub mod handle;
pub mod utf16;
pub mod utils;
pub mod wide;

pub use features::TransportFeatures;
pub use handle::{into_raw_ptr, reclaim, HandleTable, RawHandle};
pub use utils::{
    c_w_str_to_string, credentials_str_into_bytes, str_encode_utf16, str_to_w_buff, w_str_len,
};
