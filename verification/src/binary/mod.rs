use vstd::prelude::*;
use std::collections::HashMap;

pub mod bundler;

verus! {

/// The binary modules of a bundle: bytes that can be written into a
/// JavaScript string as they are, bytes that are written in Base64, and
/// for each module index its place (`true` for the first buffer) and offset.
pub struct BundledModules {
    pub js_safe: Vec<u8>,
    pub base64: Vec<u8>,
    pub offsets: HashMap<u32, (bool, usize)>,
}

} // verus!
