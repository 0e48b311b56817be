use vstd::prelude::*;

pub mod hexcode;
pub mod textmap;
pub mod keyed;
pub mod bytes;
pub mod chunked;
pub mod kv;
pub mod persist;
pub mod docmeta;
pub mod dirstore;
pub mod dircache;
pub mod split;
pub mod inmemory;
pub mod mirror;
pub mod laws;
pub mod ready;
pub mod runtime;
pub mod transport;
pub mod transport_native;
pub mod websocket;

verus! {

} // verus!
