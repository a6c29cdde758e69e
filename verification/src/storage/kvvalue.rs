//! Values of the store.
use vstd::prelude::*;

verus! {

/// A value: the marshaled bytes of some content. The engine stores and returns
/// them without looking inside.
pub type KVValue = Vec<u8>;

} // verus!
