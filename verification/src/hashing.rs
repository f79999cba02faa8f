//! Best-effort session keys for connectionless peers.
//!
//! A datagram transport has no accept step, so a peer's identity is
//! synthesized by hashing its network address. The caller renders the
//! address as bytes; the key is the standard hasher's digest of them.

use vstd::prelude::*;
use std::collections::hash_map::DefaultHasher;
use std::hash::Hasher;
use vstd::std_specs::hash::DefaultHasherAdditionalSpecFns;

verus! {

/// The best-effort session key for a peer known only by the rendered
/// bytes of its address: the standard hasher's digest of exactly those
/// bytes. Distinct addresses may collide; a collision is treated as
/// client identity.
pub fn calculate_hash(t: &[u8]) -> (r: u64)
    ensures
        r == DefaultHasher::spec_finish(Seq::<Seq<u8>>::empty().push(t@)),
{
    let mut s = DefaultHasher::new();
    s.write(t);
    s.finish()
}

} // verus!
