//! What the gossip agent decides on its own: the identity of a message, the
//! recognition of attack reports, and the address read from a peer's
//! multiaddress.
use vstd::prelude::*;
use vstd::std_specs::hash::DefaultHasherAdditionalSpecFns;
use std::collections::hash_map::DefaultHasher;
use std::hash::Hasher;
use crate::blacklist::PrefixKey;

verus! {

/// The bytes that open an attack report: `ATTACK`.
pub open spec fn attack_marker() -> Seq<u8> {
    seq![0x41u8, 0x54u8, 0x54u8, 0x41u8, 0x43u8, 0x4bu8]
}

/// The payload opens with the attack marker.
pub open spec fn is_attack(data: Seq<u8>) -> bool {
    data.len() >= 6 && data.subrange(0, 6) == attack_marker()
}

/// The identity of a message: the default hasher's digest of its body, so
/// that equal bodies share one identity whoever sent them.
pub open spec fn message_identity(body: Seq<u8>) -> u64 {
    DefaultHasher::spec_finish(seq![body])
}

/// Whether a gossip payload is an attack report.
pub fn is_attack_report(data: &[u8]) -> (r: bool)
    ensures
        r == is_attack(data@),
{
    let marker: [u8; 6] = [0x41, 0x54, 0x54, 0x41, 0x43, 0x4b];
    if data.len() < 6 {
        return false;
    }
    let mut i: usize = 0;
    while i < 6
        invariant
            data@.len() >= 6,
            i <= 6,
            marker@ == attack_marker(),
            forall|j: int| 0 <= j < i ==> data@[j] == attack_marker()[j],
        decreases 6 - i,
    {
        if data[i] != marker[i] {
            assert(data@.subrange(0, 6)[i as int] != attack_marker()[i as int]);
            return false;
        }
        i = i + 1;
    }
    assert(data@.subrange(0, 6) =~= attack_marker());
    true
}

/// The identity under which the overlay deduplicates a message body.
pub fn message_id(data: &[u8]) -> (r: u64)
    ensures
        r == message_identity(data@),
{
    let mut s = DefaultHasher::new();
    s.write(data);
    s.finish()
}

/// Messages with equal bodies get one identity, whichever peers sent them,
/// so the overlay delivers such a body once.
pub proof fn lemma_equal_bodies_one_identity(a: Seq<u8>, b: Seq<u8>)
    requires
        a == b,
    ensures
        message_identity(a) == message_identity(b),
{
}

/// The block that an attack report asks for: the /32 of the offending
/// address, where the payload is a report.
pub fn attack_block(data: &[u8], offender: u32) -> (r: Option<PrefixKey>)
    ensures
        is_attack(data@) ==> r == Some(PrefixKey { prefix_len: 32, addr: offender }),
        !is_attack(data@) ==> r is None,
{
    if is_attack_report(data) {
        Some(PrefixKey::new(32, offender))
    } else {
        None
    }
}

/// One component of a peer's multiaddress, as far as the agent reads it.
#[derive(Clone, Copy, Debug, PartialEq, Eq, Structural)]
pub enum AddrComponent {
    /// An IPv4 address.
    Ip4(u32),
    /// Any other protocol.
    Other,
}

/// The first IPv4 address in a multiaddress.
pub fn get_ip_from_multiaddr(addr: &Vec<AddrComponent>) -> (r: Option<u32>)
    ensures
        r is None <==> forall|i: int| 0 <= i < addr@.len() ==> addr@[i] is Other,
        r matches Some(a) ==> exists|i: int|
            0 <= i < addr@.len() && addr@[i] == AddrComponent::Ip4(a) && forall|j: int|
                0 <= j < i ==> #[trigger] addr@[j] is Other,
{
    let mut i: usize = 0;
    while i < addr.len()
        invariant
            i <= addr@.len(),
            forall|j: int| 0 <= j < i ==> #[trigger] addr@[j] is Other,
        decreases addr@.len() - i,
    {
        if let AddrComponent::Ip4(ip) = addr[i] {
            return Some(ip);
        }
        i = i + 1;
    }
    None
}

} // verus!
