//! Opaque 128-bit identities and their canonical text form.
//!
//! An identity is rendered the way version-4 UUIDs are rendered: thirty-two
//! lowercase hex digits in five hyphen-separated groups of 8, 4, 4, 4 and 12.
//! That text names the identity's storage directory and appears in replies.

use crate::hex::{hex16_chars, hex16_string, lemma_hex16_injective};
use vstd::prelude::*;

verus! {

/// An opaque 128-bit identity under which a client's files are grouped.
#[derive(PartialEq, Eq, Structural, Clone, Copy, Debug, Hash)]
pub struct Identity {
    /// The most significant 64 bits.
    pub hi: u64,
    /// The least significant 64 bits.
    pub lo: u64,
}

/// The canonical hyphenated lowercase text of an identity.
pub open spec fn identity_chars(id: Identity) -> Seq<char> {
    let h = hex16_chars(id.hi);
    let l = hex16_chars(id.lo);
    h.subrange(0, 8) + seq!['-'] + h.subrange(8, 12) + seq!['-'] + h.subrange(12, 16) + seq!['-']
        + l.subrange(0, 4) + seq!['-'] + l.subrange(4, 16)
}

proof fn lemma_regroup(h: Seq<char>, l: Seq<char>, u: Seq<char>)
    requires
        h.len() == 16,
        l.len() == 16,
        u == h.subrange(0, 8) + seq!['-'] + h.subrange(8, 12) + seq!['-'] + h.subrange(12, 16)
            + seq!['-'] + l.subrange(0, 4) + seq!['-'] + l.subrange(4, 16),
    ensures
        h =~= u.subrange(0, 8) + u.subrange(9, 13) + u.subrange(14, 18),
        l =~= u.subrange(19, 23) + u.subrange(24, 36),
{
}

/// Distinct identities have distinct canonical texts.
pub proof fn lemma_identity_chars_injective(a: Identity, b: Identity)
    requires
        identity_chars(a) == identity_chars(b),
    ensures
        a == b,
{
    let ua = identity_chars(a);
    let ub = identity_chars(b);
    lemma_regroup(hex16_chars(a.hi), hex16_chars(a.lo), ua);
    lemma_regroup(hex16_chars(b.hi), hex16_chars(b.lo), ub);
    lemma_hex16_injective(a.hi, b.hi);
    lemma_hex16_injective(a.lo, b.lo);
}

impl Identity {
    /// The canonical hyphenated lowercase text of this identity.
    pub fn to_text(&self) -> (r: String)
        ensures
            r@ == identity_chars(*self),
    {
        let h = hex16_string(self.hi);
        let l = hex16_string(self.lo);
        let mut out = String::new();
        out.append(h.as_str().substring_char(0, 8));
        out.append("-");
        out.append(h.as_str().substring_char(8, 12));
        out.append("-");
        out.append(h.as_str().substring_char(12, 16));
        out.append("-");
        out.append(l.as_str().substring_char(0, 4));
        out.append("-");
        out.append(l.as_str().substring_char(4, 16));
        proof {
            reveal_strlit("-");
        }
        assert(out@ =~= identity_chars(*self));
        out
    }
}

/// Relies on uuid::Uuid::new_v4 for a fresh version-4 identity drawn from
/// the operating system's random source; nothing is assumed about the random
/// bits, only about the fixed version and variant bits that new_v4 sets.
#[verifier::external_body]
pub(crate) fn fresh_identity() -> (r: Identity)
    ensures
        r.hi & 0xf000 == 0x4000,
        r.lo & 0xc000000000000000 == 0x8000000000000000,
{
    let u = uuid::Uuid::new_v4().as_u128();
    Identity { hi: (u >> 64) as u64, lo: u as u64 }
}

} // verus!
