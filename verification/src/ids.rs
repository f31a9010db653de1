//! 128-bit entity identifiers and their canonical textual form.

use vstd::prelude::*;
use crate::text::{hex_str_fixed, u64_to_hex_fixed};
use vstd::string::StrSliceExecFns;
use vstd::string::StringExecFns;

verus! {

/// A 128-bit identifier, held as its upper and lower 64 bits.
#[derive(Debug, Clone, Copy, PartialEq, Eq, Structural, Hash)]
pub struct Id {
    pub hi: u64,
    pub lo: u64,
}

impl Id {
    pub fn new(hi: u64, lo: u64) -> (r: Id)
        ensures
            r.hi == hi && r.lo == lo,
    {
        Id { hi, lo }
    }
}

/// The 32 lowercase hex digits of an identifier, most significant first.
pub open spec fn id_hex(id: Id) -> Seq<char> {
    hex_str_fixed(id.hi as nat, 16) + hex_str_fixed(id.lo as nat, 16)
}

/// The canonical hyphenated form: 8-4-4-4-12 hex digits.
pub open spec fn id_str_spec(id: Id) -> Seq<char> {
    let h = id_hex(id);
    h.subrange(0, 8) + seq!['-'] + h.subrange(8, 12) + seq!['-'] + h.subrange(12, 16)
        + seq!['-'] + h.subrange(16, 20) + seq!['-'] + h.subrange(20, 32)
}

/// The length of a fixed-width hex rendering is its width.
pub proof fn lemma_hex_fixed_len(n: nat, width: nat)
    ensures
        hex_str_fixed(n, width).len() == width,
    decreases width,
{
    if width > 0 {
        lemma_hex_fixed_len(n / 16, (width - 1) as nat);
    }
}

/// Renders an identifier in its canonical hyphenated hex form.
pub fn id_to_string(id: &Id) -> (r: String)
    ensures
        r@ == id_str_spec(*id),
{
    let hi = u64_to_hex_fixed(id.hi, 16);
    let lo = u64_to_hex_fixed(id.lo, 16);
    proof {
        lemma_hex_fixed_len(id.hi as nat, 16);
        lemma_hex_fixed_len(id.lo as nat, 16);
    }
    let mut full = hi;
    full.append(lo.as_str());
    let cs = crate::text::str_chars(full.as_str());
    let mut out: Vec<char> = Vec::new();
    push_range(&mut out, &cs, 0, 8);
    out.push('-');
    push_range(&mut out, &cs, 8, 12);
    out.push('-');
    push_range(&mut out, &cs, 12, 16);
    out.push('-');
    push_range(&mut out, &cs, 16, 20);
    out.push('-');
    push_range(&mut out, &cs, 20, 32);
    proof {
        assert(out@ =~= id_str_spec(*id));
    }
    crate::text::string_from_chars(&out)
}

/// Appends `cs[from..to]` to `out`.
fn push_range(out: &mut Vec<char>, cs: &Vec<char>, from: usize, to: usize)
    requires
        from <= to <= cs@.len(),
    ensures
        final(out)@ == old(out)@ + cs@.subrange(from as int, to as int),
{
    let mut i: usize = from;
    while i < to
        invariant
            from <= i <= to <= cs@.len(),
            out@ == old(out)@ + cs@.subrange(from as int, i as int),
        decreases to - i,
    {
        out.push(cs[i]);
        proof {
            assert(old(out)@ + cs@.subrange(from as int, i + 1) =~= (old(out)@ + cs@.subrange(
                from as int,
                i as int,
            )).push(cs@[i as int]));
        }
        i = i + 1;
    }
}

} // verus!
