use vstd::prelude::*;
use vstd::utf8::{encode_scalar, encode_utf8};
use vstd::string::StrSliceExecFns;

verus! {

/// Byte length and Unicode-scalar count of a UTF-8 text span.
#[derive(Clone, Copy, Debug, PartialEq, Eq, Structural)]
pub struct StringSize {
    /// Length in bytes of the UTF-8 encoding.
    pub bytes: u32,
    /// Number of Unicode scalar values.
    pub symbols: u32,
}

/// Length in bytes of the UTF-8 encoding of `s`.
pub open spec fn utf8_len(s: Seq<char>) -> nat {
    encode_utf8(s).len()
}

/// Every scalar takes at least one byte, so a text has at least as many
/// bytes as symbols.
pub proof fn lemma_utf8_len_at_least_chars(s: Seq<char>)
    ensures
        utf8_len(s) >= s.len(),
    decreases s.len(),
{
    if s.len() > 0 {
        lemma_utf8_len_at_least_chars(s.drop_first());
        assert(encode_scalar(s[0] as u32).len() >= 1);
    }
}

impl StringSize {
    /// A size never counts more symbols than bytes.
    pub open spec fn wf(self) -> bool {
        self.bytes >= self.symbols
    }

    /// Field-wise sum; meaningful where `can_add` holds.
    pub open spec fn plus(self, rhs: StringSize) -> StringSize {
        StringSize {
            bytes: (self.bytes + rhs.bytes) as u32,
            symbols: (self.symbols + rhs.symbols) as u32,
        }
    }

    /// Whether the field-wise sum fits the fields.
    pub open spec fn can_add(self, rhs: StringSize) -> bool {
        self.bytes + rhs.bytes <= u32::MAX && self.symbols + rhs.symbols <= u32::MAX
    }

    /// The size of `s`.
    pub fn from_str(s: &str) -> (r: StringSize)
        requires
            utf8_len(s@) <= u32::MAX,
        ensures
            r.bytes == utf8_len(s@),
            r.symbols == s@.len(),
            r.wf(),
    {
        proof {
            lemma_utf8_len_at_least_chars(s@);
        }
        let bytes = s.len();
        let symbols = s.unicode_len();
        StringSize { bytes: bytes as u32, symbols: symbols as u32 }
    }

    /// Size of two spans put together: both fields are summed.
    pub fn add(self, rhs: StringSize) -> (r: StringSize)
        requires
            self.can_add(rhs),
        ensures
            r == self.plus(rhs),
            r.bytes == self.bytes + rhs.bytes,
            r.symbols == self.symbols + rhs.symbols,
    {
        StringSize { bytes: self.bytes + rhs.bytes, symbols: self.symbols + rhs.symbols }
    }

    /// Adds `rhs` to this size in place.
    pub fn add_assign(&mut self, rhs: StringSize)
        requires
            old(self).can_add(rhs),
        ensures
            *final(self) == old(self).plus(rhs),
            final(self).bytes == old(self).bytes + rhs.bytes,
            final(self).symbols == old(self).symbols + rhs.symbols,
    {
        self.symbols = self.symbols + rhs.symbols;
        self.bytes = self.bytes + rhs.bytes;
    }
}

/// Adding sizes does not depend on the order of the operands.
pub proof fn lemma_add_commutative(a: StringSize, b: StringSize)
    requires
        a.can_add(b),
    ensures
        b.can_add(a),
        a.plus(b) == b.plus(a),
{
}

/// Adding sizes does not depend on how the operands are grouped.
pub proof fn lemma_add_associative(a: StringSize, b: StringSize, c: StringSize)
    requires
        a.can_add(b),
        a.plus(b).can_add(c),
    ensures
        b.can_add(c),
        a.can_add(b.plus(c)),
        a.plus(b).plus(c) == a.plus(b.plus(c)),
{
}

/// A sum of well-formed sizes is well-formed: bytes never fall below symbols.
pub proof fn lemma_add_keeps_wf(a: StringSize, b: StringSize)
    requires
        a.wf(),
        b.wf(),
        a.can_add(b),
    ensures
        a.plus(b).wf(),
{
}

} // verus!
