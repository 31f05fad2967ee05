//! Wide (16-bit) string helpers.
//!
//! Native strings on the target platform are sequences of 16-bit units.  This
//! module holds what the rest of the crate needs of them: detecting nul
//! units, case-normalizing environment keys, and a lexicographic order on
//! normalized keys.

use vstd::prelude::*;

verus! {

/// The nul unit that terminates native strings.
pub const NUL: u16 = 0;

/// Does the string contain a nul unit?
pub open spec fn contains_nul(s: Seq<u16>) -> bool {
    exists|i: int| 0 <= i < s.len() && s[i] == NUL
}

/// Scan for a nul unit.
pub fn has_nul(s: &[u16]) -> (r: bool)
    ensures
        r == contains_nul(s@),
{
    let mut i: usize = 0;
    while i < s.len()
        invariant
            0 <= i <= s@.len(),
            forall|j: int| 0 <= j < i ==> s@[j] != NUL,
        decreases s@.len() - i,
    {
        if s[i] == NUL {
            return true;
        }
        i = i + 1;
    }
    false
}

/// Case-normalization of a single unit: ASCII lower-case letters are mapped
/// to their upper-case counterparts, everything else is unchanged.
/// Environment keys on the target platform compare case-insensitively.
pub open spec fn spec_norm_unit(u: u16) -> u16 {
    if 0x61 <= u <= 0x7a {
        (u - 0x20) as u16
    } else {
        u
    }
}

/// Executable counterpart of [`spec_norm_unit`].
pub fn norm_unit(u: u16) -> (r: u16)
    ensures
        r == spec_norm_unit(u),
{
    if 0x61 <= u && u <= 0x7a {
        u - 0x20
    } else {
        u
    }
}

/// Case-normalization of a whole key.
pub open spec fn norm_key(s: Seq<u16>) -> Seq<u16> {
    s.map_values(|u: u16| spec_norm_unit(u))
}

/// Strict lexicographic order on unit sequences.
pub open spec fn lex_lt(a: Seq<u16>, b: Seq<u16>) -> bool
    decreases a.len(),
{
    if b.len() == 0 {
        false
    } else if a.len() == 0 {
        true
    } else if a[0] < b[0] {
        true
    } else if a[0] > b[0] {
        false
    } else {
        lex_lt(a.skip(1), b.skip(1))
    }
}

/// Exactly one of `lex_lt(a, b)`, `a == b`, `lex_lt(b, a)` holds.
pub proof fn lemma_lex_trichotomy(a: Seq<u16>, b: Seq<u16>)
    ensures
        lex_lt(a, b) ==> !lex_lt(b, a) && a != b,
        lex_lt(b, a) ==> !lex_lt(a, b) && a != b,
        !lex_lt(a, b) && !lex_lt(b, a) ==> a == b,
    decreases a.len() + b.len(),
{
    if a.len() == 0 || b.len() == 0 {
        if a.len() == 0 && b.len() == 0 {
            assert(a =~= b);
        }
    } else {
        if a[0] == b[0] {
            lemma_lex_trichotomy(a.skip(1), b.skip(1));
            if !lex_lt(a, b) && !lex_lt(b, a) {
                assert(a.skip(1) =~= b.skip(1));
                assert(a =~= seq![a[0]].add(a.skip(1)));
                assert(b =~= seq![b[0]].add(b.skip(1)));
            }
            if lex_lt(a, b) {
                assert(a.skip(1) != b.skip(1));
                assert(a != b) by {
                    if a =~= b {
                        assert(a.skip(1) =~= b.skip(1));
                    }
                }
            }
            if lex_lt(b, a) {
                assert(a != b) by {
                    if a =~= b {
                        assert(a.skip(1) =~= b.skip(1));
                    }
                }
            }
        }
    }
}

/// The order is transitive.
pub proof fn lemma_lex_transitive(a: Seq<u16>, b: Seq<u16>, c: Seq<u16>)
    requires
        lex_lt(a, b),
        lex_lt(b, c),
    ensures
        lex_lt(a, c),
    decreases a.len() + b.len() + c.len(),
{
    if a.len() == 0 {
        assert(b.len() > 0);
        assert(c.len() > 0);
    } else {
        assert(b.len() > 0);
        assert(c.len() > 0);
        if a[0] == b[0] && b[0] == c[0] {
            lemma_lex_transitive(a.skip(1), b.skip(1), c.skip(1));
        }
    }
}

/// Compare two keys after normalization: negative for less, zero for equal,
/// positive for greater, in the lexicographic order on normalized units.
pub fn cmp_norm(a: &[u16], b: &[u16]) -> (r: i32)
    ensures
        r < 0 <==> lex_lt(norm_key(a@), norm_key(b@)),
        r > 0 <==> lex_lt(norm_key(b@), norm_key(a@)),
        r == 0 <==> norm_key(a@) == norm_key(b@),
{
    proof {
        lemma_lex_trichotomy(norm_key(a@), norm_key(b@));
        assert(norm_key(a@).skip(0) =~= norm_key(a@));
        assert(norm_key(b@).skip(0) =~= norm_key(b@));
    }
    let mut i: usize = 0;
    loop
        invariant
            0 <= i <= a@.len(),
            i <= b@.len(),
            forall|j: int| 0 <= j < i ==> spec_norm_unit(a@[j]) == spec_norm_unit(b@[j]),
            lex_lt(norm_key(a@), norm_key(b@)) == lex_lt(
                norm_key(a@).skip(i as int),
                norm_key(b@).skip(i as int),
            ),
            lex_lt(norm_key(b@), norm_key(a@)) == lex_lt(
                norm_key(b@).skip(i as int),
                norm_key(a@).skip(i as int),
            ),
        decreases a@.len() - i,
    {
        proof {
            lemma_lex_trichotomy(norm_key(a@), norm_key(b@));
        }
        if i >= a.len() && i >= b.len() {
            proof {
                assert(norm_key(a@).skip(i as int) =~= Seq::<u16>::empty());
                assert(norm_key(b@).skip(i as int) =~= Seq::<u16>::empty());
                assert(norm_key(a@) =~= norm_key(b@)) by {
                    assert(a@.len() == b@.len());
                }
            }
            return 0;
        }
        if i >= a.len() {
            proof {
                assert(norm_key(a@).skip(i as int) =~= Seq::<u16>::empty());
                assert(norm_key(b@).skip(i as int).len() > 0);
            }
            return -1;
        }
        if i >= b.len() {
            proof {
                assert(norm_key(b@).skip(i as int) =~= Seq::<u16>::empty());
                assert(norm_key(a@).skip(i as int).len() > 0);
            }
            return 1;
        }
        let na = norm_unit(a[i]);
        let nb = norm_unit(b[i]);
        proof {
            let sa = norm_key(a@).skip(i as int);
            let sb = norm_key(b@).skip(i as int);
            assert(sa[0] == spec_norm_unit(a@[i as int]));
            assert(sb[0] == spec_norm_unit(b@[i as int]));
            assert(sa.skip(1) =~= norm_key(a@).skip(i + 1));
            assert(sb.skip(1) =~= norm_key(b@).skip(i + 1));
        }
        if na < nb {
            return -1;
        }
        if na > nb {
            return 1;
        }
        i = i + 1;
    }
}

/// Copy a slice of units into a fresh vector.
pub fn to_wvec(s: &[u16]) -> (r: Vec<u16>)
    ensures
        r@ == s@,
{
    let mut out: Vec<u16> = Vec::new();
    let mut i: usize = 0;
    while i < s.len()
        invariant
            0 <= i <= s@.len(),
            out@ == s@.take(i as int),
        decreases s@.len() - i,
    {
        out.push(s[i]);
        proof {
            assert(out@ =~= s@.take(i + 1));
        }
        i = i + 1;
    }
    proof {
        assert(s@.take(s@.len() as int) =~= s@);
    }
    out
}

} // verus!
