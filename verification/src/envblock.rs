//! The native environment-block and directory encoders.
//!
//! A merged environment is passed to native process creation as a flat
//! buffer of `KEY=VALUE` entries, each nul-terminated, concatenated in
//! key-sorted order, with one extra nul to mark the end of the block.  A
//! working directory is passed as a single nul-terminated wide string.

use vstd::prelude::*;

use crate::env::EnvKey;
use crate::error::Error;
use crate::wide::{contains_nul, has_nul, NUL};

verus! {

/// The equals-sign unit that joins a key to its value.
pub const EQUALS: u16 = 0x3d;

/// One encoded entry: `KEY=VALUE` followed by a nul.
pub open spec fn entry_block(k: Seq<u16>, v: Seq<u16>) -> Seq<u16> {
    k + seq![EQUALS] + v + seq![NUL]
}

/// All entries of a merged environment, encoded and concatenated in order.
pub open spec fn entries_block(s: Seq<(EnvKey, Vec<u16>)>) -> Seq<u16>
    decreases s.len(),
{
    if s.len() == 0 {
        Seq::empty()
    } else {
        entries_block(s.drop_last()) + entry_block(s.last().0.key@, s.last().1@)
    }
}

/// The whole block: every entry, then the extra terminating nul.
pub open spec fn spec_env_block(s: Seq<(EnvKey, Vec<u16>)>) -> Seq<u16> {
    entries_block(s) + seq![NUL]
}

/// Encode a merged environment as a native environment block.
///
/// Fails with [`Error::InvalidInput`] exactly when some key or value holds
/// a nul unit — before anything native would be attempted.
pub fn make_env_block(env: &Vec<(EnvKey, Vec<u16>)>) -> (r: Result<Vec<u16>, Error>)
    ensures
        r is Ok <==> (forall|i: int|
            0 <= i < env@.len() ==> !contains_nul(env@[i].0.key@) && !contains_nul(env@[i].1@)),
        r is Ok ==> r->Ok_0@ == spec_env_block(env@),
        r is Err ==> r->Err_0 == Error::InvalidInput,
{
    let mut blk: Vec<u16> = Vec::new();
    let mut i: usize = 0;
    while i < env.len()
        invariant
            0 <= i <= env@.len(),
            forall|j: int|
                0 <= j < i ==> !contains_nul(env@[j].0.key@) && !contains_nul(env@[j].1@),
            blk@ == entries_block(env@.take(i as int)),
        decreases env@.len() - i,
    {
        let entry = &env[i];
        if has_nul(entry.0.key.as_slice()) {
            return Err(Error::InvalidInput);
        }
        if has_nul(entry.1.as_slice()) {
            return Err(Error::InvalidInput);
        }
        let ghost blk_pre = blk@;
        append_units(&mut blk, entry.0.key.as_slice());
        blk.push(EQUALS);
        append_units(&mut blk, entry.1.as_slice());
        blk.push(NUL);
        proof {
            assert(env@.take(i + 1).drop_last() =~= env@.take(i as int));
            assert(env@.take(i + 1).last() == env@[i as int]);
            assert(blk@ =~= entries_block(env@.take(i + 1)));
        }
        i = i + 1;
    }
    proof {
        assert(env@.take(env@.len() as int) =~= env@);
    }
    blk.push(NUL);
    Ok(blk)
}

/// Encode a working directory as a nul-terminated wide string.
///
/// Fails with [`Error::InvalidInput`] exactly when the directory holds a
/// nul unit.
pub fn make_dir_block(dir: &[u16]) -> (r: Result<Vec<u16>, Error>)
    ensures
        r is Ok <==> !contains_nul(dir@),
        r is Ok ==> r->Ok_0@ == dir@ + seq![NUL],
        r is Err ==> r->Err_0 == Error::InvalidInput,
{
    if has_nul(dir) {
        return Err(Error::InvalidInput);
    }
    let mut out = crate::wide::to_wvec(dir);
    out.push(NUL);
    Ok(out)
}

/// Append every unit of a slice.
fn append_units(out: &mut Vec<u16>, s: &[u16])
    ensures
        final(out)@ == old(out)@ + s@,
{
    let mut i: usize = 0;
    while i < s.len()
        invariant
            0 <= i <= s@.len(),
            out@ == old(out)@ + s@.take(i as int),
        decreases s@.len() - i,
    {
        out.push(s[i]);
        proof {
            assert(out@ =~= old(out)@ + s@.take(i + 1));
        }
        i = i + 1;
    }
    proof {
        assert(s@.take(s@.len() as int) =~= s@);
    }
}

} // verus!
