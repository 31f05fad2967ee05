//! Environment overrides: an override-set over the inherited process
//! environment, with clear/set/remove and a deterministic, case-normalized
//! merge.
//!
//! Keys compare case-insensitively (ASCII case fold), as environment lookups
//! on the target platform do, while the original casing of each key is
//! preserved for the encoded output.  The override store never holds two
//! entries whose keys normalize to the same key, and it is kept sorted by
//! normalized key, so the merged environment comes out already key-sorted.

use vstd::prelude::*;

use crate::wide::{cmp_norm, lex_lt, lemma_lex_trichotomy, lemma_lex_transitive, norm_key, to_wvec};

verus! {

/// An environment key, remembering its original casing.
///
/// Two keys stand for the same environment variable when their
/// case-normalized forms ([`norm_key`]) are equal.
#[derive(Debug)]
pub struct EnvKey {
    /// The key exactly as the caller wrote it.
    pub key: Vec<u16>,
}

/// The normalized form of an override entry's key.
pub open spec fn entry_norm(e: (EnvKey, Option<Vec<u16>>)) -> Seq<u16> {
    norm_key(e.0.key@)
}

/// The abstract view of a recorded override: a value to set, or a removal
/// marker.
pub open spec fn override_view(v: Option<Vec<u16>>) -> Option<Seq<u16>> {
    match v {
        Some(v) => Some(v@),
        None => None,
    }
}

/// The recorded override of an entry: a value to set, or a removal marker.
pub open spec fn entry_val(e: (EnvKey, Option<Vec<u16>>)) -> Option<Seq<u16>> {
    override_view(e.1)
}

/// The normalized key of a merged-environment entry.
pub open spec fn env_entry_norm(e: (EnvKey, Vec<u16>)) -> Seq<u16> {
    norm_key(e.0.key@)
}

/// Entries strictly sorted by normalized key (hence with no two entries for
/// the same variable).
pub open spec fn sorted_norms(s: Seq<(EnvKey, Option<Vec<u16>>)>) -> bool {
    forall|i: int, j: int|
        0 <= i < j < s.len() ==> lex_lt(entry_norm(s[i]), entry_norm(s[j]))
}

/// Merged-environment entries strictly sorted by normalized key.
pub open spec fn sorted_env_norms(s: Seq<(EnvKey, Vec<u16>)>) -> bool {
    forall|i: int, j: int|
        0 <= i < j < s.len() ==> lex_lt(env_entry_norm(s[i]), env_entry_norm(s[j]))
}

/// The override store as a map: normalized key to (original casing, override).
pub open spec fn vars_map_of(s: Seq<(EnvKey, Option<Vec<u16>>)>) -> Map<
    Seq<u16>,
    (Seq<u16>, Option<Seq<u16>>),
>
    decreases s.len(),
{
    if s.len() == 0 {
        Map::empty()
    } else {
        vars_map_of(s.drop_last()).insert(
            entry_norm(s.last()),
            (s.last().0.key@, entry_val(s.last())),
        )
    }
}

/// A merged environment as a map: normalized key to (original casing, value).
pub open spec fn env_map_of(s: Seq<(EnvKey, Vec<u16>)>) -> Map<Seq<u16>, (Seq<u16>, Seq<u16>)>
    decreases s.len(),
{
    if s.len() == 0 {
        Map::empty()
    } else {
        env_map_of(s.drop_last()).insert(
            env_entry_norm(s.last()),
            (s.last().0.key@, s.last().1@),
        )
    }
}

/// Insert-or-replace into an override map, keeping the casing that is
/// already recorded for the variable.
pub open spec fn vm_set(
    m: Map<Seq<u16>, (Seq<u16>, Option<Seq<u16>>)>,
    k: Seq<u16>,
    v: Option<Seq<u16>>,
) -> Map<Seq<u16>, (Seq<u16>, Option<Seq<u16>>)> {
    let n = norm_key(k);
    if m.dom().contains(n) {
        m.insert(n, (m[n].0, v))
    } else {
        m.insert(n, (k, v))
    }
}

/// Apply one set/remove step to a merged environment: a present value
/// inserts or overwrites (keeping the casing already present), an absent
/// value removes the variable.
pub open spec fn env_apply(
    m: Map<Seq<u16>, (Seq<u16>, Seq<u16>)>,
    k: Seq<u16>,
    v: Option<Seq<u16>>,
) -> Map<Seq<u16>, (Seq<u16>, Seq<u16>)> {
    let n = norm_key(k);
    match v {
        Some(val) => if m.dom().contains(n) {
            m.insert(n, (m[n].0, val))
        } else {
            m.insert(n, (k, val))
        },
        None => m.remove(n),
    }
}

/// The ambient environment snapshot as a map: for duplicated keys the last
/// value wins, under the casing of the earliest occurrence.
pub open spec fn ambient_map(a: Seq<(Seq<u16>, Seq<u16>)>) -> Map<Seq<u16>, (Seq<u16>, Seq<u16>)>
    decreases a.len(),
{
    if a.len() == 0 {
        Map::empty()
    } else {
        env_apply(ambient_map(a.drop_last()), a.last().0, Some(a.last().1))
    }
}

/// Replay a sequence of recorded overrides, in order, against a base
/// environment.
pub open spec fn apply_entries(
    m: Map<Seq<u16>, (Seq<u16>, Seq<u16>)>,
    s: Seq<(EnvKey, Option<Vec<u16>>)>,
) -> Map<Seq<u16>, (Seq<u16>, Seq<u16>)>
    decreases s.len(),
{
    if s.len() == 0 {
        m
    } else {
        env_apply(apply_entries(m, s.drop_last()), s.last().0.key@, entry_val(s.last()))
    }
}

/// The merge of a base environment with an override map, described
/// pointwise: a variable is present when the overrides set it, or when the
/// base has it and the overrides do not remove it; its value comes from the
/// override when one is set, else from the base; its casing comes from the
/// base when the base has the variable, else from the override record.
pub open spec fn merged(
    base: Map<Seq<u16>, (Seq<u16>, Seq<u16>)>,
    vm: Map<Seq<u16>, (Seq<u16>, Option<Seq<u16>>)>,
) -> Map<Seq<u16>, (Seq<u16>, Seq<u16>)> {
    Map::new(
        |n: Seq<u16>|
            (vm.dom().contains(n) && vm[n].1 is Some) || (base.dom().contains(n) && !(
            vm.dom().contains(n) && vm[n].1 is None)),
        |n: Seq<u16>|
            (
                if base.dom().contains(n) {
                    base[n].0
                } else {
                    vm[n].0
                },
                if vm.dom().contains(n) && vm[n].1 is Some {
                    vm[n].1->0
                } else {
                    base[n].1
                },
            ),
    )
}

/// Stores a set of changes to an environment.
#[derive(Debug)]
pub struct CommandEnv {
    /// When true, the ambient environment is not inherited at all.
    pub cleared: bool,
    /// The recorded set/remove overrides, sorted by normalized key.
    pub vars: Vec<(EnvKey, Option<Vec<u16>>)>,
}

impl CommandEnv {
    /// The store's invariant: overrides strictly sorted by normalized key.
    pub open spec fn wf(self) -> bool {
        sorted_norms(self.vars@)
    }

    /// The override store seen as a map.
    pub open spec fn vm(self) -> Map<Seq<u16>, (Seq<u16>, Option<Seq<u16>>)> {
        vars_map_of(self.vars@)
    }

    /// A fresh override-set: inherit everything, override nothing.
    pub fn new() -> (r: CommandEnv)
        ensures
            r.wf(),
            !r.cleared,
            r.vars@.len() == 0,
            r.vm() == Map::<Seq<u16>, (Seq<u16>, Option<Seq<u16>>)>::empty(),
    {
        CommandEnv { cleared: false, vars: Vec::new() }
    }

    /// Record that `key` is to be set to `value`.
    pub fn set(&mut self, key: &[u16], value: &[u16])
        requires
            old(self).wf(),
        ensures
            final(self).wf(),
            final(self).cleared == old(self).cleared,
            final(self).vm() == vm_set(old(self).vm(), key@, Some(value@)),
    {
        let v = to_wvec(value);
        store_put(&mut self.vars, key, Some(v));
    }

    /// Record that `key` is to be removed from the child's environment.
    pub fn remove(&mut self, key: &[u16])
        requires
            old(self).wf(),
        ensures
            final(self).wf(),
            final(self).cleared == old(self).cleared,
            old(self).cleared ==> final(self).vm() == old(self).vm().remove(norm_key(key@)),
            !old(self).cleared ==> final(self).vm() == vm_set(old(self).vm(), key@, None),
    {
        if self.cleared {
            store_delete(&mut self.vars, key);
        } else {
            store_put(&mut self.vars, key, None);
        }
    }

    /// Drop the ambient environment entirely and forget all overrides.
    pub fn clear(&mut self)
        ensures
            final(self).wf(),
            final(self).cleared,
            final(self).vm() == Map::<Seq<u16>, (Seq<u16>, Option<Seq<u16>>)>::empty(),
    {
        self.cleared = true;
        self.vars.clear();
    }

    /// True when spawning can simply inherit the ambient environment: the
    /// set was never cleared and holds no override.
    pub fn is_unchanged(&self) -> (r: bool)
        ensures
            r == (!self.cleared && self.vars@.len() == 0),
    {
        !self.cleared && self.vars.len() == 0
    }
}

/// An ambient snapshot, seen abstractly.
pub open spec fn snapshot_view(a: Seq<(Vec<u16>, Vec<u16>)>) -> Seq<(Seq<u16>, Seq<u16>)> {
    a.map_values(|p: (Vec<u16>, Vec<u16>)| (p.0@, p.1@))
}

/// The base environment that a capture starts from: nothing when cleared,
/// the ambient snapshot otherwise.
pub open spec fn capture_base(
    a: Seq<(Vec<u16>, Vec<u16>)>,
    cleared: bool,
) -> Map<Seq<u16>, (Seq<u16>, Seq<u16>)> {
    if cleared {
        Map::empty()
    } else {
        ambient_map(snapshot_view(a))
    }
}

impl CommandEnv {
    /// Capture the ambient environment with these changes applied.
    ///
    /// The result is the merged environment: the ambient snapshot (unless
    /// the set was cleared) with every recorded override applied, sorted by
    /// normalized key, with one entry per variable, and with the earliest
    /// recorded casing of each key preserved.
    pub fn capture(&self, ambient: &Vec<(Vec<u16>, Vec<u16>)>) -> (r: Vec<(EnvKey, Vec<u16>)>)
        requires
            self.wf(),
        ensures
            sorted_env_norms(r@),
            env_map_of(r@) == merged(capture_base(ambient@, self.cleared), self.vm()),
    {
        let ghost av = snapshot_view(ambient@);
        let mut out: Vec<(EnvKey, Vec<u16>)> = Vec::new();
        if !self.cleared {
            let mut i: usize = 0;
            while i < ambient.len()
                invariant
                    0 <= i <= ambient@.len(),
                    av == snapshot_view(ambient@),
                    sorted_env_norms(out@),
                    env_map_of(out@) == ambient_map(av.take(i as int)),
                decreases ambient@.len() - i,
            {
                proof {
                    assert(av.take(i + 1).drop_last() =~= av.take(i as int));
                    assert(av.take(i + 1).last() == (ambient@[i as int].0@, ambient@[i as int].1@));
                }
                let v = to_wvec(ambient[i].1.as_slice());
                env_put(&mut out, ambient[i].0.as_slice(), v);
                i = i + 1;
            }
            proof {
                assert(av.take(ambient@.len() as int) =~= av);
            }
        }
        let ghost base0 = capture_base(ambient@, self.cleared);
        let mut j: usize = 0;
        while j < self.vars.len()
            invariant
                0 <= j <= self.vars@.len(),
                self.wf(),
                sorted_env_norms(out@),
                env_map_of(out@) == apply_entries(base0, self.vars@.take(j as int)),
            decreases self.vars@.len() - j,
        {
            proof {
                assert(self.vars@.take(j + 1).drop_last() =~= self.vars@.take(j as int));
                assert(self.vars@.take(j + 1).last() == self.vars@[j as int]);
            }
            match &self.vars[j].1 {
                Some(v) => {
                    let vv = to_wvec(v.as_slice());
                    env_put(&mut out, self.vars[j].0.key.as_slice(), vv);
                },
                None => {
                    env_delete(&mut out, self.vars[j].0.key.as_slice());
                },
            }
            j = j + 1;
        }
        proof {
            assert(self.vars@.take(self.vars@.len() as int) =~= self.vars@);
            lemma_apply_entries_merged(base0, self.vars@);
        }
        out
    }

    /// Capture only when it would make a difference: `None` means the
    /// spawner should simply inherit the ambient environment.
    pub fn capture_if_changed(&self, ambient: &Vec<(Vec<u16>, Vec<u16>)>) -> (r: Option<
        Vec<(EnvKey, Vec<u16>)>,
    >)
        requires
            self.wf(),
        ensures
            r is None <==> (!self.cleared && self.vars@.len() == 0),
            r is Some ==> sorted_env_norms(r->0@) && env_map_of(r->0@) == merged(
                capture_base(ambient@, self.cleared),
                self.vm(),
            ),
    {
        if self.is_unchanged() {
            None
        } else {
            Some(self.capture(ambient))
        }
    }
}

/// The override store is empty exactly when its map is.
pub proof fn lemma_empty_store(s: Seq<(EnvKey, Option<Vec<u16>>)>)
    ensures
        s.len() == 0 <==> vars_map_of(s) == Map::<Seq<u16>, (Seq<u16>, Option<Seq<u16>>)>::empty(),
{
    if s.len() == 0 {
        assert(vars_map_of(s) =~= Map::<Seq<u16>, (Seq<u16>, Option<Seq<u16>>)>::empty());
    } else {
        assert(vars_map_of(s).dom().contains(entry_norm(s.last())));
        assert(!Map::<Seq<u16>, (Seq<u16>, Option<Seq<u16>>)>::empty().dom().contains(
            entry_norm(s.last()),
        ));
    }
}

/// Replaying a sorted override store over a base environment is the same as
/// merging with it as a map.
pub proof fn lemma_apply_entries_merged(
    base: Map<Seq<u16>, (Seq<u16>, Seq<u16>)>,
    s: Seq<(EnvKey, Option<Vec<u16>>)>,
)
    requires
        sorted_norms(s),
    ensures
        apply_entries(base, s) == merged(base, vars_map_of(s)),
    decreases s.len(),
{
    if s.len() == 0 {
        assert(apply_entries(base, s) =~= merged(base, vars_map_of(s)));
    } else {
        let s0 = s.drop_last();
        lemma_apply_entries_merged(base, s0);
        let e = s.last();
        let n = entry_norm(e);
        lemma_vars_map_doms(s0);
        assert forall|j: int| 0 <= j < s0.len() implies entry_norm(s0[j]) != n by {
            assert(lex_lt(entry_norm(s[j]), entry_norm(s[s.len() - 1])));
            lemma_lex_trichotomy(entry_norm(s0[j]), n);
        }
        assert(!vars_map_of(s0).dom().contains(n));
        assert(apply_entries(base, s) == env_apply(merged(base, vars_map_of(s0)), e.0.key@, entry_val(e)));
        assert(env_apply(merged(base, vars_map_of(s0)), e.0.key@, entry_val(e)) =~= merged(
            base,
            vars_map_of(s),
        ));
    }
}

impl Default for CommandEnv {
    /// A fresh override-set, as [`CommandEnv::new`] builds it.
    fn default() -> (r: CommandEnv)
        ensures
            r.wf(),
            !r.cleared,
            r.vars@.len() == 0,
    {
        CommandEnv::new()
    }
}

/// Where `key` belongs in the sorted store: either the index already holding
/// a key with the same normalized form, or the insertion point.
enum StorePos {
    Found(usize),
    Missing(usize),
}

/// Locate `key` in a store sorted by normalized key.
fn store_find(vars: &Vec<(EnvKey, Option<Vec<u16>>)>, key: &[u16]) -> (r: StorePos)
    requires
        sorted_norms(vars@),
    ensures
        match r {
            StorePos::Found(i) => i < vars@.len() && entry_norm(vars@[i as int]) == norm_key(key@),
            StorePos::Missing(i) => {
                &&& i <= vars@.len()
                &&& forall|j: int|
                    0 <= j < i ==> lex_lt(entry_norm(vars@[j]), norm_key(key@))
                &&& forall|j: int|
                    i <= j < vars@.len() ==> lex_lt(norm_key(key@), entry_norm(vars@[j]))
            },
        },
{
    let mut i: usize = 0;
    while i < vars.len()
        invariant
            sorted_norms(vars@),
            0 <= i <= vars@.len(),
            forall|j: int| 0 <= j < i ==> lex_lt(entry_norm(vars@[j]), norm_key(key@)),
        decreases vars@.len() - i,
    {
        let c = cmp_norm(key, vars[i].0.key.as_slice());
        if c == 0 {
            return StorePos::Found(i);
        }
        if c < 0 {
            proof {
                assert forall|j: int| i <= j < vars@.len() implies lex_lt(
                    norm_key(key@),
                    entry_norm(vars@[j]),
                ) by {
                    if j > i {
                        lemma_lex_transitive(
                            norm_key(key@),
                            entry_norm(vars@[i as int]),
                            entry_norm(vars@[j]),
                        );
                    }
                }
            }
            return StorePos::Missing(i);
        }
        i = i + 1;
    }
    StorePos::Missing(i)
}

/// `vars_map_of` after updating the override at a held position.
proof fn lemma_vars_map_update(s: Seq<(EnvKey, Option<Vec<u16>>)>, i: int, e: (EnvKey, Option<Vec<u16>>))
    requires
        sorted_norms(s),
        0 <= i < s.len(),
        entry_norm(e) == entry_norm(s[i]),
        e.0.key@ == s[i].0.key@,
    ensures
        vars_map_of(s.update(i, e)) == vars_map_of(s).insert(
            entry_norm(s[i]),
            (s[i].0.key@, entry_val(e)),
        ),
    decreases s.len(),
{
    let t = s.update(i, e);
    if i == s.len() - 1 {
        assert(t.drop_last() =~= s.drop_last());
        assert(t.last() == e);
        assert(vars_map_of(t) =~= vars_map_of(s).insert(
            entry_norm(s[i]),
            (s[i].0.key@, entry_val(e)),
        ));
    } else {
        assert(t.drop_last() =~= s.drop_last().update(i, e));
        assert(t.last() == s.last());
        lemma_vars_map_update(s.drop_last(), i, e);
        assert(entry_norm(s[i]) != entry_norm(s.last())) by {
            assert(lex_lt(entry_norm(s[i]), entry_norm(s.last())));
            lemma_lex_trichotomy(entry_norm(s[i]), entry_norm(s.last()));
        }
        assert(vars_map_of(t) =~= vars_map_of(s).insert(
            entry_norm(s[i]),
            (s[i].0.key@, entry_val(e)),
        ));
    }
}

/// `vars_map_of` after inserting a fresh key at its sorted position.
proof fn lemma_vars_map_insert(s: Seq<(EnvKey, Option<Vec<u16>>)>, i: int, e: (EnvKey, Option<Vec<u16>>))
    requires
        0 <= i <= s.len(),
        forall|j: int| 0 <= j < s.len() ==> entry_norm(s[j]) != entry_norm(e),
    ensures
        vars_map_of(s.insert(i, e)) == vars_map_of(s).insert(
            entry_norm(e),
            (e.0.key@, entry_val(e)),
        ),
    decreases s.len(),
{
    let t = s.insert(i, e);
    if i == s.len() {
        assert(t.drop_last() =~= s);
        assert(t.last() == e);
    } else {
        assert(t.drop_last() =~= s.drop_last().insert(i, e));
        assert(t.last() == s.last());
        lemma_vars_map_insert(s.drop_last(), i, e);
        assert(vars_map_of(t) =~= vars_map_of(s).insert(
            entry_norm(e),
            (e.0.key@, entry_val(e)),
        ));
    }
}

/// `vars_map_of` after deleting the entry at a held position.
proof fn lemma_vars_map_remove(s: Seq<(EnvKey, Option<Vec<u16>>)>, i: int)
    requires
        sorted_norms(s),
        0 <= i < s.len(),
    ensures
        vars_map_of(s.remove(i)) == vars_map_of(s).remove(entry_norm(s[i])),
    decreases s.len(),
{
    let t = s.remove(i);
    if i == s.len() - 1 {
        assert(t =~= s.drop_last());
        assert(!vars_map_of(s.drop_last()).dom().contains(entry_norm(s[i]))) by {
            lemma_vars_map_doms(s.drop_last());
            assert forall|j: int| 0 <= j < s.len() - 1 implies entry_norm(s[j]) != entry_norm(s[i]) by {
                assert(lex_lt(entry_norm(s[j]), entry_norm(s[i])));
                lemma_lex_trichotomy(entry_norm(s[j]), entry_norm(s[i]));
            }
        }
        assert(vars_map_of(t) =~= vars_map_of(s).remove(entry_norm(s[i])));
    } else {
        assert(t.drop_last() =~= s.drop_last().remove(i));
        assert(t.last() == s.last());
        lemma_vars_map_remove(s.drop_last(), i);
        assert(entry_norm(s[i]) != entry_norm(s.last())) by {
            assert(lex_lt(entry_norm(s[i]), entry_norm(s.last())));
            lemma_lex_trichotomy(entry_norm(s[i]), entry_norm(s.last()));
        }
        assert(vars_map_of(t) =~= vars_map_of(s).remove(entry_norm(s[i])));
    }
}

/// The domain of the override map is exactly the normalized keys on record.
pub proof fn lemma_vars_map_doms(s: Seq<(EnvKey, Option<Vec<u16>>)>)
    ensures
        forall|n: Seq<u16>|
            vars_map_of(s).dom().contains(n) <==> exists|j: int|
                0 <= j < s.len() && entry_norm(s[j]) == n,
    decreases s.len(),
{
    if s.len() > 0 {
        lemma_vars_map_doms(s.drop_last());
        let m0 = vars_map_of(s.drop_last());
        let ln = entry_norm(s.last());
        assert forall|n: Seq<u16>| vars_map_of(s).dom().contains(n) implies exists|j: int|
            0 <= j < s.len() && entry_norm(s[j]) == n by {
            if n == ln {
                assert(entry_norm(s[s.len() - 1]) == n);
            } else {
                assert(m0.dom().contains(n));
                let j = choose|j: int|
                    0 <= j < s.drop_last().len() && entry_norm(s.drop_last()[j]) == n;
                assert(s.drop_last()[j] == s[j]);
                assert(entry_norm(s[j]) == n);
            }
        }
        assert forall|n: Seq<u16>|
            (exists|j: int| 0 <= j < s.len() && entry_norm(s[j]) == n) implies vars_map_of(
            s,
        ).dom().contains(n) by {
            let j = choose|j: int| 0 <= j < s.len() && entry_norm(s[j]) == n;
            if j < s.len() - 1 {
                assert(s.drop_last()[j] == s[j]);
                assert(entry_norm(s.drop_last()[j]) == n);
                assert(m0.dom().contains(n));
            } else {
                assert(n == ln);
            }
        }
    }
}

/// What the override map records for the entry at a held position.
pub proof fn lemma_vars_map_at(s: Seq<(EnvKey, Option<Vec<u16>>)>, i: int)
    requires
        sorted_norms(s),
        0 <= i < s.len(),
    ensures
        vars_map_of(s).dom().contains(entry_norm(s[i])),
        vars_map_of(s)[entry_norm(s[i])] == (s[i].0.key@, entry_val(s[i])),
    decreases s.len(),
{
    if i == s.len() - 1 {
    } else {
        lemma_vars_map_at(s.drop_last(), i);
        assert(entry_norm(s[i]) != entry_norm(s.last())) by {
            assert(lex_lt(entry_norm(s[i]), entry_norm(s[s.len() - 1])));
            lemma_lex_trichotomy(entry_norm(s[i]), entry_norm(s.last()));
        }
    }
}

/// Insert or replace in the sorted store, keeping recorded casing.
fn store_put(vars: &mut Vec<(EnvKey, Option<Vec<u16>>)>, key: &[u16], val: Option<Vec<u16>>)
    requires
        sorted_norms(old(vars)@),
    ensures
        sorted_norms(final(vars)@),
        vars_map_of(final(vars)@) == vm_set(vars_map_of(old(vars)@), key@, override_view(val)),
{
    let ghost s0 = vars@;
    match store_find(vars, key) {
        StorePos::Found(i) => {
            proof {
                lemma_vars_map_doms(s0);
                lemma_vars_map_at(s0, i as int);
            }
            let ghost e_old = s0[i as int];
            let k = EnvKey { key: to_wvec(vars[i].0.key.as_slice()) };
            let e = (k, val);
            proof {
                assert(entry_norm(e) == entry_norm(e_old));
            }
            vars.set(i, e);
            proof {
                lemma_vars_map_update(s0, i as int, final(vars)@[i as int]);
                assert(sorted_norms(vars@)) by {
                    assert forall|p: int, q: int| 0 <= p < q < vars@.len() implies lex_lt(
                        entry_norm(vars@[p]),
                        entry_norm(vars@[q]),
                    ) by {
                        assert(entry_norm(vars@[p]) == entry_norm(s0[p]));
                        assert(entry_norm(vars@[q]) == entry_norm(s0[q]));
                    }
                }
            }
        },
        StorePos::Missing(i) => {
            proof {
                lemma_vars_map_doms(s0);
                assert forall|j: int| 0 <= j < s0.len() implies entry_norm(s0[j]) != norm_key(
                    key@,
                ) by {
                    lemma_lex_trichotomy(entry_norm(s0[j]), norm_key(key@));
                }
            }
            let k = EnvKey { key: to_wvec(key) };
            let e = (k, val);
            vars.insert(i, e);
            proof {
                lemma_vars_map_insert(s0, i as int, vars@[i as int]);
                assert(sorted_norms(vars@)) by {
                    assert forall|p: int, q: int| 0 <= p < q < vars@.len() implies lex_lt(
                        entry_norm(vars@[p]),
                        entry_norm(vars@[q]),
                    ) by {
                        let ip = if p < i { p } else { p - 1 };
                        let iq = if q < i { q } else { q - 1 };
                        if p == i as int {
                            assert(lex_lt(norm_key(key@), entry_norm(s0[iq])));
                        } else if q == i as int {
                            assert(lex_lt(entry_norm(s0[ip]), norm_key(key@)));
                        } else {
                            assert(lex_lt(entry_norm(s0[ip]), entry_norm(s0[iq])));
                        }
                    }
                }
            }
        },
    }
}

/// Delete from the sorted store, if the key is on record.
fn store_delete(vars: &mut Vec<(EnvKey, Option<Vec<u16>>)>, key: &[u16])
    requires
        sorted_norms(old(vars)@),
    ensures
        sorted_norms(final(vars)@),
        vars_map_of(final(vars)@) == vars_map_of(old(vars)@).remove(norm_key(key@)),
{
    let ghost s0 = vars@;
    match store_find(vars, key) {
        StorePos::Found(i) => {
            vars.remove(i);
            proof {
                lemma_vars_map_remove(s0, i as int);
                assert(sorted_norms(vars@)) by {
                    assert forall|p: int, q: int| 0 <= p < q < vars@.len() implies lex_lt(
                        entry_norm(vars@[p]),
                        entry_norm(vars@[q]),
                    ) by {
                        let ip = if p < i { p } else { p + 1 };
                        let iq = if q < i { q } else { q + 1 };
                        assert(entry_norm(vars@[p]) == entry_norm(s0[ip]));
                        assert(entry_norm(vars@[q]) == entry_norm(s0[iq]));
                    }
                }
            }
        },
        StorePos::Missing(_) => {
            proof {
                lemma_vars_map_doms(s0);
                assert forall|j: int| 0 <= j < s0.len() implies entry_norm(s0[j]) != norm_key(
                    key@,
                ) by {
                    lemma_lex_trichotomy(entry_norm(s0[j]), norm_key(key@));
                }
                assert(vars_map_of(s0).remove(norm_key(key@)) =~= vars_map_of(s0));
            }
        },
    }
}

/// Locate `key` in a merged environment sorted by normalized key.
fn env_find(out: &Vec<(EnvKey, Vec<u16>)>, key: &[u16]) -> (r: StorePos)
    requires
        sorted_env_norms(out@),
    ensures
        match r {
            StorePos::Found(i) => i < out@.len() && env_entry_norm(out@[i as int]) == norm_key(
                key@,
            ),
            StorePos::Missing(i) => {
                &&& i <= out@.len()
                &&& forall|j: int|
                    0 <= j < i ==> lex_lt(env_entry_norm(out@[j]), norm_key(key@))
                &&& forall|j: int|
                    i <= j < out@.len() ==> lex_lt(norm_key(key@), env_entry_norm(out@[j]))
            },
        },
{
    let mut i: usize = 0;
    while i < out.len()
        invariant
            sorted_env_norms(out@),
            0 <= i <= out@.len(),
            forall|j: int| 0 <= j < i ==> lex_lt(env_entry_norm(out@[j]), norm_key(key@)),
        decreases out@.len() - i,
    {
        let c = cmp_norm(key, out[i].0.key.as_slice());
        if c == 0 {
            return StorePos::Found(i);
        }
        if c < 0 {
            proof {
                assert forall|j: int| i <= j < out@.len() implies lex_lt(
                    norm_key(key@),
                    env_entry_norm(out@[j]),
                ) by {
                    if j > i {
                        lemma_lex_transitive(
                            norm_key(key@),
                            env_entry_norm(out@[i as int]),
                            env_entry_norm(out@[j]),
                        );
                    }
                }
            }
            return StorePos::Missing(i);
        }
        i = i + 1;
    }
    StorePos::Missing(i)
}

/// The domain of a merged environment's map is exactly its normalized keys.
pub proof fn lemma_env_map_doms(s: Seq<(EnvKey, Vec<u16>)>)
    ensures
        forall|n: Seq<u16>|
            env_map_of(s).dom().contains(n) <==> exists|j: int|
                0 <= j < s.len() && env_entry_norm(s[j]) == n,
    decreases s.len(),
{
    if s.len() > 0 {
        lemma_env_map_doms(s.drop_last());
        let m0 = env_map_of(s.drop_last());
        let ln = env_entry_norm(s.last());
        assert forall|n: Seq<u16>| env_map_of(s).dom().contains(n) implies exists|j: int|
            0 <= j < s.len() && env_entry_norm(s[j]) == n by {
            if n == ln {
                assert(env_entry_norm(s[s.len() - 1]) == n);
            } else {
                assert(m0.dom().contains(n));
                let j = choose|j: int|
                    0 <= j < s.drop_last().len() && env_entry_norm(s.drop_last()[j]) == n;
                assert(s.drop_last()[j] == s[j]);
                assert(env_entry_norm(s[j]) == n);
            }
        }
        assert forall|n: Seq<u16>|
            (exists|j: int| 0 <= j < s.len() && env_entry_norm(s[j]) == n) implies env_map_of(
            s,
        ).dom().contains(n) by {
            let j = choose|j: int| 0 <= j < s.len() && env_entry_norm(s[j]) == n;
            if j < s.len() - 1 {
                assert(s.drop_last()[j] == s[j]);
                assert(env_entry_norm(s.drop_last()[j]) == n);
                assert(m0.dom().contains(n));
            } else {
                assert(n == ln);
            }
        }
    }
}

/// What a merged environment's map records at a held position.
pub proof fn lemma_env_map_at(s: Seq<(EnvKey, Vec<u16>)>, i: int)
    requires
        sorted_env_norms(s),
        0 <= i < s.len(),
    ensures
        env_map_of(s).dom().contains(env_entry_norm(s[i])),
        env_map_of(s)[env_entry_norm(s[i])] == (s[i].0.key@, s[i].1@),
    decreases s.len(),
{
    if i == s.len() - 1 {
    } else {
        lemma_env_map_at(s.drop_last(), i);
        assert(env_entry_norm(s[i]) != env_entry_norm(s.last())) by {
            assert(lex_lt(env_entry_norm(s[i]), env_entry_norm(s[s.len() - 1])));
            lemma_lex_trichotomy(env_entry_norm(s[i]), env_entry_norm(s.last()));
        }
    }
}

/// `env_map_of` after overwriting the value at a held position.
proof fn lemma_env_map_update(s: Seq<(EnvKey, Vec<u16>)>, i: int, e: (EnvKey, Vec<u16>))
    requires
        sorted_env_norms(s),
        0 <= i < s.len(),
        env_entry_norm(e) == env_entry_norm(s[i]),
        e.0.key@ == s[i].0.key@,
    ensures
        env_map_of(s.update(i, e)) == env_map_of(s).insert(
            env_entry_norm(s[i]),
            (s[i].0.key@, e.1@),
        ),
    decreases s.len(),
{
    let t = s.update(i, e);
    if i == s.len() - 1 {
        assert(t.drop_last() =~= s.drop_last());
        assert(t.last() == e);
        assert(env_map_of(t) =~= env_map_of(s).insert(env_entry_norm(s[i]), (s[i].0.key@, e.1@)));
    } else {
        assert(t.drop_last() =~= s.drop_last().update(i, e));
        assert(t.last() == s.last());
        lemma_env_map_update(s.drop_last(), i, e);
        assert(env_entry_norm(s[i]) != env_entry_norm(s.last())) by {
            assert(lex_lt(env_entry_norm(s[i]), env_entry_norm(s.last())));
            lemma_lex_trichotomy(env_entry_norm(s[i]), env_entry_norm(s.last()));
        }
        assert(env_map_of(t) =~= env_map_of(s).insert(env_entry_norm(s[i]), (s[i].0.key@, e.1@)));
    }
}

/// `env_map_of` after inserting a fresh key at its sorted position.
proof fn lemma_env_map_insert(s: Seq<(EnvKey, Vec<u16>)>, i: int, e: (EnvKey, Vec<u16>))
    requires
        0 <= i <= s.len(),
        forall|j: int| 0 <= j < s.len() ==> env_entry_norm(s[j]) != env_entry_norm(e),
    ensures
        env_map_of(s.insert(i, e)) == env_map_of(s).insert(env_entry_norm(e), (e.0.key@, e.1@)),
    decreases s.len(),
{
    let t = s.insert(i, e);
    if i == s.len() {
        assert(t.drop_last() =~= s);
        assert(t.last() == e);
    } else {
        assert(t.drop_last() =~= s.drop_last().insert(i, e));
        assert(t.last() == s.last());
        lemma_env_map_insert(s.drop_last(), i, e);
        assert(env_map_of(t) =~= env_map_of(s).insert(env_entry_norm(e), (e.0.key@, e.1@)));
    }
}

/// `env_map_of` after deleting the entry at a held position.
proof fn lemma_env_map_remove(s: Seq<(EnvKey, Vec<u16>)>, i: int)
    requires
        sorted_env_norms(s),
        0 <= i < s.len(),
    ensures
        env_map_of(s.remove(i)) == env_map_of(s).remove(env_entry_norm(s[i])),
    decreases s.len(),
{
    let t = s.remove(i);
    if i == s.len() - 1 {
        assert(t =~= s.drop_last());
        assert(!env_map_of(s.drop_last()).dom().contains(env_entry_norm(s[i]))) by {
            lemma_env_map_doms(s.drop_last());
            assert forall|j: int| 0 <= j < s.len() - 1 implies env_entry_norm(s[j])
                != env_entry_norm(s[i]) by {
                assert(lex_lt(env_entry_norm(s[j]), env_entry_norm(s[i])));
                lemma_lex_trichotomy(env_entry_norm(s[j]), env_entry_norm(s[i]));
            }
        }
        assert(env_map_of(t) =~= env_map_of(s).remove(env_entry_norm(s[i])));
    } else {
        assert(t.drop_last() =~= s.drop_last().remove(i));
        assert(t.last() == s.last());
        lemma_env_map_remove(s.drop_last(), i);
        assert(env_entry_norm(s[i]) != env_entry_norm(s.last())) by {
            assert(lex_lt(env_entry_norm(s[i]), env_entry_norm(s.last())));
            lemma_lex_trichotomy(env_entry_norm(s[i]), env_entry_norm(s.last()));
        }
        assert(env_map_of(t) =~= env_map_of(s).remove(env_entry_norm(s[i])));
    }
}

/// Insert or overwrite in a sorted merged environment, keeping the casing
/// already present.
fn env_put(out: &mut Vec<(EnvKey, Vec<u16>)>, key: &[u16], val: Vec<u16>)
    requires
        sorted_env_norms(old(out)@),
    ensures
        sorted_env_norms(final(out)@),
        env_map_of(final(out)@) == env_apply(env_map_of(old(out)@), key@, Some(val@)),
{
    let ghost s0 = out@;
    match env_find(out, key) {
        StorePos::Found(i) => {
            proof {
                lemma_env_map_doms(s0);
                lemma_env_map_at(s0, i as int);
            }
            let k = EnvKey { key: to_wvec(out[i].0.key.as_slice()) };
            let e = (k, val);
            out.set(i, e);
            proof {
                lemma_env_map_update(s0, i as int, final(out)@[i as int]);
                assert(sorted_env_norms(out@)) by {
                    assert forall|p: int, q: int| 0 <= p < q < out@.len() implies lex_lt(
                        env_entry_norm(out@[p]),
                        env_entry_norm(out@[q]),
                    ) by {
                        assert(env_entry_norm(out@[p]) == env_entry_norm(s0[p]));
                        assert(env_entry_norm(out@[q]) == env_entry_norm(s0[q]));
                    }
                }
            }
        },
        StorePos::Missing(i) => {
            proof {
                lemma_env_map_doms(s0);
                assert forall|j: int| 0 <= j < s0.len() implies env_entry_norm(s0[j]) != norm_key(
                    key@,
                ) by {
                    lemma_lex_trichotomy(env_entry_norm(s0[j]), norm_key(key@));
                }
            }
            let k = EnvKey { key: to_wvec(key) };
            let e = (k, val);
            out.insert(i, e);
            proof {
                lemma_env_map_insert(s0, i as int, out@[i as int]);
                assert(sorted_env_norms(out@)) by {
                    assert forall|p: int, q: int| 0 <= p < q < out@.len() implies lex_lt(
                        env_entry_norm(out@[p]),
                        env_entry_norm(out@[q]),
                    ) by {
                        let ip = if p < i { p } else { p - 1 };
                        let iq = if q < i { q } else { q - 1 };
                        if p == i as int {
                            assert(lex_lt(norm_key(key@), env_entry_norm(s0[iq])));
                        } else if q == i as int {
                            assert(lex_lt(env_entry_norm(s0[ip]), norm_key(key@)));
                        } else {
                            assert(lex_lt(env_entry_norm(s0[ip]), env_entry_norm(s0[iq])));
                        }
                    }
                }
            }
        },
    }
}

/// Delete from a sorted merged environment, if the key is present.
fn env_delete(out: &mut Vec<(EnvKey, Vec<u16>)>, key: &[u16])
    requires
        sorted_env_norms(old(out)@),
    ensures
        sorted_env_norms(final(out)@),
        env_map_of(final(out)@) == env_apply(env_map_of(old(out)@), key@, None),
{
    let ghost s0 = out@;
    match env_find(out, key) {
        StorePos::Found(i) => {
            out.remove(i);
            proof {
                lemma_env_map_remove(s0, i as int);
                assert(sorted_env_norms(out@)) by {
                    assert forall|p: int, q: int| 0 <= p < q < out@.len() implies lex_lt(
                        env_entry_norm(out@[p]),
                        env_entry_norm(out@[q]),
                    ) by {
                        let ip = if p < i { p } else { p + 1 };
                        let iq = if q < i { q } else { q + 1 };
                        assert(env_entry_norm(out@[p]) == env_entry_norm(s0[ip]));
                        assert(env_entry_norm(out@[q]) == env_entry_norm(s0[iq]));
                    }
                }
            }
        },
        StorePos::Missing(_) => {
            proof {
                lemma_env_map_doms(s0);
                assert forall|j: int| 0 <= j < s0.len() implies env_entry_norm(s0[j]) != norm_key(
                    key@,
                ) by {
                    lemma_lex_trichotomy(env_entry_norm(s0[j]), norm_key(key@));
                }
                assert(env_map_of(s0).remove(norm_key(key@)) =~= env_map_of(s0));
            }
        },
    }
}

} // verus!
