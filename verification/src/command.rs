//! The portable command builder.
//!
//! A [`Command`] collects a program, its arguments, a set of environment
//! overrides and an optional working directory, through chainable builder
//! methods that never fail: all validation happens at spawn-preparation
//! time.

use vstd::prelude::*;

use crate::cmdline::args_view;
use crate::env::{snapshot_view, vm_set, CommandEnv};
use crate::wide::to_wvec;

verus! {

/// Folding a sequence of key/value pairs into an override map, in order.
pub open spec fn vm_set_all(
    m: Map<Seq<u16>, (Seq<u16>, Option<Seq<u16>>)>,
    pairs: Seq<(Seq<u16>, Seq<u16>)>,
) -> Map<Seq<u16>, (Seq<u16>, Option<Seq<u16>>)>
    decreases pairs.len(),
{
    if pairs.len() == 0 {
        m
    } else {
        vm_set(vm_set_all(m, pairs.drop_last()), pairs.last().0, Some(pairs.last().1))
    }
}

/// A process to be spawned on a pseudo-terminal: program, arguments,
/// environment overrides and working directory.
#[derive(Debug)]
pub struct Command {
    /// The program to run.
    pub program: Vec<u16>,
    /// Its arguments, in order.
    pub args: Vec<Vec<u16>>,
    /// The recorded environment overrides.
    pub env: CommandEnv,
    /// The child's working directory, when one was requested.
    pub cwd: Option<Vec<u16>>,
}

impl Command {
    /// The builder's invariant: its override store is well-formed.
    pub open spec fn wf(self) -> bool {
        self.env.wf()
    }

    /// A builder for `program`, with no arguments, no overrides and no
    /// working directory.
    pub fn new(program: &[u16]) -> (r: Command)
        ensures
            r.wf(),
            r.program@ == program@,
            r.args@.len() == 0,
            !r.env.cleared,
            r.env.vars@.len() == 0,
            r.env.vm() == Map::<Seq<u16>, (Seq<u16>, Option<Seq<u16>>)>::empty(),
            r.cwd is None,
    {
        Command { program: to_wvec(program), args: Vec::new(), env: CommandEnv::new(), cwd: None }
    }

    /// Append one argument.
    pub fn arg(&mut self, a: &[u16]) -> (r: &mut Command)
        requires
            old(self).wf(),
        ensures
            r.wf(),
            r.program@ == old(self).program@,
            args_view(r.args@) == args_view(old(self).args@).push(a@),
            r.env == old(self).env,
            r.cwd == old(self).cwd,
            *final(self) == *final(r),
    {
        let ghost args_pre = self.args@;
        self.args.push(to_wvec(a));
        proof {
            assert(args_view(self.args@) =~= args_view(args_pre).push(a@));
        }
        self
    }

    /// Append several arguments, in order.
    pub fn args(&mut self, list: &Vec<Vec<u16>>) -> (r: &mut Command)
        requires
            old(self).wf(),
        ensures
            r.wf(),
            r.program@ == old(self).program@,
            args_view(r.args@) == args_view(old(self).args@) + args_view(list@),
            r.env == old(self).env,
            r.cwd == old(self).cwd,
            *final(self) == *final(r),
    {
        let ghost args_pre = self.args@;
        let mut i: usize = 0;
        while i < list.len()
            invariant
                0 <= i <= list@.len(),
                self.env == old(self).env,
                self.cwd == old(self).cwd,
                self.program@ == old(self).program@,
                self.env.wf(),
                args_view(self.args@) == args_view(args_pre) + args_view(list@).take(i as int),
            decreases list@.len() - i,
        {
            let ghost cur = self.args@;
            self.args.push(to_wvec(list[i].as_slice()));
            proof {
                assert(args_view(self.args@) =~= args_view(cur).push(list@[i as int]@));
                assert(args_view(args_pre) + args_view(list@).take(i + 1) =~= (args_view(args_pre)
                    + args_view(list@).take(i as int)).push(list@[i as int]@));
            }
            i = i + 1;
        }
        proof {
            assert(args_view(list@).take(list@.len() as int) =~= args_view(list@));
        }
        self
    }

    /// Record an environment override: set `key` to `val`.
    pub fn env(&mut self, key: &[u16], val: &[u16]) -> (r: &mut Command)
        requires
            old(self).wf(),
        ensures
            r.wf(),
            r.program@ == old(self).program@,
            args_view(r.args@) == args_view(old(self).args@),
            r.cwd == old(self).cwd,
            r.env.cleared == old(self).env.cleared,
            r.env.vm() == vm_set(old(self).env.vm(), key@, Some(val@)),
            *final(self) == *final(r),
    {
        self.env.set(key, val);
        self
    }

    /// Record several environment overrides, in call order: later entries
    /// override earlier ones for the same key.
    pub fn envs(&mut self, pairs: &Vec<(Vec<u16>, Vec<u16>)>) -> (r: &mut Command)
        requires
            old(self).wf(),
        ensures
            r.wf(),
            r.program@ == old(self).program@,
            args_view(r.args@) == args_view(old(self).args@),
            r.cwd == old(self).cwd,
            r.env.cleared == old(self).env.cleared,
            r.env.vm() == vm_set_all(old(self).env.vm(), snapshot_view(pairs@)),
            *final(self) == *final(r),
    {
        let ghost pv = snapshot_view(pairs@);
        let mut i: usize = 0;
        while i < pairs.len()
            invariant
                pv == snapshot_view(pairs@),
                0 <= i <= pairs@.len(),
                self.program@ == old(self).program@,
                args_view(self.args@) == args_view(old(self).args@),
                self.cwd == old(self).cwd,
                self.env.wf(),
                self.env.cleared == old(self).env.cleared,
                self.env.vm() == vm_set_all(old(self).env.vm(), pv.take(i as int)),
            decreases pairs@.len() - i,
        {
            self.env.set(pairs[i].0.as_slice(), pairs[i].1.as_slice());
            proof {
                assert(pv.take(i + 1).drop_last() =~= pv.take(i as int));
                assert(pv.take(i + 1).last() == pv[i as int]);
            }
            i = i + 1;
        }
        proof {
            assert(pv.take(pairs@.len() as int) =~= pv);
        }
        self
    }

    /// Record that `key` is to be removed from the child's environment.
    pub fn env_remove(&mut self, key: &[u16]) -> (r: &mut Command)
        requires
            old(self).wf(),
        ensures
            r.wf(),
            r.program@ == old(self).program@,
            args_view(r.args@) == args_view(old(self).args@),
            r.cwd == old(self).cwd,
            r.env.cleared == old(self).env.cleared,
            old(self).env.cleared ==> r.env.vm() == old(self).env.vm().remove(
                crate::wide::norm_key(key@),
            ),
            !old(self).env.cleared ==> r.env.vm() == vm_set(old(self).env.vm(), key@, None),
            *final(self) == *final(r),
    {
        self.env.remove(key);
        self
    }

    /// Do not inherit the ambient environment.
    pub fn env_clear(&mut self) -> (r: &mut Command)
        requires
            old(self).wf(),
        ensures
            r.wf(),
            r.program@ == old(self).program@,
            args_view(r.args@) == args_view(old(self).args@),
            r.cwd == old(self).cwd,
            r.env.cleared,
            r.env.vm() == Map::<Seq<u16>, (Seq<u16>, Option<Seq<u16>>)>::empty(),
            *final(self) == *final(r),
    {
        self.env.clear();
        self
    }

    /// Set the child's working directory, replacing any previous value.
    pub fn current_dir(&mut self, dir: &[u16]) -> (r: &mut Command)
        requires
            old(self).wf(),
        ensures
            r.wf(),
            r.program@ == old(self).program@,
            args_view(r.args@) == args_view(old(self).args@),
            r.env == old(self).env,
            r.cwd is Some && r.cwd->0@ == dir@,
            *final(self) == *final(r),
    {
        self.cwd = Some(to_wvec(dir));
        self
    }
}

} // verus!
