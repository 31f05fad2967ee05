//! Spawn preparation: everything the native process-creation call needs,
//! computed and validated before any native call is attempted.
//!
//! The caller's side of a spawn is: capture the environment if it changed
//! ([`CommandEnv::capture_if_changed`](crate::env::CommandEnv::capture_if_changed)),
//! resolve the program against a `PATH` override if one is present (the
//! [`lookup`](crate::lookup) module computes the candidates, the caller
//! probes them), then build a [`SpawnPlan`] here and hand its buffers to
//! the native call.

use vstd::prelude::*;

use crate::cmdline::{args_view, make_command_line, spec_command_line};
use crate::command::Command;
use crate::env::EnvKey;
use crate::envblock::{make_dir_block, make_env_block, spec_env_block};
use crate::error::Error;
use crate::wide::{contains_nul, NUL};

verus! {

/// The native attribute identifier under which the pseudo-console handle
/// is registered in a process-thread attribute list.
pub const PROC_THREAD_ATTRIBUTE_PSEUDOCONSOLE: usize = 0x0002_0016;

/// The width, in character cells, of the allocated pseudo-console.
pub const PTY_COLUMNS: i16 = 120;

/// The height, in character cells, of the allocated pseudo-console.
pub const PTY_ROWS: i16 = 120;

/// How many 8-byte buffer units hold an attribute list of the given size:
/// the size divided by eight, rounded up.
pub fn attribute_list_units(size_bytes: usize) -> (r: usize)
    ensures
        r == (size_bytes + 7) as int / 8,
        8 * r >= size_bytes,
        8 * r < size_bytes + 8,
{
    if size_bytes % 8 == 0 {
        size_bytes / 8
    } else {
        size_bytes / 8 + 1
    }
}

/// The program a spawn actually runs: the resolved candidate when the
/// `PATH`-override lookup found one, the requested program otherwise.
pub open spec fn effective_program(cmd: Command, resolved: Option<Vec<u16>>) -> Seq<u16> {
    match resolved {
        Some(p) => p@,
        None => cmd.program@,
    }
}

/// Does a captured environment hold a nul unit anywhere?
pub open spec fn captured_has_nul(s: Seq<(EnvKey, Vec<u16>)>) -> bool {
    exists|i: int|
        0 <= i < s.len() && (contains_nul(s[i].0.key@) || contains_nul(s[i].1@))
}

/// Everything the native process-creation call needs, fully encoded.
pub struct SpawnPlan {
    /// The nul-terminated command line.
    pub cmdline: Vec<u16>,
    /// The environment block, or nothing when the child inherits the
    /// ambient environment.
    pub env_block: Option<Vec<u16>>,
    /// The nul-terminated working directory, or nothing when the child
    /// inherits the caller's.
    pub dir: Option<Vec<u16>>,
}

/// Build the spawn plan for a command.
///
/// `captured` is the merged environment when the overrides changed
/// anything, `None` to inherit; `resolved` is the program file that a
/// `PATH`-override lookup found, `None` to run the program as requested.
///
/// Fails with [`Error::InvalidInput`] exactly when the effective program,
/// an argument, a captured key or value, or the working directory holds a
/// nul unit — so a plan is only ever produced from data every native call
/// can take.
pub fn prepare_spawn(
    cmd: &Command,
    captured: &Option<Vec<(EnvKey, Vec<u16>)>>,
    resolved: &Option<Vec<u16>>,
) -> (r: Result<SpawnPlan, Error>)
    ensures
        r is Ok <==> {
            &&& !contains_nul(effective_program(*cmd, *resolved))
            &&& forall|i: int| 0 <= i < cmd.args@.len() ==> !contains_nul(cmd.args@[i]@)
            &&& (*captured matches Some(env) ==> !captured_has_nul(env@))
            &&& (cmd.cwd matches Some(d) ==> !contains_nul(d@))
        },
        r is Ok ==> {
            &&& r->Ok_0.cmdline@ == spec_command_line(
                effective_program(*cmd, *resolved),
                args_view(cmd.args@),
            ) + seq![NUL]
            &&& (r->Ok_0.env_block is Some <==> *captured is Some)
            &&& (*captured matches Some(env) ==> r->Ok_0.env_block->0@ == spec_env_block(env@))
            &&& (r->Ok_0.dir is Some <==> cmd.cwd is Some)
            &&& (cmd.cwd matches Some(d) ==> r->Ok_0.dir->0@ == d@ + seq![NUL])
        },
        r is Err ==> r->Err_0 == Error::InvalidInput,
{
    let program: &Vec<u16> = match resolved {
        Some(p) => p,
        None => &cmd.program,
    };
    let mut cmdline = match make_command_line(program.as_slice(), cmd.args.as_slice()) {
        Ok(c) => c,
        Err(e) => {
            return Err(e);
        },
    };
    cmdline.push(NUL);
    let env_block = match captured {
        Some(env) => {
            match make_env_block(env) {
                Ok(b) => Some(b),
                Err(e) => {
                    proof {
                        let j = choose|j: int|
                            0 <= j < env@.len() && !(!contains_nul(env@[j].0.key@) && !contains_nul(
                                env@[j].1@,
                            ));
                        assert(captured_has_nul(env@));
                    }
                    return Err(e);
                },
            }
        },
        None => None,
    };
    let dir = match &cmd.cwd {
        Some(d) => {
            match make_dir_block(d.as_slice()) {
                Ok(b) => Some(b),
                Err(e) => {
                    return Err(e);
                },
            }
        },
        None => None,
    };
    proof {
        if *captured is Some {
            let env = (*captured)->0;
            assert(!captured_has_nul(env@)) by {
                assert forall|i: int|
                    0 <= i < env@.len() implies !contains_nul(env@[i].0.key@) && !contains_nul(
                    env@[i].1@,
                ) by {}
            }
        }
    }
    Ok(SpawnPlan { cmdline, env_block, dir })
}

} // verus!
