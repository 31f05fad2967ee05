//! The lifecycle of a spawned pty session.
//!
//! A [`PtyProcess`] owns the child's handles.  The reader/writer pair can
//! be retrieved exactly once; the kill timeout governs how long graceful
//! termination is given before escalating to an unconditional kill; the
//! exit status is a non-blocking record of what has been observed of the
//! child.

use vstd::prelude::*;

use crate::error::Error;

verus! {

/// The parent-side endpoint the child's output is read from.  Holds the
/// raw handle of the endpoint; move-only, so exactly one owner closes it.
#[derive(Debug)]
pub struct PtyReader {
    /// The raw native handle value.
    pub handle: u64,
}

/// The parent-side endpoint the child's input is written to.  Holds the
/// raw handle of the endpoint; move-only, so exactly one owner closes it.
#[derive(Debug)]
pub struct PtyWriter {
    /// The raw native handle value.
    pub handle: u64,
}

/// What has been observed of a finished child.
#[derive(Clone, Copy, Debug, PartialEq, Eq, Structural)]
pub enum ExitStatus {
    /// The child exited on its own, with this exit code.
    Exited(i32),
    /// The child was terminated, by this signal or termination code.
    Signaled(i32),
}

/// What a termination step should do next.
#[derive(Clone, Copy, Debug, PartialEq, Eq, Structural)]
pub enum TerminateAction {
    /// The child is already gone; nothing is left to do.
    AlreadyDone,
    /// Keep waiting for the graceful request to take effect.
    KeepWaiting,
    /// The deadline has passed: kill the child unconditionally and reap it.
    ForceKill,
}

/// A spawned child attached to a pseudo-terminal.
pub struct PtyProcess {
    /// The reader/writer pair, present until retrieved once.
    pub io: Option<(PtyReader, PtyWriter)>,
    /// The raw handle of the pty or console the child is attached to.
    pub pty_handle: u64,
    /// The raw handle or identifier of the child process itself.
    pub process_handle: u64,
    /// How many milliseconds graceful termination is given before the
    /// unconditional kill; `None` waits indefinitely.
    pub kill_timeout_ms: Option<u64>,
    /// The child's exit status, once observed.
    pub status: Option<ExitStatus>,
}

impl PtyProcess {
    /// Wrap the handles of a freshly spawned child: the I/O pair is held
    /// and not yet retrieved, no kill timeout is set, and no exit has been
    /// observed.
    pub fn init(reader: PtyReader, writer: PtyWriter, pty_handle: u64, process_handle: u64) -> (r:
        PtyProcess)
        ensures
            r.io == Some((reader, writer)),
            r.pty_handle == pty_handle,
            r.process_handle == process_handle,
            r.kill_timeout_ms is None,
            r.status is None,
    {
        PtyProcess {
            io: Some((reader, writer)),
            pty_handle,
            process_handle,
            kill_timeout_ms: None,
            status: None,
        }
    }

    /// Retrieve the reader/writer pair, exactly once.
    ///
    /// The first call returns the pair and leaves the slot empty; every
    /// later call fails with [`Error::HandleAlreadyTaken`] and changes
    /// nothing.
    pub fn get_io_handles(&mut self) -> (r: Result<(PtyReader, PtyWriter), Error>)
        ensures
            old(self).io is Some ==> r is Ok && r->Ok_0 == old(self).io->0 && final(self).io
                is None,
            old(self).io is None ==> r is Err && r->Err_0 == Error::HandleAlreadyTaken
                && *final(self) == *old(self),
            final(self).pty_handle == old(self).pty_handle,
            final(self).process_handle == old(self).process_handle,
            final(self).kill_timeout_ms == old(self).kill_timeout_ms,
            final(self).status == old(self).status,
    {
        match self.io.take() {
            Some(pair) => Ok(pair),
            None => Err(Error::HandleAlreadyTaken),
        }
    }

    /// Configure how long graceful termination is given before the
    /// unconditional kill; `None` waits indefinitely.
    pub fn set_kill_timeout(&mut self, timeout_ms: Option<u64>)
        ensures
            final(self).kill_timeout_ms == timeout_ms,
            final(self).io == old(self).io,
            final(self).pty_handle == old(self).pty_handle,
            final(self).process_handle == old(self).process_handle,
            final(self).status == old(self).status,
    {
        self.kill_timeout_ms = timeout_ms;
    }

    /// The child's exit status, if it has been observed; `None` while the
    /// child is (as far as observed) still running.  Non-blocking.
    pub fn exit_status(&self) -> (r: Option<ExitStatus>)
        ensures
            r == self.status,
    {
        self.status
    }

    /// Record an observed exit, after the caller's non-blocking status
    /// poll reaped the child.
    pub fn record_exit(&mut self, st: ExitStatus)
        ensures
            final(self).status == Some(st),
            final(self).io == old(self).io,
            final(self).pty_handle == old(self).pty_handle,
            final(self).process_handle == old(self).process_handle,
            final(self).kill_timeout_ms == old(self).kill_timeout_ms,
    {
        self.status = Some(st);
    }

    /// One step of the graceful-then-forceful termination policy, taken
    /// after graceful termination was requested: given how long the
    /// graceful request has been pending and whether the child has exited,
    /// decide what to do next.  Without a kill timeout, the wait never
    /// escalates.
    pub fn termination_step(&self, elapsed_ms: u64, exited: bool) -> (r: TerminateAction)
        ensures
            exited ==> r is AlreadyDone,
            !exited && self.kill_timeout_ms is Some && elapsed_ms >= self.kill_timeout_ms->0
                ==> r is ForceKill,
            !exited && (self.kill_timeout_ms is None || elapsed_ms < self.kill_timeout_ms->0)
                ==> r is KeepWaiting,
    {
        if exited {
            TerminateAction::AlreadyDone
        } else {
            match self.kill_timeout_ms {
                Some(t) => if elapsed_ms >= t {
                    TerminateAction::ForceKill
                } else {
                    TerminateAction::KeepWaiting
                },
                None => TerminateAction::KeepWaiting,
            }
        }
    }
}

} // verus!
