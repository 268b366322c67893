//! The per-file protocol: the ordered reads and writes that patch one
//! destination file, as a state machine. The machine decides; an
//! unverified driver performs each requested operation against the file
//! system and reports back what happened. The contracts pin the order —
//! in particular, the destination is never overwritten before the backup
//! of its original header has been written and its flush confirmed.

use vstd::prelude::*;
use crate::errors::Error;

verus! {

/// What the driver must do next to the files of one patch.
#[derive(Debug, PartialEq, Eq)]
pub enum Op {
    /// Read exactly `count` bytes from the start of the destination.
    ReadDestHeader { count: usize },
    /// Create the backup artifact, write `data` to it, and flush it.
    WriteBackup { data: Vec<u8> },
    /// Read exactly `count` bytes from the start of the source.
    ReadSourceHeader { count: usize },
    /// Write `data` at offset zero of the destination and flush.
    OverwriteDestHeader { data: Vec<u8> },
    /// Read the destination's current length.
    ReadDestLength,
    /// Set the destination's length to `new_len`.
    SetDestLength { new_len: u64 },
    /// Nothing is left to do for this file.
    Finished,
}

/// What the driver reports after performing the op it was given.
#[derive(Debug, PartialEq, Eq)]
pub enum Event {
    /// A read completed; `data` holds what was read (possibly short).
    BytesRead { data: Vec<u8> },
    /// A write together with its flush, or a length change, completed.
    Flushed,
    /// The destination's current length.
    Length { len: u64 },
    /// The operation failed in the file system.
    IoFailed,
}

/// Where the protocol stands: each waiting phase names the op whose
/// outcome the machine expects next.
#[derive(Debug, Clone, Copy, PartialEq, Eq, Structural)]
pub enum Phase {
    DestHeaderRequested,
    BackupRequested,
    SourceHeaderRequested,
    OverwriteRequested,
    LengthRequested,
    TruncateRequested,
    Done,
    Failed,
}

/// One destination file's patch in progress.
pub struct FileTask {
    pub header_size: usize,
    pub shrink: u64,
    pub phase: Phase,
}

/// `t` halted with an error.
pub open spec fn failed_task(t: FileTask) -> FileTask {
    FileTask { phase: Phase::Failed, ..t }
}

/// `t` moved on to phase `p`.
pub open spec fn task_in(t: FileTask, p: Phase) -> FileTask {
    FileTask { phase: p, ..t }
}

/// The whole transition relation, one step: what the task becomes and
/// what it answers when, standing in `t.phase`, the driver reports `ev`.
pub open spec fn step_spec(t: FileTask, ev: Event) -> (FileTask, Result<Op, Error>) {
    if ev is IoFailed {
        (failed_task(t), Err(Error::Io))
    } else {
        match t.phase {
            Phase::DestHeaderRequested => match ev {
                Event::BytesRead { data } => if data@.len() < t.header_size {
                    (failed_task(t), Err(Error::ShortRead))
                } else {
                    (task_in(t, Phase::BackupRequested), Ok(Op::WriteBackup { data }))
                },
                _ => (failed_task(t), Err(Error::Configuration)),
            },
            Phase::BackupRequested => match ev {
                Event::Flushed => (
                    task_in(t, Phase::SourceHeaderRequested),
                    Ok(Op::ReadSourceHeader { count: t.header_size }),
                ),
                _ => (failed_task(t), Err(Error::Configuration)),
            },
            Phase::SourceHeaderRequested => match ev {
                Event::BytesRead { data } => if data@.len() < t.header_size {
                    (failed_task(t), Err(Error::ShortRead))
                } else {
                    (task_in(t, Phase::OverwriteRequested), Ok(Op::OverwriteDestHeader { data }))
                },
                _ => (failed_task(t), Err(Error::Configuration)),
            },
            Phase::OverwriteRequested => match ev {
                Event::Flushed => (task_in(t, Phase::LengthRequested), Ok(Op::ReadDestLength)),
                _ => (failed_task(t), Err(Error::Configuration)),
            },
            Phase::LengthRequested => match ev {
                Event::Length { len } => if t.shrink > len {
                    (failed_task(t), Err(Error::Underflow))
                } else {
                    (
                        task_in(t, Phase::TruncateRequested),
                        Ok(Op::SetDestLength { new_len: (len - t.shrink) as u64 }),
                    )
                },
                _ => (failed_task(t), Err(Error::Configuration)),
            },
            Phase::TruncateRequested => match ev {
                Event::Flushed => (task_in(t, Phase::Done), Ok(Op::Finished)),
                _ => (failed_task(t), Err(Error::Configuration)),
            },
            Phase::Done => (failed_task(t), Err(Error::Configuration)),
            Phase::Failed => (failed_task(t), Err(Error::Configuration)),
        }
    }
}

impl FileTask {
    /// A fresh task for one destination file.
    pub fn new(header_size: usize, shrink: u64) -> (t: FileTask)
        ensures
            t.header_size == header_size,
            t.shrink == shrink,
            t.phase is DestHeaderRequested,
    {
        FileTask { header_size, shrink, phase: Phase::DestHeaderRequested }
    }

    /// The op that starts the protocol for this file.
    pub fn first_op(&self) -> (op: Op)
        ensures
            op == (Op::ReadDestHeader { count: self.header_size }),
    {
        Op::ReadDestHeader { count: self.header_size }
    }

    /// Feed in the outcome of the op the driver just performed; out comes
    /// the next op, or the error that ends this file's patch.
    pub fn step(&mut self, ev: Event) -> (r: Result<Op, Error>)
        ensures
            *final(self) == step_spec(*old(self), ev).0,
            r == step_spec(*old(self), ev).1,
    {
        match ev {
            Event::IoFailed => {
                self.phase = Phase::Failed;
                Err(Error::Io)
            },
            Event::BytesRead { data } => match self.phase {
                Phase::DestHeaderRequested => {
                    if data.len() < self.header_size {
                        self.phase = Phase::Failed;
                        Err(Error::ShortRead)
                    } else {
                        self.phase = Phase::BackupRequested;
                        Ok(Op::WriteBackup { data })
                    }
                },
                Phase::SourceHeaderRequested => {
                    if data.len() < self.header_size {
                        self.phase = Phase::Failed;
                        Err(Error::ShortRead)
                    } else {
                        self.phase = Phase::OverwriteRequested;
                        Ok(Op::OverwriteDestHeader { data })
                    }
                },
                _ => {
                    self.phase = Phase::Failed;
                    Err(Error::Configuration)
                },
            },
            Event::Flushed => match self.phase {
                Phase::BackupRequested => {
                    self.phase = Phase::SourceHeaderRequested;
                    Ok(Op::ReadSourceHeader { count: self.header_size })
                },
                Phase::OverwriteRequested => {
                    self.phase = Phase::LengthRequested;
                    Ok(Op::ReadDestLength)
                },
                Phase::TruncateRequested => {
                    self.phase = Phase::Done;
                    Ok(Op::Finished)
                },
                _ => {
                    self.phase = Phase::Failed;
                    Err(Error::Configuration)
                },
            },
            Event::Length { len } => match self.phase {
                Phase::LengthRequested => match crate::bytes::new_length(len, self.shrink) {
                    Ok(new_len) => {
                        self.phase = Phase::TruncateRequested;
                        Ok(Op::SetDestLength { new_len })
                    },
                    Err(e) => {
                        self.phase = Phase::Failed;
                        Err(e)
                    },
                },
                _ => {
                    self.phase = Phase::Failed;
                    Err(Error::Configuration)
                },
            },
        }
    }
}

/// The task after a whole sequence of driver reports has been fed in.
pub open spec fn run_task(t: FileTask, evs: Seq<Event>) -> FileTask
    decreases evs.len(),
{
    if evs.len() == 0 {
        t
    } else {
        run_task(step_spec(t, evs[0]).0, evs.drop_first())
    }
}

/// The task after the first `n` reports of `evs`.
pub open spec fn task_after(t0: FileTask, evs: Seq<Event>, n: int) -> FileTask {
    run_task(t0, evs.take(n))
}

/// The machine's answer to report `evs[n]`.
pub open spec fn answer_to(t0: FileTask, evs: Seq<Event>, n: int) -> Result<Op, Error> {
    step_spec(task_after(t0, evs, n), evs[n]).1
}

/// The answer to report `j` asked the driver to write the backup.
pub open spec fn asked_backup_write(t0: FileTask, evs: Seq<Event>, j: int) -> bool {
    answer_to(t0, evs, j) matches Ok(op) && op is WriteBackup
}

/// Report `k` confirmed the flush of the backup the machine was waiting on.
pub open spec fn backup_flush_acked(t0: FileTask, evs: Seq<Event>, k: int) -> bool {
    evs[k] is Flushed && task_after(t0, evs, k).phase is BackupRequested
}

/// Report `k` confirmed the flush of the destination-header overwrite.
pub open spec fn overwrite_flush_acked(t0: FileTask, evs: Seq<Event>, k: int) -> bool {
    evs[k] is Flushed && task_after(t0, evs, k).phase is OverwriteRequested
}

/// The phases the machine reaches only once the overwrite is confirmed.
pub open spec fn past_overwrite(p: Phase) -> bool {
    ||| p is LengthRequested
    ||| p is TruncateRequested
    ||| p is Done
}

/// The phases the machine reaches only once the backup flush is confirmed.
pub open spec fn past_backup(p: Phase) -> bool {
    ||| p is SourceHeaderRequested
    ||| p is OverwriteRequested
    ||| p is LengthRequested
    ||| p is TruncateRequested
    ||| p is Done
}

proof fn lemma_run_task_push(t: FileTask, evs: Seq<Event>, e: Event)
    ensures
        run_task(t, evs.push(e)) == step_spec(run_task(t, evs), e).0,
    decreases evs.len(),
{
    let s = evs.push(e);
    assert(s.len() > 0);
    assert(run_task(t, s) == run_task(step_spec(t, s[0]).0, s.drop_first()));
    if evs.len() == 0 {
        assert(s.drop_first() =~= Seq::<Event>::empty());
        assert(s[0] == e);
        assert(run_task(step_spec(t, e).0, s.drop_first()) == step_spec(t, e).0);
    } else {
        assert(s[0] == evs[0]);
        assert(s.drop_first() =~= evs.drop_first().push(e));
        lemma_run_task_push(step_spec(t, evs[0]).0, evs.drop_first(), e);
        assert(run_task(t, evs) == run_task(step_spec(t, evs[0]).0, evs.drop_first()));
    }
}

proof fn lemma_task_after_step(t0: FileTask, evs: Seq<Event>, n: int)
    requires
        1 <= n <= evs.len(),
    ensures
        task_after(t0, evs, n) == step_spec(task_after(t0, evs, n - 1), evs[n - 1]).0,
{
    assert(evs.take(n) =~= evs.take(n - 1).push(evs[n - 1]));
    lemma_run_task_push(t0, evs.take(n - 1), evs[n - 1]);
}

proof fn lemma_backup_history(t0: FileTask, evs: Seq<Event>, n: int)
    requires
        t0.phase is DestHeaderRequested,
        0 <= n <= evs.len(),
    ensures
        past_backup(task_after(t0, evs, n).phase) ==> exists|k: int|
            0 <= k < n && #[trigger] backup_flush_acked(t0, evs, k),
        task_after(t0, evs, n).phase is BackupRequested ==> exists|j: int|
            0 <= j < n && #[trigger] asked_backup_write(t0, evs, j),
    decreases n,
{
    if n == 0 {
        assert(evs.take(0) =~= Seq::<Event>::empty());
    } else {
        lemma_backup_history(t0, evs, n - 1);
        lemma_task_after_step(t0, evs, n);
        let prev = task_after(t0, evs, n - 1);
        let cur = task_after(t0, evs, n);
        if past_backup(cur.phase) {
            if past_backup(prev.phase) {
                let k0: int = choose|k: int|
                    0 <= k < n - 1 && #[trigger] backup_flush_acked(t0, evs, k);
                assert(backup_flush_acked(t0, evs, k0));
            } else {
                assert(prev.phase is BackupRequested && evs[n - 1] is Flushed);
                assert(backup_flush_acked(t0, evs, n - 1));
            }
        }
        if cur.phase is BackupRequested {
            assert(asked_backup_write(t0, evs, n - 1));
        }
    }
}

proof fn lemma_run_task_config(t: FileTask, evs: Seq<Event>)
    ensures
        run_task(t, evs).header_size == t.header_size,
        run_task(t, evs).shrink == t.shrink,
    decreases evs.len(),
{
    if evs.len() > 0 {
        lemma_run_task_config(step_spec(t, evs[0]).0, evs.drop_first());
    }
}

proof fn lemma_overwrite_history(t0: FileTask, evs: Seq<Event>, n: int)
    requires
        t0.phase is DestHeaderRequested,
        0 <= n <= evs.len(),
    ensures
        past_overwrite(task_after(t0, evs, n).phase) ==> exists|k: int|
            0 <= k < n && #[trigger] overwrite_flush_acked(t0, evs, k),
    decreases n,
{
    if n == 0 {
        assert(evs.take(0) =~= Seq::<Event>::empty());
    } else {
        lemma_overwrite_history(t0, evs, n - 1);
        lemma_task_after_step(t0, evs, n);
        let prev = task_after(t0, evs, n - 1);
        let cur = task_after(t0, evs, n);
        if past_overwrite(cur.phase) {
            if past_overwrite(prev.phase) {
                let k0: int = choose|k: int|
                    0 <= k < n - 1 && #[trigger] overwrite_flush_acked(t0, evs, k);
                assert(overwrite_flush_acked(t0, evs, k0));
            } else {
                assert(prev.phase is OverwriteRequested && evs[n - 1] is Flushed);
                assert(overwrite_flush_acked(t0, evs, n - 1));
            }
        }
    }
}

/// Truncation follows replacement: in any run from a fresh task, the
/// machine asks to set the destination's length only once the overwrite
/// of its header has been confirmed (report `k`), and only to the length
/// it was told afterwards, less the shrink amount.
pub proof fn lemma_truncate_after_overwrite(t0: FileTask, evs: Seq<Event>, i: int)
    requires
        t0.phase is DestHeaderRequested,
        0 <= i < evs.len(),
        answer_to(t0, evs, i) matches Ok(op) && op is SetDestLength,
    ensures
        exists|k: int| 0 <= k < i && #[trigger] overwrite_flush_acked(t0, evs, k),
        evs[i] matches Event::Length { len } && t0.shrink <= len && answer_to(t0, evs, i)
            == Ok::<Op, Error>(Op::SetDestLength { new_len: (len - t0.shrink) as u64 }),
{
    assert(task_after(t0, evs, i).phase is LengthRequested);
    lemma_run_task_config(t0, evs.take(i));
    lemma_overwrite_history(t0, evs, i);
}

/// No error is recovered: once the protocol has failed, every further
/// report leaves it failed, and no further operation is handed out.
pub proof fn lemma_failed_stays_failed(t: FileTask, ev: Event)
    requires
        t.phase is Failed,
    ensures
        step_spec(t, ev).0.phase is Failed,
        step_spec(t, ev).1 is Err,
{
}

/// Backup-before-overwrite ordering: in any run of the protocol from a
/// fresh task, the machine asks to overwrite the destination header only
/// after it has asked for the backup write (report `j`) and the driver
/// has confirmed the backup's flush (report `k`), in that order.
pub proof fn lemma_backup_before_overwrite(t0: FileTask, evs: Seq<Event>, i: int)
    requires
        t0.phase is DestHeaderRequested,
        0 <= i < evs.len(),
        answer_to(t0, evs, i) matches Ok(op) && op is OverwriteDestHeader,
    ensures
        exists|j: int, k: int|
            0 <= j < k < i && #[trigger] asked_backup_write(t0, evs, j)
                && #[trigger] backup_flush_acked(t0, evs, k),
{
    assert(task_after(t0, evs, i).phase is SourceHeaderRequested);
    lemma_backup_history(t0, evs, i);
    let k: int = choose|k: int| 0 <= k < i && #[trigger] backup_flush_acked(t0, evs, k);
    lemma_backup_history(t0, evs, k);
    let j: int = choose|j: int| 0 <= j < k && #[trigger] asked_backup_write(t0, evs, j);
    assert(0 <= j < k < i && asked_backup_write(t0, evs, j) && backup_flush_acked(t0, evs, k));
}

} // verus!
