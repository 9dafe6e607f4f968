//! The single-instance lock: what a lock file records, whom a new owner terminates,
//! and what it writes.

use crate::text::{
    append, append_decimal, copy_bytes, copy_range, decimal_spec, find, parse_decimal,
    parse_decimal_spec,
};
use vstd::prelude::*;

verus! {

/// The byte that ends the first line of a lock file.
pub const LINE_END: u8 = 10;

/// What a lock file records: the owner's process id and the time it was written.
#[derive(Debug)]
pub struct LockRecord {
    pub pid: u32,
    pub stamp: Vec<u8>,
}

/// What a lock file records, as plain values.
pub struct RecordView {
    pub pid: u32,
    pub stamp: Seq<u8>,
}

impl View for LockRecord {
    type V = RecordView;

    open spec fn view(&self) -> RecordView {
        RecordView { pid: self.pid, stamp: self.stamp@ }
    }
}

/// The contents of a lock file: the process id in decimal, a line end, the time.
pub open spec fn lock_text(pid: u32, stamp: Seq<u8>) -> Seq<u8> {
    decimal_spec(pid as nat) + seq![LINE_END] + stamp
}

/// The first line of a lock file.
pub open spec fn first_line(content: Seq<u8>) -> Seq<u8> {
    content.subrange(0, find(content, LINE_END, 0))
}

/// What follows the first line of a lock file and its line end.
pub open spec fn after_first_line(content: Seq<u8>) -> Seq<u8> {
    let end = find(content, LINE_END, 0);
    if 0 <= end < content.len() {
        content.subrange(end + 1, content.len() as int)
    } else {
        Seq::empty()
    }
}

/// What a lock file records, if its first line is a process id.
pub open spec fn recorded(content: Seq<u8>) -> Option<RecordView> {
    match parse_decimal_spec(first_line(content), u32::MAX as nat) {
        Some(pid) => Some(RecordView { pid: pid as u32, stamp: after_first_line(content) }),
        None => None,
    }
}

/// Writes the contents of a lock file.
pub fn lock_contents(pid: u32, stamp: &[u8]) -> (content: Vec<u8>)
    ensures
        content@ == lock_text(pid, stamp@),
{
    let mut content: Vec<u8> = Vec::new();
    append_decimal(&mut content, pid as u64);
    content.push(LINE_END);
    append(&mut content, stamp);
    content
}

/// Reads what a lock file records.
pub fn parse_lock(content: &[u8]) -> (record: Option<LockRecord>)
    ensures
        match recorded(content@) {
            Some(r) => record.is_some() && record.unwrap()@ == r,
            None => record.is_none(),
        },
{
    let mut end: usize = 0;
    while end < content.len() && content[end] != LINE_END
        invariant
            end <= content.len(),
            find(content@, LINE_END, 0) == find(content@, LINE_END, end as int),
        decreases content.len() - end,
    {
        end += 1;
    }
    let line = copy_range(content, 0, end);
    match parse_decimal(line.as_slice(), u32::MAX as u64) {
        Some(pid) => {
            let stamp = if end < content.len() {
                copy_range(content, end + 1, content.len())
            } else {
                Vec::new()
            };
            Some(LockRecord { pid: pid as u32, stamp })
        },
        None => None,
    }
}

/// What acquiring the lock asks of the caller: the process to terminate, if any, and
/// the contents to write to the lock file.
#[derive(Debug)]
pub struct AcquirePlan {
    pub terminate: Option<u32>,
    pub contents: Vec<u8>,
}

/// The process that a new owner terminates: the one that the lock file records, once
/// the recorded time has passed. Without a lock file, or with one that records no
/// process id, there is none.
pub open spec fn target(existing: Option<Seq<u8>>, recorded_time_passed: bool) -> Option<u32> {
    match existing {
        Some(content) => match recorded(content) {
            Some(record) => if recorded_time_passed {
                Some(record.pid)
            } else {
                None
            },
            None => None,
        },
        None => None,
    }
}

/// The lock on the capture device, held through a lock file.
#[derive(Debug)]
pub struct StreamLock {
    pub path: Vec<u8>,
}

impl StreamLock {
    /// Plans the acquisition of the lock at `path` by process `pid` at time `stamp`.
    /// `existing` holds the lock file's contents if there is one, and
    /// `recorded_time_passed` says whether the time that it records lies in the past.
    /// The new contents are written whatever the file held.
    pub fn plan_acquire(
        path: Vec<u8>,
        existing: Option<&[u8]>,
        recorded_time_passed: bool,
        pid: u32,
        stamp: &[u8],
    ) -> (planned: (StreamLock, AcquirePlan))
        ensures
            planned.0.path@ == path@,
            planned.1.contents@ == lock_text(pid, stamp@),
            planned.1.terminate == target(
                match existing {
                    Some(content) => Some(content@),
                    None => None,
                },
                recorded_time_passed,
            ),
    {
        let terminate = match existing {
            Some(content) => match parse_lock(content) {
                Some(record) => if recorded_time_passed {
                    Some(record.pid)
                } else {
                    None
                },
                None => None,
            },
            None => None,
        };
        (StreamLock { path }, AcquirePlan { terminate, contents: lock_contents(pid, stamp) })
    }

    /// The path of the lock file, to remove it when the owner exits.
    pub fn path(&self) -> (path: Vec<u8>)
        ensures
            path@ == self.path@,
    {
        copy_bytes(self.path.as_slice())
    }
}

/// Acquiring the lock where no lock file exists terminates nobody, and the file that
/// is written begins with the owner's process id.
pub proof fn lemma_fresh_lock(pid: u32, stamp: Seq<u8>, recorded_time_passed: bool)
    ensures
        target(None, recorded_time_passed).is_none(),
        lock_text(pid, stamp).subrange(0, decimal_spec(pid as nat).len() as int) == decimal_spec(
            pid as nat,
        ),
{
    assert(lock_text(pid, stamp).subrange(0, decimal_spec(pid as nat).len() as int)
        =~= decimal_spec(pid as nat));
}

/// A lock file is read back as it was written: the process id, and after the first
/// line end the time, whatever it holds.
pub proof fn lemma_lock_round_trip(pid: u32, stamp: Seq<u8>)
    ensures
        recorded(lock_text(pid, stamp)) == Some(RecordView { pid: pid, stamp: stamp }),
{
    let digits = decimal_spec(pid as nat);
    let content = lock_text(pid, stamp);
    crate::text::lemma_decimal_round_trip(pid as nat);
    assert forall|k: int| 0 <= k < digits.len() implies content[k] != LINE_END by {
        assert(content[k] == digits[k]);
        assert(crate::text::is_digit(digits[k]));
    }
    crate::text::lemma_find(content, LINE_END, 0, digits.len() as int);
    assert(first_line(content) =~= digits);
    assert(after_first_line(content) =~= stamp);
}

} // verus!
