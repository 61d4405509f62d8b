//! The receiving side's figures and decisions: the size and file count of
//! a collection, how each download and export event drives the display,
//! and where the export lands.

use crate::import::sum_sizes;
use crate::path::{split_slash, PathError};
use std::path::PathBuf;
use crate::progress::usize_u64;
use vstd::prelude::*;

verus! {

/// The size and file count of a collection about to be downloaded.
#[derive(Debug, Clone, Copy, PartialEq, Eq, Structural)]
pub struct CollectionStats {
    /// The size of every blob, the collection's own included.
    pub total_size: u64,
    /// The size of the files' blobs: all but the first two blobs.
    pub payload_size: u64,
    /// The number of files: one fewer than the blobs (none for no blob).
    pub total_files: u64,
}

/// The sizes of the files' blobs: all but the first two.
pub open spec fn payload_sizes(sizes: Seq<u64>) -> Seq<u64> {
    if sizes.len() < 2 {
        Seq::empty()
    } else {
        sizes.skip(2)
    }
}

/// The sum of `sizes`, or `None` where it would not fit in a `u64`.
fn checked_sum(sizes: &Vec<u64>, from: usize) -> (r: Option<u64>)
    requires
        from <= sizes.len(),
    ensures
        match r {
            Some(s) => s == sum_sizes(sizes@.skip(from as int)),
            None => sum_sizes(sizes@.skip(from as int)) > u64::MAX,
        },
{
    let mut total: u64 = 0;
    let mut i: usize = from;
    let ghost tail = sizes@.skip(from as int);
    while i < sizes.len()
        invariant
            from <= i <= sizes.len(),
            tail == sizes@.skip(from as int),
            total == sum_sizes(tail.take(i - from)),
        decreases sizes.len() - i,
    {
        let ghost k = i - from;
        assert(tail.take(k + 1).drop_last() =~= tail.take(k));
        assert(tail.take(k + 1).last() == sizes@[i as int]);
        match total.checked_add(sizes[i]) {
            Some(t) => {
                total = t;
            },
            None => {
                proof {
                    crate::import::lemma_sum_prefix(tail, k + 1);
                }
                return None;
            },
        }
        i = i + 1;
    }
    assert(tail.take(sizes.len() - from) =~= tail);
    Some(total)
}

/// The figures of a collection whose blobs have the given sizes (the hash
/// sequence first, then the collection's metadata, then the files), or
/// `None` when the total size does not fit in a `u64`.
pub fn collection_stats(sizes: &Vec<u64>) -> (r: Option<CollectionStats>)
    ensures
        match r {
            Some(st) => {
                &&& st.total_size == sum_sizes(sizes@)
                &&& st.payload_size == sum_sizes(payload_sizes(sizes@))
                &&& st.total_files == if sizes.len() == 0 {
                    0
                } else {
                    sizes.len() - 1
                }
            },
            None => sum_sizes(sizes@) > u64::MAX,
        },
{
    assert(sizes@.skip(0) =~= sizes@);
    let total_size = match checked_sum(sizes, 0) {
        Some(t) => t,
        None => {
            return None;
        },
    };
    let skip = if sizes.len() < 2 {
        sizes.len()
    } else {
        2
    };
    proof {
        if sizes.len() < 2 {
            assert(sizes@.skip(skip as int) =~= Seq::<u64>::empty());
        }
        lemma_sum_skip_le(sizes@, skip as int);
    }
    let payload_size = match checked_sum(sizes, skip) {
        Some(p) => p,
        None => {
            return None;
        },
    };
    let total_files = usize_u64(sizes.len().saturating_sub(1));
    Some(CollectionStats { total_size, payload_size, total_files })
}

/// The sum of a suffix is no more than the sum of the whole.
pub proof fn lemma_sum_skip_le(sizes: Seq<u64>, i: int)
    requires
        0 <= i <= sizes.len(),
    ensures
        0 <= sum_sizes(sizes.skip(i)) <= sum_sizes(sizes),
    decreases sizes.len(),
{
    if i == 0 {
        assert(sizes.skip(0) =~= sizes);
        crate::import::lemma_sum_prefix(sizes, 0);
    } else if i == sizes.len() {
        assert(sizes.skip(i) =~= Seq::<u64>::empty());
        crate::import::lemma_sum_prefix(sizes, 0);
    } else {
        lemma_sum_skip_le(sizes.drop_last(), i);
        assert(sizes.skip(i).drop_last() =~= sizes.drop_last().skip(i));
        assert(sizes.skip(i).last() == sizes.last());
    }
}

/// Law: the files' payload never exceeds the collection's total size.
pub proof fn law_payload_within_total(sizes: Seq<u64>)
    ensures
        sum_sizes(payload_sizes(sizes)) <= sum_sizes(sizes),
{
    if sizes.len() >= 2 {
        lemma_sum_skip_le(sizes, 2);
    } else {
        crate::import::lemma_sum_prefix(sizes, 0);
    }
}

/// Law: a collection's total size is the size of its hash sequence, plus
/// that of its metadata, plus the files' payload.
pub proof fn law_total_is_parts_plus_payload(sizes: Seq<u64>)
    requires
        sizes.len() >= 2,
    ensures
        sum_sizes(sizes) == sizes[0] + sizes[1] + sum_sizes(payload_sizes(sizes)),
{
    let head = seq![sizes[0], sizes[1]];
    assert(sizes =~= head + sizes.skip(2));
    crate::import::law_sum_sizes_additive(head, sizes.skip(2));
    crate::import::law_sum_sizes_additive(seq![sizes[0]], seq![sizes[1]]);
    assert(seq![sizes[0]] + seq![sizes[1]] =~= head);
    crate::import::law_sum_sizes_single(sizes[0]);
    crate::import::law_sum_sizes_single(sizes[1]);
}

/// A collection known complete locally lacks its child count.
#[derive(Debug)]
pub struct MissingChildCount;

impl MissingChildCount {
    /// The error's message.
    pub fn message(&self) -> (r: String)
        ensures
            r@ == "complete local set missing child count"@,
    {
        "complete local set missing child count".to_owned()
    }
}

/// The number of files of a collection that is already complete locally:
/// one fewer than its children (the collection's metadata is one of them),
/// and none for none.
pub fn complete_file_count(children: Option<u64>) -> (r: Result<u64, MissingChildCount>)
    ensures
        match children {
            Some(c) => r matches Ok(n) && n == if c == 0 {
                0
            } else {
                c - 1
            },
            None => r is Err,
        },
{
    match children {
        Some(c) => Ok(c.saturating_sub(1)),
        None => Err(MissingChildCount),
    }
}

/// Where an export lands in the current directory: the first
/// `/`-separated component of the collection's first name.
pub fn export_root(name: &str) -> (root: String)
    ensures
        root@ == split_slash(name@)[0],
{
    let n = name.unicode_len();
    let mut i: usize = 0;
    while i < n && name.get_char(i) != '/'
        invariant
            n == name@.len(),
            0 <= i <= n,
            !name@.subrange(0, i as int).contains('/'),
        decreases n - i,
    {
        proof {
            crate::path::lemma_contains_push(name@.subrange(0, i as int), name@[i as int]);
            assert(name@.subrange(0, i + 1) =~= name@.subrange(0, i as int).push(name@[i as int]));
        }
        i = i + 1;
    }
    let first = name.substring_char(0, i);
    proof {
        let rest = name@.subrange(i as int, n as int);
        assert(name@ =~= first@ + rest);
        crate::path::lemma_split_prefix(first@, rest);
        crate::path::lemma_split_len(rest);
        if i < n {
            assert(rest[0] == '/');
            assert(rest.drop_first() =~= name@.subrange(i + 1, n as int));
            assert(split_slash(rest)[0] =~= Seq::<char>::empty());
            assert(first@ + Seq::<char>::empty() =~= first@);
        } else {
            assert(rest =~= Seq::<char>::empty());
            assert(first@ + Seq::<char>::empty() =~= first@);
        }
    }
    first.to_owned()
}

/// A progress event of a download, with the final statistics (`S`) and the
/// cause of a failure (`E`).
pub enum GetEvent<S, E> {
    /// The download reached this offset.
    Progress(u64),
    /// The download finished with these statistics.
    Done(S),
    /// The download failed.
    Error(E),
}

/// What the receiver does on a download event.
pub enum GetStep<S, E> {
    /// Report the offset to the download display and go on.
    Report(u64),
    /// Stop: the download finished with these statistics.
    Finished(S),
    /// Stop: the download failed with this cause (which is shown).
    Failed(E),
}

/// Takes one download event.
pub fn get_step<S, E>(event: GetEvent<S, E>) -> (step: GetStep<S, E>)
    ensures
        match event {
            GetEvent::Progress(offset) => step == GetStep::<S, E>::Report(offset),
            GetEvent::Done(stats) => step == GetStep::<S, E>::Finished(stats),
            GetEvent::Error(cause) => step == GetStep::<S, E>::Failed(cause),
        },
{
    match event {
        GetEvent::Progress(offset) => GetStep::Report(offset),
        GetEvent::Done(stats) => GetStep::Finished(stats),
        GetEvent::Error(cause) => GetStep::Failed(cause),
    }
}

/// A progress event of exporting one file, with the cause of a failure.
pub enum ExportEvent<E> {
    /// The file's size became known.
    Size(u64),
    /// Copying reached this offset.
    CopyProgress(u64),
    /// The export finished.
    Done,
    /// The export failed.
    Error(E),
}

/// What the export's display does on an event.
pub enum ExportStep<E> {
    /// Set the bar's length and go on.
    SetLength(u64),
    /// Move the bar to this position and go on.
    SetPosition(u64),
    /// Clear the bar and go on (the stream ends by itself).
    Finish,
    /// Clear the bar and stop: the export failed with this cause.
    Failed(E),
}

/// Takes one export event.
pub fn export_step<E>(event: ExportEvent<E>) -> (step: ExportStep<E>)
    ensures
        match event {
            ExportEvent::Size(size) => step == ExportStep::<E>::SetLength(size),
            ExportEvent::CopyProgress(offset) => step == ExportStep::<E>::SetPosition(offset),
            ExportEvent::Done => step == ExportStep::<E>::Finish,
            ExportEvent::Error(cause) => step == ExportStep::<E>::Failed(cause),
        },
{
    match event {
        ExportEvent::Size(size) => ExportStep::SetLength(size),
        ExportEvent::CopyProgress(offset) => ExportStep::SetPosition(offset),
        ExportEvent::Done => ExportStep::Finish,
        ExportEvent::Error(cause) => ExportStep::Failed(cause),
    }
}

/// What the export does with one entry of the collection.
pub enum EntryAction {
    /// Stop the export: the entry's name is refused for this reason.
    Refuse(PathError),
    /// Stop the export: something already stands at this target, and it is
    /// not overwritten.
    Occupied(PathBuf),
    /// Copy the entry to this target and go on with the next entry.
    Copy(PathBuf),
}

/// Decides the export of one entry from its export target (or why its name
/// was refused) and whether something already stands at the target. Only a
/// free target of an accepted name is copied to; everything else stops the
/// export before anything is written for the entry.
pub fn entry_action(target: Result<PathBuf, PathError>, occupied: bool) -> (a: EntryAction)
    ensures
        match target {
            Err(e) => a == EntryAction::Refuse(e),
            Ok(p) => if occupied {
                a == EntryAction::Occupied(p)
            } else {
                a == EntryAction::Copy(p)
            },
        },
{
    match target {
        Err(e) => EntryAction::Refuse(e),
        Ok(p) => {
            if occupied {
                EntryAction::Occupied(p)
            } else {
                EntryAction::Copy(p)
            }
        },
    }
}

} // verus!
