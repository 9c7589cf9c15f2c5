//! The traversal-and-aggregation engine.
//!
//! The walk itself is interactive: the caller owns the filesystem and the
//! tag extractor, the [`Walker`] owns every decision. The walker keeps a
//! stack of pending paths, front first. The caller repeatedly takes the
//! current path, examines it, and reports what it found: the walker then
//! classifies, normalizes, sorts and aggregates, emits one [`Info`] per
//! visited path, and queues subdirectories so that the traversal is
//! depth-first with each directory's subdirectories visited in byte-wise
//! lexicographic order. Any fault aborts the whole walk: the caller stops
//! at the first error the walker hands back.

use core::cmp::Ordering;
use vstd::prelude::*;

use crate::cmp::SortBy;
use crate::cmp::ord_of_bytes;
use crate::error::LsError;
use crate::info::Entry;
use crate::info::EntryV;
use crate::info::Info;
use crate::info::PathType;
use crate::sort::sort_by_spec;
use crate::sort::sort_entries;
use crate::sort::sort_entries_spec;
use crate::tag::TagData;
use crate::tag::TagDataV;
use crate::tag::make_entry;
use crate::tag::normalized_entry;
use crate::text::utf8_lossy;
use crate::text::utf8_lossy_of;
use crate::text::push_char;

verus! {

/// The options for a list operation.
pub struct ListOptions {
    /// The list of properties to sort by, in order of priority.
    pub sort_by: Vec<SortBy>,
    /// Whether to reverse the order while sorting.
    pub reverse: bool,
    /// Whether to list subdirectories recursively.
    pub recursive: bool,
}

/// What reading one discovered file yielded.
pub enum Reading {
    /// The file's size and tag data were extracted.
    Tagged {
        /// The file's size in bytes.
        size: u64,
        /// The extracted tag data.
        tag: TagData,
    },
    /// The extractor reports the file does not carry the tag format: the
    /// file is silently skipped.
    NotAudio,
    /// The filesystem failed while the file was examined or read.
    Fault {
        /// The underlying fault, rendered.
        message: String,
    },
}

/// The mathematical view of a [`Reading`].
pub enum ReadingV {
    /// View of [`Reading::Tagged`].
    Tagged {
        /// The file's size in bytes.
        size: u64,
        /// View of the extracted tag data.
        tag: TagDataV,
    },
    /// View of [`Reading::NotAudio`].
    NotAudio,
    /// View of [`Reading::Fault`].
    Fault {
        /// View of the rendered fault.
        message: Seq<char>,
    },
}

impl DeepView for Reading {
    type V = ReadingV;

    open spec fn deep_view(&self) -> ReadingV {
        match self {
            Reading::Tagged { size, tag } => ReadingV::Tagged {
                size: *size,
                tag: tag.deep_view(),
            },
            Reading::NotAudio => ReadingV::NotAudio,
            Reading::Fault { message } => ReadingV::Fault { message: message@ },
        }
    }
}

/// One immediate child of a walked directory, as the caller enumerated it.
pub enum Child {
    /// A regular file, with what reading it yielded.
    File {
        /// The file's name, as raw bytes.
        name: Vec<u8>,
        /// What reading the file yielded.
        reading: Reading,
    },
    /// A subdirectory.
    Subdir {
        /// The subdirectory's name, as raw bytes.
        name: Vec<u8>,
    },
    /// Anything else: neither a regular file nor a directory. Ignored.
    Other,
}

/// The mathematical view of a [`Child`].
pub enum ChildV {
    /// View of [`Child::File`].
    File {
        /// View of the file's name.
        name: Seq<u8>,
        /// View of the reading.
        reading: ReadingV,
    },
    /// View of [`Child::Subdir`].
    Subdir {
        /// View of the subdirectory's name.
        name: Seq<u8>,
    },
    /// View of [`Child::Other`].
    Other,
}

impl DeepView for Child {
    type V = ChildV;

    open spec fn deep_view(&self) -> ChildV {
        match self {
            Child::File { name, reading } => ChildV::File {
                name: name@,
                reading: reading.deep_view(),
            },
            Child::Subdir { name } => ChildV::Subdir { name: name@ },
            Child::Other => ChildV::Other,
        }
    }
}

/// What examining an explicitly named file yielded.
pub enum FileOutcome {
    /// The file's size and tag data were extracted.
    Tagged {
        /// The file's size in bytes.
        size: u64,
        /// The extracted tag data.
        tag: TagData,
    },
    /// The file's metadata could not be read.
    StatFault {
        /// The underlying fault, rendered.
        message: String,
    },
    /// The tag extractor failed on the file. For an explicitly named file
    /// this is a hard error, whatever the reason.
    TagFault {
        /// The underlying fault, rendered.
        message: String,
    },
}

/// A path waiting to be visited: its raw bytes, which identify the file
/// exactly, and its display form.
pub struct PendingPath {
    /// The path as displayed: the path string as given, or the parent's
    /// display joined with the lossily decoded child name.
    pub display: String,
    /// The path as raw bytes.
    pub raw: Vec<u8>,
}

/// A walk in progress.
pub struct Walker {
    /// The options the walk was started with.
    pub options: ListOptions,
    /// The paths not yet visited, the current one first.
    pub pending: Vec<PendingPath>,
    /// One result per visited path, in visit order.
    pub results: Vec<Info>,
}

/// A file child's name and reading.
pub struct SlotV {
    /// View of the file's name.
    pub name: Seq<u8>,
    /// View of the reading.
    pub reading: ReadingV,
}

/// The file children of an enumerated directory, in enumeration order.
pub open spec fn file_slots(cs: Seq<ChildV>) -> Seq<SlotV>
    decreases cs.len(),
{
    if cs.len() == 0 {
        Seq::empty()
    } else {
        let rest = file_slots(cs.drop_first());
        match cs[0] {
            ChildV::File { name, reading } => seq![SlotV { name, reading }] + rest,
            _ => rest,
        }
    }
}

/// The subdirectory names of an enumerated directory, in enumeration order.
pub open spec fn subdir_names(cs: Seq<ChildV>) -> Seq<Seq<u8>>
    decreases cs.len(),
{
    if cs.len() == 0 {
        Seq::empty()
    } else {
        let rest = subdir_names(cs.drop_first());
        match cs[0] {
            ChildV::Subdir { name } => seq![name] + rest,
            _ => rest,
        }
    }
}

/// Byte-wise lexicographic order on file names.
pub open spec fn name_le() -> spec_fn(Seq<u8>, Seq<u8>) -> bool {
    |a: Seq<u8>, b: Seq<u8>| ord_of_bytes(a, b) != Ordering::Greater
}

/// Byte-wise lexicographic order on file children, by name.
pub open spec fn slot_le() -> spec_fn(SlotV, SlotV) -> bool {
    |a: SlotV, b: SlotV| ord_of_bytes(a.name, b.name) != Ordering::Greater
}

/// The file children sorted by name: the order tag extraction proceeds in.
pub open spec fn sorted_slots(cs: Seq<ChildV>) -> Seq<SlotV> {
    sort_by_spec(file_slots(cs), slot_le())
}

/// The subdirectory names sorted: the order pending subdirectories are
/// visited in.
pub open spec fn sorted_subdirs(cs: Seq<ChildV>) -> Seq<Seq<u8>> {
    sort_by_spec(subdir_names(cs), name_le())
}

/// The first file child, in sorted order, whose reading faulted: the fault
/// that aborts the walk.
pub open spec fn first_fault(slots: Seq<SlotV>) -> Option<SlotV>
    decreases slots.len(),
{
    if slots.len() == 0 {
        None
    } else if slots[0].reading is Fault {
        Some(slots[0])
    } else {
        first_fault(slots.drop_first())
    }
}

/// The fault message of a faulted reading.
pub open spec fn fault_text(r: ReadingV) -> Seq<char> {
    match r {
        ReadingV::Fault { message } => message,
        _ => Seq::empty(),
    }
}

/// The entries of the file children whose reading succeeded, normalized, in
/// the given order.
pub open spec fn tagged_entries(slots: Seq<SlotV>) -> Seq<EntryV>
    decreases slots.len(),
{
    if slots.len() == 0 {
        Seq::empty()
    } else {
        let rest = tagged_entries(slots.drop_first());
        match slots[0].reading {
            ReadingV::Tagged { size, tag } => seq![normalized_entry(slots[0].name, size, tag)]
                + rest,
            _ => rest,
        }
    }
}

/// The entries one visited directory yields: the tagged files, taken in
/// name order, normalized and sorted per the sort specification.
pub open spec fn dir_entries(cs: Seq<ChildV>, keys: Seq<SortBy>, reverse: bool) -> Seq<EntryV> {
    sort_entries_spec(tagged_entries(sorted_slots(cs)), keys, reverse)
}

/// A child path's display form: the parent's display, a slash, and the
/// child's name decoded lossily.
pub open spec fn joined_display(parent: Seq<char>, name: Seq<u8>) -> Seq<char> {
    parent + seq!['/'] + utf8_lossy_of(name)
}

/// A child path's raw bytes: the parent's bytes, a slash, and the child's
/// name bytes.
pub open spec fn joined_raw(parent: Seq<u8>, name: Seq<u8>) -> Seq<u8> {
    parent + seq![47u8] + name
}

/// How visiting a directory reshapes the pending paths: the current path is
/// gone, and, when recursion is on, its subdirectories stand queued ahead of
/// the remaining paths, in name order, each joined onto the current path.
pub open spec fn pending_after_dir(pre: Walker, post: Walker, cs: Seq<ChildV>) -> bool {
    let subs = sorted_subdirs(cs);
    let queued: int = if pre.options.recursive {
        subs.len() as int
    } else {
        0
    };
    &&& post.pending@.len() == queued + pre.pending@.len() - 1
    &&& post.pending@.skip(queued) == pre.pending@.drop_first()
    &&& forall|i: int|
        0 <= i < queued ==> #[trigger] post.pending@[i].display@ == joined_display(
            pre.pending@[0].display@,
            subs[i],
        ) && post.pending@[i].raw@ == joined_raw(pre.pending@[0].raw@, subs[i])
}

/// Copies a byte string.
fn copy_bytes(v: &Vec<u8>) -> (r: Vec<u8>)
    ensures
        r@ == v@,
{
    let mut r: Vec<u8> = Vec::new();
    let mut i: usize = 0;
    while i < v.len()
        invariant
            i <= v.len(),
            r@ == v@.take(i as int),
        decreases v.len() - i,
    {
        r.push(v[i]);
        proof {
            assert(v@.take(i + 1) =~= v@.take(i as int).push(v@[i as int]));
        }
        i = i + 1;
    }
    proof {
        assert(v@.take(v@.len() as int) =~= v@);
    }
    r
}

/// A file child's name and reading, while a directory is processed.
struct FileSlot {
    /// The file's name, as raw bytes.
    name: Vec<u8>,
    /// What reading the file yielded.
    reading: Reading,
}

impl DeepView for FileSlot {
    type V = SlotV;

    closed spec fn deep_view(&self) -> SlotV {
        SlotV { name: self.name@, reading: self.reading.deep_view() }
    }
}

/// Where a file child belongs in the name-sorted prefix: the first index
/// whose name is strictly greater.
fn slot_insert_pos(out: &Vec<FileSlot>, e: &FileSlot) -> (j: usize)
    ensures
        j <= out.len(),
        forall|i: int| 0 <= i < j ==> #[trigger] slot_le()(out.deep_view()[i], e.deep_view()),
        j < out.len() ==> !slot_le()(out.deep_view()[j as int], e.deep_view()),
{
    let mut j: usize = 0;
    while j < out.len()
        invariant
            j <= out.len(),
            forall|i: int| 0 <= i < j ==> #[trigger] slot_le()(out.deep_view()[i], e.deep_view()),
        decreases out.len() - j,
    {
        match crate::cmp::cmp_bytes(&out[j].name, &e.name) {
            Ordering::Greater => {
                return j;
            },
            _ => {
                j = j + 1;
            },
        }
    }
    j
}

/// Where a name belongs in the sorted prefix: the first index whose name is
/// strictly greater.
fn name_insert_pos(out: &Vec<Vec<u8>>, e: &Vec<u8>) -> (j: usize)
    ensures
        j <= out.len(),
        forall|i: int| 0 <= i < j ==> #[trigger] name_le()(out.deep_view()[i], e.deep_view()),
        j < out.len() ==> !name_le()(out.deep_view()[j as int], e.deep_view()),
{
    let mut j: usize = 0;
    while j < out.len()
        invariant
            j <= out.len(),
            forall|i: int| 0 <= i < j ==> #[trigger] name_le()(out.deep_view()[i], e.deep_view()),
        decreases out.len() - j,
    {
        proof {
            assert(out.deep_view()[j as int] =~= out@[j as int]@);
            assert(e.deep_view() =~= e@);
        }
        match crate::cmp::cmp_bytes(&out[j], e) {
            Ordering::Greater => {
                return j;
            },
            _ => {
                j = j + 1;
            },
        }
    }
    j
}

/// Sorts the file children by name.
fn sort_slots(v: Vec<FileSlot>) -> (r: Vec<FileSlot>)
    ensures
        r.deep_view() == sort_by_spec(v.deep_view(), slot_le()),
{
    let ghost leq = slot_le();
    let ghost orig = v.deep_view();
    let mut rest = v;
    let mut out: Vec<FileSlot> = Vec::new();
    let ghost mut done: Seq<SlotV> = Seq::empty();
    proof {
        assert(done + rest.deep_view() =~= orig);
    }
    while rest.len() > 0
        invariant
            out.deep_view() == sort_by_spec(done, leq),
            done + rest.deep_view() =~= orig,
            leq == slot_le(),
        decreases rest.len(),
    {
        let ghost rest_before = rest.deep_view();
        let e = rest.remove(0);
        proof {
            assert(rest.deep_view() =~= rest_before.drop_first());
        }
        let j = slot_insert_pos(&out, &e);
        let ghost out_before = out.deep_view();
        proof {
            crate::sort::lemma_insort_at(out_before, e.deep_view(), leq, j as int);
            let stepped = done.push(e.deep_view());
            assert(stepped.drop_last() =~= done);
            assert(stepped + rest.deep_view() =~= orig);
            done = stepped;
        }
        out.insert(j, e);
        proof {
            assert(out.deep_view() =~= out_before.insert(j as int, e.deep_view()));
        }
    }
    proof {
        assert(done =~= orig);
    }
    out
}

/// Sorts the subdirectory names.
fn sort_names(v: Vec<Vec<u8>>) -> (r: Vec<Vec<u8>>)
    ensures
        r.deep_view() == sort_by_spec(v.deep_view(), name_le()),
{
    let ghost leq = name_le();
    let ghost orig = v.deep_view();
    let mut rest = v;
    let mut out: Vec<Vec<u8>> = Vec::new();
    let ghost mut done: Seq<Seq<u8>> = Seq::empty();
    proof {
        assert(done + rest.deep_view() =~= orig);
    }
    while rest.len() > 0
        invariant
            out.deep_view() == sort_by_spec(done, leq),
            done + rest.deep_view() =~= orig,
            leq == name_le(),
        decreases rest.len(),
    {
        let ghost rest_before = rest.deep_view();
        let e = rest.remove(0);
        proof {
            assert(rest.deep_view() =~= rest_before.drop_first());
            assert(e.deep_view() =~= e@);
        }
        let j = name_insert_pos(&out, &e);
        let ghost out_before = out.deep_view();
        proof {
            crate::sort::lemma_insort_at(out_before, e.deep_view(), leq, j as int);
            let stepped = done.push(e.deep_view());
            assert(stepped.drop_last() =~= done);
            assert(stepped + rest.deep_view() =~= orig);
            done = stepped;
        }
        out.insert(j, e);
        proof {
            assert(out.deep_view() =~= out_before.insert(j as int, e.deep_view()));
        }
    }
    proof {
        assert(done =~= orig);
    }
    out
}

/// Builds the pending entry for a subdirectory: the parent path joined with
/// the subdirectory's name.
fn make_pending(parent: &PendingPath, name: Vec<u8>) -> (p: PendingPath)
    ensures
        p.display@ == joined_display(parent.display@, name@),
        p.raw@ == joined_raw(parent.raw@, name@),
{
    let mut display = parent.display.clone();
    push_char(&mut display, '/');
    let decoded = utf8_lossy(&name);
    display.append(decoded.as_str());
    let mut raw = copy_bytes(&parent.raw);
    raw.push(47);
    proof {
        assert(raw@ =~= parent.raw@ + seq![47u8]);
        assert(parent.raw@ + seq![47u8] + name@.take(0) =~= parent.raw@ + seq![47u8]);
    }
    let mut i: usize = 0;
    while i < name.len()
        invariant
            i <= name.len(),
            raw@ == parent.raw@ + seq![47u8] + name@.take(i as int),
        decreases name.len() - i,
    {
        raw.push(name[i]);
        proof {
            assert(parent.raw@ + seq![47u8] + name@.take(i + 1) =~= (parent.raw@ + seq![47u8]
                + name@.take(i as int)).push(name@[i as int]));
        }
        i = i + 1;
    }
    proof {
        assert(name@.take(name@.len() as int) =~= name@);
        assert(display@ =~= joined_display(parent.display@, name@));
    }
    PendingPath { display, raw }
}

impl Walker {
    /// Starts a walk over the given paths. An empty path list means the
    /// single default path: the caller's working directory, resolved by the
    /// caller and passed in explicitly.
    pub fn new(paths: Vec<String>, default_path: String, options: ListOptions) -> (w: Walker)
        ensures
            w.options == options,
            w.results@.len() == 0,
            paths@.len() == 0 ==> w.pending@.len() == 1 && w.pending@[0].display == default_path
                && w.pending@[0].raw@ == vstd::utf8::encode_utf8(default_path@),
            paths@.len() > 0 ==> {
                &&& w.pending@.len() == paths@.len()
                &&& forall|i: int|
                    0 <= i < paths@.len() ==> #[trigger] w.pending@[i].display == paths@[i]
                        && w.pending@[i].raw@ == vstd::utf8::encode_utf8(paths@[i]@)
            },
    {
        let mut pending: Vec<PendingPath> = Vec::new();
        if paths.len() == 0 {
            let raw = default_path.as_str().as_bytes_vec();
            pending.push(PendingPath { display: default_path, raw });
        } else {
            let ghost all = paths@;
            let mut rest = paths;
            while rest.len() > 0
                invariant
                    pending@.len() + rest@.len() == all.len(),
                    rest@ =~= all.skip(pending@.len() as int),
                    forall|i: int|
                        0 <= i < pending@.len() ==> #[trigger] pending@[i].display == all[i]
                            && pending@[i].raw@ == vstd::utf8::encode_utf8(all[i]@),
                decreases rest.len(),
            {
                let ghost rest_before = rest@;
                let p = rest.remove(0);
                proof {
                    assert(rest@ =~= rest_before.drop_first());
                    assert(rest@ =~= all.skip(pending@.len() as int + 1));
                }
                let raw = p.as_str().as_bytes_vec();
                pending.push(PendingPath { display: p, raw });
            }
        }
        Walker { options, pending, results: Vec::new() }
    }

    /// Whether every pending path has been visited.
    pub fn done(&self) -> (r: bool)
        ensures
            r == (self.pending@.len() == 0),
    {
        self.pending.len() == 0
    }

    /// The path to visit next.
    pub fn current(&self) -> (r: &PendingPath)
        requires
            self.pending@.len() > 0,
        ensures
            *r == self.pending@[0],
    {
        &self.pending[0]
    }

    /// The current path is neither an existing file nor an existing
    /// directory: the walk fails.
    pub fn visit_invalid(&self) -> (e: LsError)
        requires
            self.pending@.len() > 0,
        ensures
            e matches LsError::InvalidPath { path } && path == self.pending@[0].display,
    {
        LsError::InvalidPath { path: self.pending[0].display.clone() }
    }

    /// The directory at the current path could not be enumerated: the walk
    /// fails.
    pub fn visit_dir_fault(&self, message: String) -> (e: LsError)
        requires
            self.pending@.len() > 0,
        ensures
            e matches LsError::ReadFault { path, message: m } && path == self.pending@[0].display
                && m == message,
    {
        LsError::ReadFault { path: self.pending[0].display.clone(), message }
    }

    /// The current path is a regular file: one result with at most one
    /// entry. An explicitly named file that cannot be examined or extracted
    /// fails the whole walk, whatever the reason: only files discovered by
    /// directory enumeration are ever skipped.
    pub fn visit_file(&mut self, name: Vec<u8>, outcome: FileOutcome) -> (r: Result<(), LsError>)
        requires
            old(self).pending@.len() > 0,
        ensures
            final(self).options == old(self).options,
            match outcome {
                FileOutcome::Tagged { size, tag } => {
                    &&& r is Ok
                    &&& final(self).pending@ == old(self).pending@.drop_first()
                    &&& final(self).results@.len() == old(self).results@.len() + 1
                    &&& final(self).results@.drop_last() == old(self).results@
                    &&& final(self).results@.last().path == old(self).pending@[0].display
                    &&& final(self).results@.last().path_type == PathType::File
                    &&& final(self).results@.last().entries.deep_view() == seq![
                        normalized_entry(name@, size, tag.deep_view()),
                    ]
                },
                FileOutcome::StatFault { message } => {
                    &&& *final(self) == *old(self)
                    &&& r matches Err(e) && e matches LsError::ReadFault {
                        path,
                        message: m,
                    } && path == old(self).pending@[0].display && m == message
                },
                FileOutcome::TagFault { message } => {
                    &&& *final(self) == *old(self)
                    &&& r matches Err(e) && e matches LsError::TagReadFault {
                        path,
                        message: m,
                    } && path == old(self).pending@[0].display && m == message
                },
            },
    {
        match outcome {
            FileOutcome::Tagged { size, tag } => {
                let cur = self.pending.remove(0);
                let entry = make_entry(name, size, &tag);
                let mut entries: Vec<Entry> = Vec::new();
                entries.push(entry);
                let info = Info { path: cur.display, path_type: PathType::File, entries };
                proof {
                    assert(info.entries.deep_view() =~= seq![
                        normalized_entry(name@, size, tag.deep_view()),
                    ]);
                }
                let ghost results_before = self.results@;
                self.results.push(info);
                proof {
                    assert(self.results@.drop_last() =~= results_before);
                }
                Ok(())
            },
            FileOutcome::StatFault { message } => {
                Err(
                    LsError::ReadFault { path: self.pending[0].display.clone(), message },
                )
            },
            FileOutcome::TagFault { message } => {
                Err(
                    LsError::TagReadFault { path: self.pending[0].display.clone(), message },
                )
            },
        }
    }

    /// The current path is a directory with the given immediate children:
    /// the walker emits one result for it, with the tagged files as its
    /// sorted entries, and, when recursion is on, queues its subdirectories
    /// in name order ahead of the remaining paths. A faulted file reading
    /// fails the whole walk with the first fault in name order; a reading
    /// that is merely not of the tag format is skipped.
    #[verifier::rlimit(60)]
    pub fn visit_dir(&mut self, children: Vec<Child>) -> (r: Result<(), LsError>)
        requires
            old(self).pending@.len() > 0,
        ensures
            final(self).options == old(self).options,
            first_fault(sorted_slots(children.deep_view())) is Some ==> ({
                let slot = first_fault(sorted_slots(children.deep_view())).unwrap();
                &&& *final(self) == *old(self)
                &&& r matches Err(e) && e matches LsError::ReadFault { path, message } && path@
                    == joined_display(old(self).pending@[0].display@, slot.name) && message@
                    == fault_text(slot.reading)
            }),
            first_fault(sorted_slots(children.deep_view())) is None ==> r is Ok,
            first_fault(sorted_slots(children.deep_view())) is None ==> ({
                &&& final(self).results@.len() == old(self).results@.len() + 1
                &&& final(self).results@.drop_last() == old(self).results@
                &&& final(self).results@.last().path == old(self).pending@[0].display
                &&& final(self).results@.last().path_type == PathType::Directory
                &&& final(self).results@.last().entries.deep_view() == dir_entries(
                    children.deep_view(),
                    old(self).options.sort_by@,
                    old(self).options.reverse,
                )
            }),
            first_fault(sorted_slots(children.deep_view())) is None ==> pending_after_dir(
                *old(self),
                *final(self),
                children.deep_view(),
            ),
    {
        let ghost cs = children.deep_view();

        // Partition the children into file readings and subdirectory names.
        let mut slots: Vec<FileSlot> = Vec::new();
        let mut dirs: Vec<Vec<u8>> = Vec::new();
        let mut rest = children;
        let ghost mut k: int = 0;
        proof {
            assert(cs.skip(0) =~= cs);
            assert(slots.deep_view() + file_slots(cs) =~= file_slots(cs));
            assert(dirs.deep_view() + subdir_names(cs) =~= subdir_names(cs));
        }
        while rest.len() > 0
            invariant
                0 <= k <= cs.len(),
                cs.len() - k == rest@.len(),
                rest.deep_view() =~= cs.skip(k),
                slots.deep_view() + file_slots(cs.skip(k)) == file_slots(cs),
                dirs.deep_view() + subdir_names(cs.skip(k)) == subdir_names(cs),
            decreases rest.len(),
        {
            let ghost rest_before = rest.deep_view();
            let c = rest.remove(0);
            proof {
                assert(rest.deep_view() =~= rest_before.drop_first());
                assert(cs.skip(k).drop_first() =~= cs.skip(k + 1));
                assert(c.deep_view() == cs[k]);
            }
            match c {
                Child::File { name, reading } => {
                    let ghost slots_before = slots.deep_view();
                    let ghost slot_v = SlotV { name: name@, reading: reading.deep_view() };
                    slots.push(FileSlot { name, reading });
                    proof {
                        assert(slots.deep_view() =~= slots_before.push(slot_v));
                        assert(file_slots(cs.skip(k)) == seq![slot_v] + file_slots(
                            cs.skip(k + 1),
                        ));
                        assert(slots_before.push(slot_v) + file_slots(cs.skip(k + 1))
                            =~= slots_before + file_slots(cs.skip(k)));
                    }
                },
                Child::Subdir { name } => {
                    let ghost dirs_before = dirs.deep_view();
                    let ghost name_v = name@;
                    dirs.push(name);
                    proof {
                        assert(dirs.deep_view() =~~= dirs_before.push(name_v));
                        assert(subdir_names(cs.skip(k)) == seq![name_v] + subdir_names(
                            cs.skip(k + 1),
                        ));
                        assert(dirs_before.push(name_v) + subdir_names(cs.skip(k + 1))
                            =~= dirs_before + subdir_names(cs.skip(k)));
                    }
                },
                Child::Other => {},
            }
            proof {
                k = k + 1;
            }
        }
        proof {
            assert(cs.skip(cs.len() as int) =~= Seq::<ChildV>::empty());
            assert(slots.deep_view() + Seq::<SlotV>::empty() =~= slots.deep_view());
            assert(dirs.deep_view() + Seq::<Seq<u8>>::empty() =~= dirs.deep_view());
        }

        // The extraction order and the traversal order are the name orders.
        let slots = sort_slots(slots);
        let dirs = sort_names(dirs);
        let ghost ss = sorted_slots(cs);
        let ghost subs = sorted_subdirs(cs);

        // Walk the files in name order: normalize each tagged one, skip the
        // ones that are not of the tag format, abort on the first fault.
        let mut entries: Vec<Entry> = Vec::new();
        let mut srest = slots;
        let ghost mut j: int = 0;
        proof {
            assert(ss.skip(0) =~= ss);
            assert(entries.deep_view() + tagged_entries(ss) =~= tagged_entries(ss));
        }
        while srest.len() > 0
            invariant
                old(self).pending@.len() > 0,
                *self == *old(self),
                0 <= j <= ss.len(),
                ss.len() - j == srest@.len(),
                srest.deep_view() =~= ss.skip(j),
                cs == children.deep_view(),
                ss == sorted_slots(cs),
                first_fault(ss) == first_fault(ss.skip(j)),
                entries.deep_view() + tagged_entries(ss.skip(j)) == tagged_entries(ss),
            decreases srest.len(),
        {
            let ghost srest_before = srest.deep_view();
            let slot = srest.remove(0);
            proof {
                assert(srest.deep_view() =~= srest_before.drop_first());
                assert(ss.skip(j).drop_first() =~= ss.skip(j + 1));
                assert(slot.deep_view() == ss[j]);
            }
            match slot.reading {
                Reading::Fault { message } => {
                    proof {
                        assert(first_fault(ss.skip(j)) == Some(ss[j]));
                        assert(ss[j].reading == ReadingV::Fault { message: message@ });
                    }
                    let mut path = self.pending[0].display.clone();
                    push_char(&mut path, '/');
                    let decoded = utf8_lossy(&slot.name);
                    path.append(decoded.as_str());
                    proof {
                        assert(path@ =~= joined_display(
                            old(self).pending@[0].display@,
                            ss[j].name,
                        ));
                    }
                    return Err(LsError::ReadFault { path, message });
                },
                Reading::NotAudio => {
                    proof {
                        assert(entries.deep_view() + tagged_entries(ss.skip(j + 1))
                            =~= entries.deep_view() + tagged_entries(ss.skip(j)));
                    }
                },
                Reading::Tagged { size, tag } => {
                    let ghost entries_before = entries.deep_view();
                    let ghost slot_name = slot.name@;
                    let e = make_entry(slot.name, size, &tag);
                    entries.push(e);
                    proof {
                        let entry_v = normalized_entry(slot_name, size, tag.deep_view());
                        assert(entries.deep_view() =~= entries_before.push(entry_v));
                        assert(tagged_entries(ss.skip(j)) == seq![entry_v] + tagged_entries(
                            ss.skip(j + 1),
                        ));
                        assert(entries_before.push(entry_v) + tagged_entries(ss.skip(j + 1))
                            =~= entries_before + tagged_entries(ss.skip(j)));
                    }
                },
            }
            proof {
                j = j + 1;
            }
        }
        proof {
            assert(ss.skip(ss.len() as int) =~= Seq::<SlotV>::empty());
            assert(entries.deep_view() + Seq::<EntryV>::empty() =~= entries.deep_view());
            assert(entries.deep_view() == tagged_entries(ss));
            assert(first_fault(ss) is None);
        }

        // Sort the entries per the sort specification.
        let entries = sort_entries(entries, self.options.sort_by.as_slice(), self.options.reverse);

        // Emit the directory's result and queue its subdirectories.
        let cur = self.pending.remove(0);
        let ghost rest_pending = self.pending@;
        proof {
            assert(rest_pending =~= old(self).pending@.drop_first());
            assert(cur == old(self).pending@[0]);
        }
        if self.options.recursive {
            let mut dirs = dirs;
            proof {
                assert(dirs.deep_view() =~= subs.take(dirs@.len() as int));
            }
            while dirs.len() > 0
                invariant
                    dirs@.len() <= subs.len(),
                    dirs.deep_view() =~= subs.take(dirs@.len() as int),
                    self.pending@.len() == (subs.len() - dirs@.len()) + rest_pending.len(),
                    self.pending@.skip(subs.len() as int - dirs@.len() as int) == rest_pending,
                    forall|i: int|
                        0 <= i < subs.len() - dirs@.len() ==> #[trigger] self.pending@[i].display@
                            == joined_display(cur.display@, subs[dirs@.len() + i])
                            && self.pending@[i].raw@ == joined_raw(
                            cur.raw@,
                            subs[dirs@.len() + i],
                        ),
                    self.results@ == old(self).results@,
                    self.options == old(self).options,
                decreases dirs.len(),
            {
                let ghost dirs_before = dirs.deep_view();
                let ghost m = dirs@.len() as int;
                let name = dirs.pop().unwrap();
                proof {
                    assert(dirs.deep_view() =~= dirs_before.drop_last());
                    assert(dirs_before.last() == subs[m - 1]);
                    assert(dirs.deep_view() =~= subs.take(m - 1));
                    assert(name@ == subs[m - 1]);
                }
                let item = make_pending(&cur, name);
                let ghost pending_before = self.pending@;
                self.pending.insert(0, item);
                proof {
                    assert(self.pending@.drop_first() =~= pending_before);
                    assert(self.pending@.skip(subs.len() as int - (m - 1)) =~= pending_before.skip(
                        subs.len() as int - m,
                    ));
                }
            }
            proof {
                assert(subs.take(0) =~= Seq::<Seq<u8>>::empty());
            }
        }
        let ghost results_before = self.results@;
        self.results.push(Info { path: cur.display, path_type: PathType::Directory, entries });
        proof {
            let queued: int = if old(self).options.recursive {
                subs.len() as int
            } else {
                0
            };
            if old(self).options.recursive {
                assert(self.pending@.skip(queued) == rest_pending);
            } else {
                assert(self.pending@.skip(0) =~= self.pending@);
            }
            assert(first_fault(sorted_slots(cs)) is None);
            assert(self.options == old(self).options);
            assert(self.results@.len() == old(self).results@.len() + 1);
            assert(self.results@.drop_last() =~= results_before);
            assert(self.results@.last().path == old(self).pending@[0].display);
            assert(self.results@.last().path_type == PathType::Directory);
            assert(self.results@.last().entries.deep_view() == dir_entries(
                cs,
                old(self).options.sort_by@,
                old(self).options.reverse,
            ));
            assert(self.pending@.len() == queued + old(self).pending@.len() - 1);
            assert(self.pending@.skip(queued) == old(self).pending@.drop_first());
            assert(forall|i: int|
                0 <= i < queued ==> #[trigger] self.pending@[i].display@ == joined_display(
                    old(self).pending@[0].display@,
                    sorted_subdirs(cs)[i],
                ) && self.pending@[i].raw@ == joined_raw(
                    old(self).pending@[0].raw@,
                    sorted_subdirs(cs)[i],
                ));
            assert(pending_after_dir(*old(self), *self, cs));
            assert(cs == children.deep_view());
        }
        Ok(())
    }

    /// The walk is complete: every visited path's results, in visit order.
    pub fn finish(self) -> (r: Vec<Info>)
        requires
            self.pending@.len() == 0,
        ensures
            r == self.results,
    {
        self.results
    }
}

} // verus!
