//! The entry inspector: what a file, a link or the children of a directory
//! look like to a client.

use crate::lexical::final_component;
use crate::path::{child_spec, parent_spec, relative_to, relative_to_spec, ResolvedPath};
use vstd::prelude::*;

verus! {

/// What kind of thing an entry is.
#[derive(Clone, Copy, Debug, PartialEq, Eq, Structural)]
pub enum EntryKind {
    File,
    Directory,
    Symlink,
    Unknown,
}

impl EntryKind {
    /// The kind of an entry from what the file system says of it. An entry
    /// that is several things at once, as a link seen through is, counts as
    /// a file before a link, and as a link before a directory.
    pub open spec fn classify_spec(is_file: bool, is_symlink: bool, is_dir: bool) -> EntryKind {
        if is_file {
            EntryKind::File
        } else if is_symlink {
            EntryKind::Symlink
        } else if is_dir {
            EntryKind::Directory
        } else {
            EntryKind::Unknown
        }
    }

    /// The kind of an entry from what the file system says of it.
    pub fn classify(is_file: bool, is_symlink: bool, is_dir: bool) -> (kind: EntryKind)
        ensures
            kind == EntryKind::classify_spec(is_file, is_symlink, is_dir),
    {
        if is_file {
            EntryKind::File
        } else if is_symlink {
            EntryKind::Symlink
        } else if is_dir {
            EntryKind::Directory
        } else {
            EntryKind::Unknown
        }
    }

    /// The letter that stands for the kind in a record.
    pub open spec fn code_spec(self) -> Seq<char> {
        match self {
            EntryKind::File => "f"@,
            EntryKind::Directory => "d"@,
            EntryKind::Symlink => "l"@,
            EntryKind::Unknown => "u"@,
        }
    }

    /// The letter that stands for the kind in a record: `f`, `d`, `l` or
    /// `u`.
    pub fn code(&self) -> (code: &'static str)
        ensures
            code@ == self.code_spec(),
    {
        match self {
            EntryKind::File => "f",
            EntryKind::Directory => "d",
            EntryKind::Symlink => "l",
            EntryKind::Unknown => "u",
        }
    }
}

/// What an inspection does with an entry.
#[derive(Clone, Copy, Debug, PartialEq, Eq, Structural)]
pub enum Inspection {
    /// The entry gets a record of its own.
    Describe,
    /// The entry is a directory: its children are listed.
    List,
    /// The entry is of no kind that can be shown: it counts as not found.
    Reject,
}

/// What an inspection does with an entry of kind `kind`.
pub open spec fn inspection_spec(kind: EntryKind) -> Inspection {
    match kind {
        EntryKind::File => Inspection::Describe,
        EntryKind::Symlink => Inspection::Describe,
        EntryKind::Directory => Inspection::List,
        EntryKind::Unknown => Inspection::Reject,
    }
}

/// What an inspection does with an entry of kind `kind`.
pub fn inspection_for(kind: EntryKind) -> (inspection: Inspection)
    ensures
        inspection == inspection_spec(kind),
{
    match kind {
        EntryKind::File => Inspection::Describe,
        EntryKind::Symlink => Inspection::Describe,
        EntryKind::Directory => Inspection::List,
        EntryKind::Unknown => Inspection::Reject,
    }
}

/// What the file system knows of an entry: its times in seconds since the
/// epoch and its size in bytes, each as far as it could be read.
#[derive(Clone, Copy, Debug, PartialEq, Eq)]
pub struct EntryStat {
    pub modified: Option<u64>,
    pub accessed: Option<u64>,
    pub created: Option<u64>,
    pub size: Option<u64>,
}

/// An entry of a directory as it was read: its name, its kind, and what the
/// file system knows of it.
#[derive(Clone, Debug, PartialEq, Eq)]
pub struct ChildEntry {
    pub name: String,
    pub kind: EntryKind,
    pub stat: EntryStat,
}

/// What reading a child of a directory gave: its kind and what the file
/// system knows of it, each as far as it could be read. A child of which
/// the file system knows nothing counts as unread and is `None`: no
/// listing shows it. A child whose kind alone could not be read is of
/// unknown kind.
pub open spec fn scan_spec(
    name: Seq<char>,
    kind: Option<EntryKind>,
    stat: Option<EntryStat>,
) -> Option<(Seq<char>, EntryKind, EntryStat)> {
    match stat {
        None => None,
        Some(stat) => Some(
            (
                name,
                match kind {
                    Some(kind) => kind,
                    None => EntryKind::Unknown,
                },
                stat,
            ),
        ),
    }
}

/// Decides whether a child of a directory was read, from what reading it
/// gave; see `scan_spec`.
pub fn scan_of(name: &str, kind: Option<EntryKind>, stat: Option<EntryStat>) -> (scan: Option<
    ChildEntry,
>)
    ensures
        stat is None ==> scan is None,
        match (scan, scan_spec(name@, kind, stat)) {
            (Some(child), Some(wanted)) => child.name@ == wanted.0 && child.kind == wanted.1
                && child.stat == wanted.2,
            (None, None) => true,
            _ => false,
        },
{
    match stat {
        None => None,
        Some(stat) => Some(
            ChildEntry {
                name: name.to_owned(),
                kind: match kind {
                    Some(kind) => kind,
                    None => EntryKind::Unknown,
                },
                stat,
            },
        ),
    }
}

/// The record of one entry, as the client gets it.
#[derive(Clone, Debug, PartialEq, Eq)]
pub struct EntryInfo {
    /// The entry's name.
    pub ename: String,
    /// The directory that holds the entry, as seen from the root.
    pub eppath: String,
    /// The entry's path, as seen from the root.
    pub epath: String,
    /// The entry's kind.
    pub etype: EntryKind,
    /// When the entry was last modified; 0 if unknown.
    pub emodified: u64,
    /// When the entry was last read; 0 if unknown.
    pub eaccessed: u64,
    /// When the entry was made; 0 if unknown.
    pub ecreated: u64,
    /// The size of a file in bytes, if known; nothing for other kinds.
    pub esize: Option<u64>,
}

/// What a record holds.
pub struct EntryRecord {
    pub name: Seq<char>,
    pub parent: Seq<char>,
    pub path: Seq<char>,
    pub kind: EntryKind,
    pub modified: u64,
    pub accessed: u64,
    pub created: u64,
    pub size: Option<u64>,
}

impl View for EntryInfo {
    type V = EntryRecord;

    open spec fn view(&self) -> EntryRecord {
        EntryRecord {
            name: self.ename@,
            parent: self.eppath@,
            path: self.epath@,
            kind: self.etype,
            modified: self.emodified,
            accessed: self.eaccessed,
            created: self.ecreated,
            size: self.esize,
        }
    }
}

/// A time as a record shows it: 0 where it could not be read.
pub open spec fn time_or_zero(time: Option<u64>) -> u64 {
    match time {
        Some(seconds) => seconds,
        None => 0,
    }
}

/// The size that a record shows: that of a file, where it could be read.
pub open spec fn shown_size(kind: EntryKind, stat: EntryStat) -> Option<u64> {
    if kind == EntryKind::File {
        stat.size
    } else {
        None
    }
}

/// The record of the entry at `path` below `root`. An entry whose path
/// ends in no name is called `Unknown`.
pub open spec fn record_spec(
    root: Seq<char>,
    path: Seq<char>,
    kind: EntryKind,
    stat: EntryStat,
) -> EntryRecord {
    EntryRecord {
        name: match final_component(path) {
            Some(name) => name,
            None => "Unknown"@,
        },
        parent: relative_to_spec(root, parent_spec(path)),
        path: relative_to_spec(root, path),
        kind,
        modified: time_or_zero(stat.modified),
        accessed: time_or_zero(stat.accessed),
        created: time_or_zero(stat.created),
        size: shown_size(kind, stat),
    }
}

/// The record of the child `child` of the directory `dir` below `root`.
pub open spec fn child_record(root: Seq<char>, dir: Seq<char>, child: ChildEntry) -> EntryRecord {
    EntryRecord {
        name: child.name@,
        parent: relative_to_spec(root, dir),
        path: relative_to_spec(root, child_spec(dir, child.name@)),
        kind: child.kind,
        modified: time_or_zero(child.stat.modified),
        accessed: time_or_zero(child.stat.accessed),
        created: time_or_zero(child.stat.created),
        size: shown_size(child.kind, child.stat),
    }
}

/// The records of a directory's children: one for each child that could be
/// read, in the order in which the children were read.
pub open spec fn records_of(
    root: Seq<char>,
    dir: Seq<char>,
    scans: Seq<Option<ChildEntry>>,
) -> Seq<EntryRecord>
    decreases scans.len(),
{
    if scans.len() == 0 {
        Seq::empty()
    } else {
        let head = records_of(root, dir, scans.drop_last());
        match scans.last() {
            Some(child) => head.push(child_record(root, dir, child)),
            None => head,
        }
    }
}

/// How many children could not be read.
pub open spec fn unread_of(scans: Seq<Option<ChildEntry>>) -> nat
    decreases scans.len(),
{
    if scans.len() == 0 {
        0
    } else {
        unread_of(scans.drop_last()) + if scans.last() is None {
            1nat
        } else {
            0nat
        }
    }
}

/// What the records of a listing hold.
pub open spec fn records_view(records: Seq<EntryInfo>) -> Seq<EntryRecord> {
    records.map_values(|info: EntryInfo| info@)
}

/// Every child is either listed or counted as unread.
pub proof fn lemma_listing_accounts(root: Seq<char>, dir: Seq<char>, scans: Seq<Option<ChildEntry>>)
    ensures
        records_of(root, dir, scans).len() + unread_of(scans) == scans.len(),
    decreases scans.len(),
{
    if scans.len() > 0 {
        lemma_listing_accounts(root, dir, scans.drop_last());
    }
}

/// A child that could not be read changes nothing for the others: the
/// listing is the one that the directory would have without it.
pub proof fn lemma_unreadable_child_skipped(
    root: Seq<char>,
    dir: Seq<char>,
    scans: Seq<Option<ChildEntry>>,
    at: int,
)
    requires
        0 <= at < scans.len(),
        scans[at] is None,
    ensures
        records_of(root, dir, scans) == records_of(root, dir, scans.remove(at)),
    decreases scans.len(),
{
    if at == scans.len() - 1 {
        assert(scans.remove(at) == scans.drop_last());
    } else {
        lemma_unreadable_child_skipped(root, dir, scans.drop_last(), at);
        let without = scans.remove(at);
        assert(without.drop_last() == scans.drop_last().remove(at));
        assert(without.last() == scans.last());
    }
}

/// Every child that could be read is listed.
pub proof fn lemma_readable_child_listed(
    root: Seq<char>,
    dir: Seq<char>,
    scans: Seq<Option<ChildEntry>>,
    at: int,
)
    requires
        0 <= at < scans.len(),
        scans[at] is Some,
    ensures
        records_of(root, dir, scans).contains(child_record(root, dir, scans[at]->0)),
    decreases scans.len(),
{
    let all = records_of(root, dir, scans);
    let head = records_of(root, dir, scans.drop_last());
    if at == scans.len() - 1 {
        assert(all.last() == child_record(root, dir, scans[at]->0));
    } else {
        lemma_readable_child_listed(root, dir, scans.drop_last(), at);
        let wanted = child_record(root, dir, scans[at]->0);
        let found = choose|i: int| 0 <= i < head.len() && head[i] == wanted;
        assert(all[found] == wanted);
    }
}

fn or_zero(time: Option<u64>) -> (seconds: u64)
    ensures
        seconds == time_or_zero(time),
{
    match time {
        Some(seconds) => seconds,
        None => 0,
    }
}

fn size_shown(kind: EntryKind, stat: &EntryStat) -> (size: Option<u64>)
    ensures
        size == shown_size(kind, *stat),
{
    match kind {
        EntryKind::File => stat.size,
        _ => None,
    }
}

/// Writes the record of the entry at `path`.
pub fn describe_entry(path: &ResolvedPath, kind: EntryKind, stat: &EntryStat) -> (info: EntryInfo)
    ensures
        info@ == record_spec(path.root_spec(), path.path_spec(), kind, *stat),
{
    let ename = match path.name() {
        Some(name) => name,
        None => "Unknown".to_owned(),
    };
    EntryInfo {
        ename,
        eppath: path.parent_relative(),
        epath: path.relative(),
        etype: kind,
        emodified: or_zero(stat.modified),
        eaccessed: or_zero(stat.accessed),
        ecreated: or_zero(stat.created),
        esize: size_shown(kind, stat),
    }
}

/// The listing of a directory: the records of the children that could be
/// read, and how many could not.
#[derive(Debug)]
pub struct Listing {
    pub records: Vec<EntryInfo>,
    pub skipped: usize,
}

/// Lists the children of the directory `dir` as they were read from it;
/// `None` stands for a child that could not be read. Such a child is left
/// out and counted, and the listing goes on.
pub fn list_children(dir: &ResolvedPath, scans: &Vec<Option<ChildEntry>>) -> (listing: Listing)
    ensures
        records_view(listing.records@) == records_of(dir.root_spec(), dir.path_spec(), scans@),
        listing.skipped == unread_of(scans@),
{
    let root = dir.root();
    let here = dir.path();
    let parent = relative_to(root.as_str(), here.as_str());
    let mut records: Vec<EntryInfo> = Vec::new();
    let mut skipped: usize = 0;
    let mut i: usize = 0;
    assert(scans@.take(0) == Seq::<Option<ChildEntry>>::empty());
    while i < scans.len()
        invariant
            i <= scans.len(),
            root@ == dir.root_spec(),
            here@ == dir.path_spec(),
            parent@ == relative_to_spec(root@, here@),
            skipped == unread_of(scans@.take(i as int)),
            skipped <= i,
            records_view(records@) == records_of(root@, here@, scans@.take(i as int)),
        decreases scans.len() - i,
    {
        let ghost seen = scans@.take(i + 1);
        assert(seen.drop_last() == scans@.take(i as int));
        assert(seen.last() == scans@[i as int]);
        match &scans[i] {
            Some(child) => {
                let path = child_path(here.as_str(), child.name.as_str());
                let info = EntryInfo {
                    ename: child.name.clone(),
                    eppath: parent.clone(),
                    epath: relative_to(root.as_str(), path.as_str()),
                    etype: child.kind,
                    emodified: or_zero(child.stat.modified),
                    eaccessed: or_zero(child.stat.accessed),
                    ecreated: or_zero(child.stat.created),
                    esize: size_shown(child.kind, &child.stat),
                };
                let ghost before = records_view(records@);
                records.push(info);
                assert(records_view(records@) == before.push(info@));
            },
            None => {
                skipped += 1;
            },
        }
        i += 1;
    }
    assert(scans@.take(scans.len() as int) == scans@);
    Listing { records, skipped }
}

/// The path of the entry `name` in the directory `dir`.
pub fn child_path(dir: &str, name: &str) -> (path: String)
    ensures
        path@ == child_spec(dir@, name@),
{
    let dir = crate::text::chars_of(dir);
    let mut path = crate::path::dir_prefix_of(&dir);
    crate::text::extend_chars(&mut path, &crate::text::chars_of(name));
    crate::text::string_of(&path)
}

} // verus!
