//! The upload receiver: under which name a part is stored, and how much
//! has come in.

use crate::lexical::{
    dot, dot_dot, final_component, is_name, last_significant, lemma_split_no_separator,
    no_separator, split,
};
use crate::download::{body_spec, lemma_full_download, plan_spec};
use crate::path::{child_spec, file_name_of, ResolvedPath};
use vstd::prelude::*;
use vstd::string::StringExecFns;

verus! {

/// The name under which a part is stored: the final component of the file
/// name that the client gave, and `unknow` where that has none.
pub open spec fn sanitized_spec(raw: Seq<char>) -> Seq<char> {
    match final_component(raw) {
        Some(name) => name,
        None => "unknow"@,
    }
}

/// The last significant segment of segments without separator is a name.
proof fn lemma_last_significant_name(segs: Seq<Seq<char>>)
    requires
        forall|k: int| 0 <= k < segs.len() ==> no_separator(#[trigger] segs[k]),
    ensures
        last_significant(segs) matches Some(name) ==> is_name(name),
    decreases segs.len(),
{
    if segs.len() > 0 {
        let last = segs.last();
        assert(no_separator(segs[segs.len() - 1]));
        if last.len() == 0 || last == dot() {
            let head = segs.drop_last();
            assert forall|k: int| 0 <= k < head.len() implies no_separator(#[trigger] head[k]) by {
                assert(head[k] == segs[k]);
            }
            lemma_last_significant_name(head);
        }
    }
}

/// Whatever file name the client gives, the part is stored under a bare
/// name: one that leads into no other directory.
pub proof fn lemma_sanitized_is_name(raw: Seq<char>)
    ensures
        is_name(sanitized_spec(raw)),
{
    lemma_split_no_separator(raw);
    lemma_last_significant_name(split(raw));
    reveal_strlit("unknow");
    let fallback = "unknow"@;
    assert(fallback.len() == 6);
    assert(fallback != dot());
    assert(fallback != dot_dot());
}

/// The name under which a part with the file name `raw` is stored:
/// `sanitize_file_name("../../etc/passwd")` is `"passwd"`.
pub fn sanitize_file_name(raw: &str) -> (name: String)
    ensures
        name@ == sanitized_spec(raw@),
        is_name(name@),
{
    proof {
        lemma_sanitized_is_name(raw@);
    }
    match file_name_of(raw) {
        Some(name) => name,
        None => String::from_str("unknow"),
    }
}

/// Where a part is stored in the directory `dir`: under its sanitized file
/// name. A part without file name is not stored.
pub fn upload_target(dir: &ResolvedPath, file_name: Option<&str>) -> (target: Option<
    ResolvedPath,
>)
    ensures
        file_name is None ==> target is None,
        file_name matches Some(raw) ==> target is Some && target->0.root_spec() == dir.root_spec()
            && target->0.path_spec() == child_spec(dir.path_spec(), sanitized_spec(raw@))
            && target->0.inside_root(),
{
    match file_name {
        None => None,
        Some(raw) => {
            let name = sanitize_file_name(raw);
            match dir.child(name.as_str()) {
                Ok(target) => Some(target),
                Err(_) => None,
            }
        },
    }
}

/// The sum of the chunk sizes.
pub open spec fn sum_of(chunks: Seq<usize>) -> nat
    decreases chunks.len(),
{
    if chunks.len() == 0 {
        0
    } else {
        sum_of(chunks.drop_last()) + chunks.last() as nat
    }
}

/// A count of bytes as the tally holds it: the count itself as long as it
/// fits, the greatest number that fits from there.
pub open spec fn capped(count: nat) -> u64 {
    if count <= u64::MAX {
        count as u64
    } else {
        u64::MAX
    }
}

/// The total after chunks of the sizes `chunks` have come in, one after
/// the other, on top of `total`.
pub open spec fn total_after(total: u64, chunks: Seq<usize>) -> u64
    decreases chunks.len(),
{
    if chunks.len() == 0 {
        total
    } else {
        capped(total_after(total, chunks.drop_last()) as nat + chunks.last() as nat)
    }
}

/// The total that is reported is the sum of the bytes that came in.
pub proof fn lemma_total_is_sum(chunks: Seq<usize>)
    ensures
        total_after(0, chunks) == capped(sum_of(chunks)),
    decreases chunks.len(),
{
    if chunks.len() > 0 {
        lemma_total_is_sum(chunks.drop_last());
    }
}

/// What a file holds that was written chunk by chunk: the chunks, one
/// after the other.
pub open spec fn assembled(chunks: Seq<Seq<u8>>) -> Seq<u8>
    decreases chunks.len(),
{
    if chunks.len() == 0 {
        Seq::empty()
    } else {
        assembled(chunks.drop_last()) + chunks.last()
    }
}

/// The sizes of the chunks.
pub open spec fn sizes_of(chunks: Seq<Seq<u8>>) -> Seq<usize> {
    Seq::new(chunks.len(), |i: int| chunks[i].len() as usize)
}

/// The sizes of chunks add up to the size of what they assemble to.
proof fn lemma_assembled_size(chunks: Seq<Seq<u8>>)
    requires
        forall|i: int| 0 <= i < chunks.len() ==> (#[trigger] chunks[i]).len() <= usize::MAX,
    ensures
        sum_of(sizes_of(chunks)) == assembled(chunks).len(),
    decreases chunks.len(),
{
    if chunks.len() > 0 {
        let head = chunks.drop_last();
        assert forall|i: int| 0 <= i < head.len() implies (#[trigger] head[i]).len()
            <= usize::MAX by {
            assert(head[i] == chunks[i]);
        }
        lemma_assembled_size(head);
        assert(sizes_of(chunks).drop_last() == sizes_of(head));
        assert(chunks[chunks.len() - 1].len() <= usize::MAX);
    }
}

/// A file that was uploaded in chunks and is downloaded without `Range`
/// header comes back as it went in. Where the file holds the chunks that
/// came in, one after the other, the total that the upload reports is the
/// file's size, and the download sends exactly the file's content, under
/// status 200.
pub proof fn lemma_round_trip(name: Seq<char>, media: Seq<char>, chunks: Seq<Seq<u8>>)
    requires
        forall|i: int| 0 <= i < chunks.len() ==> (#[trigger] chunks[i]).len() <= usize::MAX,
        assembled(chunks).len() <= u64::MAX,
    ensures
        total_after(0, sizes_of(chunks)) == assembled(chunks).len(),
        plan_spec(name, media, assembled(chunks).len() as u64, None) is Ok,
        plan_spec(name, media, assembled(chunks).len() as u64, None)->Ok_0.status == 200,
        plan_spec(name, media, assembled(chunks).len() as u64, None)->Ok_0.length == assembled(
            chunks,
        ).len(),
        body_spec(
            assembled(chunks),
            plan_spec(name, media, assembled(chunks).len() as u64, None)->Ok_0,
        ) == assembled(chunks),
{
    lemma_assembled_size(chunks);
    lemma_total_is_sum(sizes_of(chunks));
    lemma_full_download(name, media, assembled(chunks), assembled(chunks).len() as u64);
}

/// How many bytes an upload has brought so far, over all its parts.
#[derive(Clone, Copy, Debug, PartialEq, Eq)]
pub struct UploadTally {
    total: u64,
}

impl UploadTally {
    /// The total so far.
    pub closed spec fn total_spec(self) -> u64 {
        self.total
    }

    /// The tally of an upload that has brought nothing yet.
    pub fn new() -> (tally: UploadTally)
        ensures
            tally.total_spec() == 0,
    {
        UploadTally { total: 0 }
    }

    /// Counts a chunk of `size` bytes.
    pub fn add_chunk(&mut self, size: usize)
        ensures
            final(self).total_spec() == capped(old(self).total_spec() as nat + size as nat),
    {
        let size = size as u64;
        if size > u64::MAX - self.total {
            self.total = u64::MAX;
        } else {
            self.total = self.total + size;
        }
    }

    /// The total so far.
    pub fn total(&self) -> (total: u64)
        ensures
            total == self.total_spec(),
    {
        self.total
    }
}

} // verus!
