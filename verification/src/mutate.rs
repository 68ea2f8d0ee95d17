//! The entry mutator: what is removed, where a renamed entry goes, and
//! where a new directory may stand.

use crate::entry::EntryKind;
use crate::error::GatewayError;
use crate::containment::lemma_child_inside;
use crate::lexical::{all_names, flat, is_normal, names_of, render, written, written_segments};
use crate::path::{confined, descend, join_chars, join_path_spec, ResolvedPath, RootContext};
use crate::text::{chars_of, extend_chars, option_view, string_of};
use vstd::prelude::*;

verus! {

/// How an entry is removed.
#[derive(Clone, Copy, Debug, PartialEq, Eq, Structural)]
pub enum Removal {
    /// The entry alone: a file or a link.
    Single,
    /// The directory and everything below it.
    Tree,
    /// The entry is of no kind that can be removed; it stays.
    Nothing,
}

/// How an entry of kind `kind` is removed.
pub open spec fn removal_spec(kind: EntryKind) -> Removal {
    match kind {
        EntryKind::File => Removal::Single,
        EntryKind::Symlink => Removal::Single,
        EntryKind::Directory => Removal::Tree,
        EntryKind::Unknown => Removal::Nothing,
    }
}

/// How an entry of kind `kind` is removed.
pub fn removal_for(kind: EntryKind) -> (removal: Removal)
    ensures
        removal == removal_spec(kind),
{
    match kind {
        EntryKind::File => Removal::Single,
        EntryKind::Symlink => Removal::Single,
        EntryKind::Directory => Removal::Tree,
        EntryKind::Unknown => Removal::Nothing,
    }
}

/// Whether `name` contains a separator.
pub open spec fn has_separator(name: Seq<char>) -> bool {
    exists|i: int| 0 <= i < name.len() && name[i] == '/'
}

/// Where the entry at `source` goes when it is renamed to `newname`: into
/// the directory that holds it, under the new name. Refused as `Forbidden`:
/// a new name that is no bare name (above all one with a separator in it,
/// which could lead out of that directory), and the root directory as the
/// entry to rename.
pub fn rename_target(source: &ResolvedPath, newname: &str) -> (target: Result<
    ResolvedPath,
    GatewayError,
>)
    ensures
        has_separator(newname@) ==> target == Err::<ResolvedPath, GatewayError>(
            GatewayError::Forbidden,
        ),
        source.has_sibling(newname@) ==> target is Ok && target->Ok_0.root_spec()
            == source.root_spec() && target->Ok_0.path_spec() == crate::path::child_spec(
            crate::path::parent_spec(source.path_spec()),
            newname@,
        ) && target->Ok_0.inside_root(),
        !source.has_sibling(newname@) ==> target == Err::<ResolvedPath, GatewayError>(
            GatewayError::Forbidden,
        ),
{
    source.sibling(newname)
}

/// Why a renaming failed in the file system: `NotFound` where the entry
/// was gone by then, `Conflict` for every other reason.
pub fn rename_failure(source_missing: bool) -> (error: GatewayError)
    ensures
        error == if source_missing {
            GatewayError::NotFound
        } else {
            GatewayError::Conflict
        },
{
    if source_missing {
        GatewayError::NotFound
    } else {
        GatewayError::Conflict
    }
}

/// Whether the file system's answer to a removal counts as done. A file,
/// a link or a directory is removed exactly if the file system removed it.
/// An entry of no kind that can be removed stays, nothing is asked of the
/// file system, and the request counts as done all the same.
pub open spec fn removal_outcome_spec(removal: Removal, removed: bool) -> bool {
    match removal {
        Removal::Single => removed,
        Removal::Tree => removed,
        Removal::Nothing => true,
    }
}

/// What the answer to a removal is built on: `removed` is what the file
/// system said of the removal that was asked of it, and counts for nothing
/// where none was asked.
pub fn removal_outcome(removal: Removal, removed: bool) -> (done: bool)
    ensures
        done == removal_outcome_spec(removal, removed),
{
    match removal {
        Removal::Single => removed,
        Removal::Tree => removed,
        Removal::Nothing => true,
    }
}

/// Where a new directory is to stand, and how far up its path the search
/// for a directory that exists has come.
///
/// The plan holds the client's path, joined onto the root, segment by
/// segment as it is written. It resolves nothing itself: what `..` and
/// links lead to is for the file system to say. So the plan asks for the
/// canonical path of its candidates, the longest first, and builds the
/// target on the first that exists, out of the segments that are left.
#[derive(Debug)]
pub struct CreatePlan {
    root: Vec<char>,
    segments: Vec<Vec<char>>,
    depth: usize,
}

/// What comes of an answer to a plan's question.
#[derive(Debug)]
pub enum CreateStep {
    /// The candidate does not exist: ask again, one segment shorter.
    Ask(CreatePlan),
    /// The directory to create, and all that is missing above it.
    Create(ResolvedPath),
    /// Nothing may be created.
    Refuse(GatewayError),
}

/// What an answer leads to: the depth to ask at next, the path of the
/// directory to create, or the refusal.
pub enum AnswerView {
    Ask(nat),
    Create(Seq<char>),
    Refuse(GatewayError),
}

/// The path reached from a directory in normal form inside the root by
/// entering names lies inside the root, in normal form.
pub proof fn lemma_descend_inside(root: Seq<char>, base: Seq<char>, names: Seq<Seq<char>>)
    requires
        is_normal(base),
        confined(root, base),
        all_names(names),
    ensures
        is_normal(descend(base, names)),
        confined(root, descend(base, names)),
    decreases names.len(),
{
    if names.len() > 0 {
        let head = names.drop_last();
        assert(all_names(head)) by {
            assert forall|i: int| 0 <= i < head.len() implies crate::lexical::is_name(
                #[trigger] head[i],
            ) by {
                assert(head[i] == names[i]);
            }
        }
        assert(crate::lexical::is_name(names[names.len() - 1]));
        lemma_descend_inside(root, base, head);
        lemma_child_inside(root, descend(base, head), names.last());
    }
}

/// One more name among the first segments leaves them all names.
proof fn lemma_names_so_far(segs: Seq<Seq<char>>, count: int)
    requires
        0 <= count < segs.len(),
        all_names(segs.take(count)),
        crate::lexical::is_name(segs[count]),
    ensures
        all_names(segs.take(count + 1)),
{
    let longer = segs.take(count + 1);
    assert forall|j: int| 0 <= j < longer.len() implies crate::lexical::is_name(
        #[trigger] longer[j],
    ) by {
        if j < count {
            assert(longer[j] == segs.take(count)[j]);
        }
    }
}

impl CreatePlan {
    #[verifier::type_invariant]
    spec fn sound(self) -> bool {
        is_normal(self.root@) && self.depth <= self.segments.len()
    }

    /// The root directory.
    pub closed spec fn root_spec(self) -> Seq<char> {
        self.root@
    }

    /// The segments of the path from the top directory to the new
    /// directory, as they are written.
    pub closed spec fn segments_spec(self) -> Seq<Seq<char>> {
        names_of(self.segments@)
    }

    /// How many of the segments the candidate holds.
    pub closed spec fn depth_spec(self) -> nat {
        self.depth as nat
    }

    /// What holds of every plan.
    pub open spec fn well_formed(self) -> bool {
        is_normal(self.root_spec()) && self.depth_spec() <= self.segments_spec().len()
    }

    /// The candidate: the path from the top directory through the first
    /// `depth` segments, `..` among them.
    pub open spec fn candidate_spec(self) -> Seq<char> {
        render(self.segments_spec().take(self.depth_spec() as int))
    }

    /// The segments that the candidate leaves out.
    pub open spec fn missing_spec(self) -> Seq<Seq<char>> {
        self.segments_spec().skip(self.depth_spec() as int)
    }

    /// The plan's question: the path whose canonical form the file system
    /// is to give.
    pub fn candidate(&self) -> (path: String)
        ensures
            path@ == self.candidate_spec(),
            self.well_formed(),
    {
        proof {
            use_type_invariant(self);
        }
        let mut path: Vec<char> = Vec::new();
        if self.depth == 0 {
            path.push('/');
            assert(path@ == seq!['/']);
            return string_of(&path);
        }
        let ghost wanted = names_of(self.segments@).take(self.depth as int);
        let mut i: usize = 0;
        assert(wanted.take(0) == Seq::<Seq<char>>::empty());
        while i < self.depth
            invariant
                i <= self.depth <= self.segments.len(),
                wanted == names_of(self.segments@).take(self.depth as int),
                path@ == flat(wanted.take(i as int)),
            decreases self.depth - i,
        {
            proof {
                let next = wanted.take(i + 1);
                assert(next.drop_last() == wanted.take(i as int));
                assert(next.last() == self.segments@[i as int]@);
            }
            path.push('/');
            extend_chars(&mut path, &self.segments[i]);
            i += 1;
        }
        assert(wanted.take(self.depth as int) == wanted);
        string_of(&path)
    }

    /// What `answer` makes of the file system's answer.
    pub open spec fn answer_spec(self, canonical: Option<Seq<char>>) -> AnswerView {
        match canonical {
            None => if self.depth_spec() == 0 {
                AnswerView::Refuse(GatewayError::NotFound)
            } else {
                AnswerView::Ask((self.depth_spec() - 1) as nat)
            },
            Some(path) => if is_normal(path) && confined(self.root_spec(), path) && all_names(
                self.missing_spec(),
            ) {
                AnswerView::Create(descend(path, self.missing_spec()))
            } else {
                AnswerView::Refuse(GatewayError::Forbidden)
            },
        }
    }

    /// Takes the file system's answer to the plan's question: the
    /// candidate's canonical path, or `None` where the candidate does not
    /// exist.
    ///
    /// A candidate that exists carries the target where its canonical path
    /// lies inside the root and every segment that it left out is a name:
    /// the target is that path, entered by these names. A candidate that
    /// exists outside the root is refused as `Forbidden`, and so is one
    /// that leaves out a `..`: what that would lead to does not exist, so
    /// the file system cannot say where. After a candidate that does not
    /// exist the plan asks with one segment less; where not even the top
    /// directory exists, it gives up with `NotFound`.
    pub fn answer(self, canonical: Option<&str>) -> (step: CreateStep)
        ensures
            match (step, self.answer_spec(option_view(canonical))) {
                (CreateStep::Ask(next), AnswerView::Ask(depth)) => next.root_spec()
                    == self.root_spec() && next.segments_spec() == self.segments_spec()
                    && next.depth_spec() == depth && next.well_formed(),
                (CreateStep::Create(target), AnswerView::Create(path)) => target.root_spec()
                    == self.root_spec() && target.path_spec() == path && target.inside_root(),
                (CreateStep::Refuse(error), AnswerView::Refuse(wanted)) => error == wanted,
                _ => false,
            },
    {
        proof {
            use_type_invariant(&self);
        }
        match canonical {
            None => {
                if self.depth == 0 {
                    CreateStep::Refuse(GatewayError::NotFound)
                } else {
                    CreateStep::Ask(
                        CreatePlan {
                            root: self.root,
                            segments: self.segments,
                            depth: self.depth - 1,
                        },
                    )
                }
            },
            Some(text) => {
                let base = chars_of(text);
                let mut target = match ResolvedPath::confine(&self.root, base) {
                    Some(target) => target,
                    None => { return CreateStep::Refuse(GatewayError::Forbidden); },
                };
                let mut i: usize = self.depth;
                let ghost missing = self.missing_spec();
                assert(missing.take(0) == Seq::<Seq<char>>::empty());
                while i < self.segments.len()
                    invariant
                        self.depth <= i <= self.segments.len(),
                        canonical == Some(text),
                        is_normal(text@),
                        confined(self.root@, text@),
                        missing == self.missing_spec(),
                        missing == names_of(self.segments@).skip(self.depth as int),
                        all_names(missing.take(i - self.depth)),
                        target.root_spec() == self.root@,
                        target.inside_root(),
                        target.path_spec() == descend(text@, missing.take(i - self.depth)),
                    decreases self.segments.len() - i,
                {
                    let ghost k = i - self.depth;
                    proof {
                        let next = missing.take(k + 1);
                        assert(next.drop_last() == missing.take(k));
                        assert(next.last() == self.segments@[i as int]@);
                        assert(missing[k] == self.segments@[i as int]@);
                    }
                    target = match target.child_chars(&self.segments[i]) {
                        Ok(child) => child,
                        Err(error) => {
                            assert(!all_names(missing)) by {
                                assert(!crate::lexical::is_name(missing[k]));
                            }
                            return CreateStep::Refuse(error);
                        },
                    };
                    proof {
                        lemma_names_so_far(missing, k);
                    }
                    i += 1;
                }
                assert(missing.take(self.segments.len() - self.depth) == missing);
                CreateStep::Create(target)
            },
        }
    }

    /// A `..` among the segments that a candidate leaves out is refused,
    /// wherever the candidate lies: the plan never resolves it on the text.
    pub proof fn lemma_left_over_dots_refused(self, canonical: Seq<char>, at: int)
        requires
            0 <= at < self.missing_spec().len(),
            self.missing_spec()[at] == crate::lexical::dot_dot(),
        ensures
            self.answer_spec(Some(canonical)) == AnswerView::Refuse(GatewayError::Forbidden),
    {
        assert(!crate::lexical::is_name(self.missing_spec()[at]));
    }

    /// What a plan lets be created lies inside the root.
    pub proof fn lemma_created_inside(self, canonical: Seq<char>)
        requires
            self.answer_spec(Some(canonical)) is Create,
        ensures
            is_normal(self.answer_spec(Some(canonical))->Create_0),
            confined(self.root_spec(), self.answer_spec(Some(canonical))->Create_0),
    {
        lemma_descend_inside(self.root_spec(), canonical, self.missing_spec());
    }
}

/// Plans the creation of the directory that the client's `rel` denotes:
/// the plan holds the segments of `rel` joined onto the root as they are
/// written, and starts with the whole path as its candidate.
pub fn plan_create(context: &RootContext, rel: &str) -> (plan: CreatePlan)
    ensures
        plan.root_spec() == context.root_spec(),
        plan.segments_spec() == written(join_path_spec(context.root_spec(), rel@)),
        plan.depth_spec() == plan.segments_spec().len(),
        plan.well_formed(),
{
    let root = chars_of(context.root().as_str());
    let segments = written_segments(&join_chars(&root, &chars_of(rel)));
    let depth = segments.len();
    CreatePlan { root, segments, depth }
}

} // verus!
