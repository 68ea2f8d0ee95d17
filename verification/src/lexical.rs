//! Paths taken apart at their separators, and what their segments resolve
//! to when read as text alone, without a file system.

use crate::text::{copy_range, extend_chars, find_char, find_from, lemma_find_char};
use vstd::prelude::*;

verus! {

/// The segment `.`, which names the directory it stands in.
pub open spec fn dot() -> Seq<char> {
    seq!['.']
}

/// The segment `..`, which names the directory above.
pub open spec fn dot_dot() -> Seq<char> {
    seq!['.', '.']
}

/// Whether `seg` contains no separator.
pub open spec fn no_separator(seg: Seq<char>) -> bool {
    forall|i: int| 0 <= i < seg.len() ==> seg[i] != '/'
}

/// Whether `seg` can name an entry of a directory: not empty, neither `.`
/// nor `..`, and without a separator.
pub open spec fn is_name(seg: Seq<char>) -> bool {
    seg.len() > 0 && seg != dot() && seg != dot_dot() && no_separator(seg)
}

/// Whether every segment is a name.
pub open spec fn all_names(segs: Seq<Seq<char>>) -> bool {
    forall|i: int| 0 <= i < segs.len() ==> is_name(#[trigger] segs[i])
}

/// The segments of `s`: what stands between its separators, before the
/// first and after the last. A string without separator is one segment.
pub open spec fn split(s: Seq<char>) -> Seq<Seq<char>>
    decreases s.len(),
{
    let i = find_char(s, '/');
    if i < 0 || i >= s.len() {
        seq![s]
    } else {
        seq![s.take(i)] + split(s.skip(i + 1))
    }
}

/// The names reached after one more segment: an empty segment and `.`
/// change nothing, `..` leaves the last name (and stays at the top), a name
/// is entered.
pub open spec fn step(stack: Seq<Seq<char>>, seg: Seq<char>) -> Seq<Seq<char>> {
    if seg.len() == 0 || seg == dot() {
        stack
    } else if seg == dot_dot() {
        if stack.len() > 0 {
            stack.drop_last()
        } else {
            stack
        }
    } else {
        stack.push(seg)
    }
}

/// The names reached from `stack` after the segments `segs`, in order.
pub open spec fn resolve_onto(stack: Seq<Seq<char>>, segs: Seq<Seq<char>>) -> Seq<Seq<char>>
    decreases segs.len(),
{
    if segs.len() == 0 {
        stack
    } else {
        resolve_onto(step(stack, segs[0]), segs.drop_first())
    }
}

/// The names from the top directory down to what `path` denotes when `.`
/// and `..` are resolved on the text alone.
pub open spec fn lexical(path: Seq<char>) -> Seq<Seq<char>> {
    resolve_onto(Seq::empty(), split(path))
}

/// Each name with a separator before it, one after the other.
pub open spec fn flat(segs: Seq<Seq<char>>) -> Seq<char>
    decreases segs.len(),
{
    if segs.len() == 0 {
        Seq::empty()
    } else {
        flat(segs.drop_last()).push('/') + segs.last()
    }
}

/// The absolute path that leads through the names `segs`; the top
/// directory is a lone separator.
pub open spec fn render(segs: Seq<Seq<char>>) -> Seq<char> {
    if segs.len() == 0 {
        seq!['/']
    } else {
        flat(segs)
    }
}

/// Whether `path` is absolute and written without `.`, `..`, doubled or
/// trailing separators: rendering what it resolves to gives it back.
pub open spec fn is_normal(path: Seq<char>) -> bool {
    render(lexical(path)) == path
}

/// The last segment that is neither empty nor `.`, unless it is `..`.
pub open spec fn last_significant(segs: Seq<Seq<char>>) -> Option<Seq<char>>
    decreases segs.len(),
{
    if segs.len() == 0 {
        None
    } else if segs.last().len() == 0 || segs.last() == dot() {
        last_significant(segs.drop_last())
    } else if segs.last() == dot_dot() {
        None
    } else {
        Some(segs.last())
    }
}

/// The final component of `path`: the name of what it denotes, if it ends
/// in one. A trailing separator and a trailing `.` are passed over; a path
/// that ends in `..`, and one without any name, has none.
pub open spec fn final_component(path: Seq<char>) -> Option<Seq<char>> {
    last_significant(split(path))
}

/// Whether a segment says where a path leads: it is neither empty nor `.`.
pub open spec fn is_significant(seg: Seq<char>) -> bool {
    seg.len() > 0 && seg != dot()
}

/// The segments that say where a path leads, in order.
pub open spec fn significant(segs: Seq<Seq<char>>) -> Seq<Seq<char>>
    decreases segs.len(),
{
    if segs.len() == 0 {
        Seq::empty()
    } else if is_significant(segs.last()) {
        significant(segs.drop_last()).push(segs.last())
    } else {
        significant(segs.drop_last())
    }
}

/// The segments of `path` as they are written, `..` among them; only empty
/// segments and `.` are left out. Nothing is resolved.
pub open spec fn written(path: Seq<char>) -> Seq<Seq<char>> {
    significant(split(path))
}

/// The sequences that the vectors hold.
pub open spec fn names_of(v: Seq<Vec<char>>) -> Seq<Seq<char>> {
    v.map_values(|x: Vec<char>| x@)
}

/// No segment of a split string contains a separator.
pub proof fn lemma_split_no_separator(s: Seq<char>)
    ensures
        split(s).len() >= 1,
        forall|k: int| 0 <= k < split(s).len() ==> no_separator(#[trigger] split(s)[k]),
    decreases s.len(),
{
    lemma_find_char(s, '/');
    let i = find_char(s, '/');
    if i < s.len() {
        lemma_split_no_separator(s.skip(i + 1));
        let rest = split(s.skip(i + 1));
        assert forall|k: int| 0 <= k < split(s).len() implies no_separator(
            #[trigger] split(s)[k],
        ) by {
            if k == 0 {
                assert(split(s)[0] == s.take(i));
            } else {
                assert(split(s)[k] == rest[k - 1]);
            }
        }
    }
}

/// From names, segments without separator lead to names.
pub proof fn lemma_resolve_names(stack: Seq<Seq<char>>, segs: Seq<Seq<char>>)
    requires
        all_names(stack),
        forall|k: int| 0 <= k < segs.len() ==> no_separator(#[trigger] segs[k]),
    ensures
        all_names(resolve_onto(stack, segs)),
    decreases segs.len(),
{
    if segs.len() > 0 {
        let next = step(stack, segs[0]);
        assert(no_separator(segs[0]));
        assert(all_names(next)) by {
            assert forall|i: int| 0 <= i < next.len() implies is_name(#[trigger] next[i]) by {
                if i < stack.len() {
                    assert(next[i] == stack[i]);
                }
            }
        }
        let rest = segs.drop_first();
        assert forall|k: int| 0 <= k < rest.len() implies no_separator(#[trigger] rest[k]) by {
            assert(rest[k] == segs[k + 1]);
        }
        lemma_resolve_names(next, rest);
    }
}

/// What a path resolves to is made of names.
pub proof fn lemma_lexical_names(path: Seq<char>)
    ensures
        all_names(lexical(path)),
{
    lemma_split_no_separator(path);
    lemma_resolve_names(Seq::empty(), split(path));
}

/// Splits `v` at its separators.
pub fn split_path(v: &Vec<char>) -> (segs: Vec<Vec<char>>)
    ensures
        names_of(segs@) == split(v@),
{
    let mut segs: Vec<Vec<char>> = Vec::new();
    let mut start: usize = 0;
    assert(v@.skip(0) == v@);
    assert(names_of(segs@) + split(v@) == split(v@));
    loop
        invariant_except_break
            start <= v.len(),
            names_of(segs@) + split(v@.skip(start as int)) == split(v@),
        ensures
            names_of(segs@) == split(v@),
        decreases v.len() - start,
    {
        let end = find_from(v, start, '/');
        let seg = copy_range(v, start, end);
        let ghost rest = v@.skip(start as int);
        let ghost before = names_of(segs@);
        proof {
            lemma_find_char(rest, '/');
            assert(seg@ == rest.take(end - start));
        }
        segs.push(seg);
        assert(names_of(segs@) == before.push(seg@));
        if end == v.len() {
            proof {
                assert(rest.take(end - start) == rest);
                assert(split(rest) == seq![rest]);
                assert(before.push(seg@) == before + seq![rest]);
            }
            break;
        }
        proof {
            assert(rest.skip(end - start + 1) == v@.skip(end + 1));
            assert(split(rest) == seq![seg@] + split(v@.skip(end + 1)));
            assert(before + (seq![seg@] + split(v@.skip(end + 1))) == before.push(seg@) + split(
                v@.skip(end + 1),
            ));
        }
        start = end + 1;
    }
    segs
}

/// Whether `seg` is `.`.
fn is_dot(seg: &Vec<char>) -> (yes: bool)
    ensures
        yes == (seg@ == dot()),
{
    let yes = seg.len() == 1 && seg[0] == '.';
    proof {
        if yes {
            assert(seg@ == dot());
        } else if seg.len() == 1 {
            assert(seg@[0] != dot()[0]);
        }
    }
    yes
}

/// Whether `seg` is `..`.
fn is_dot_dot(seg: &Vec<char>) -> (yes: bool)
    ensures
        yes == (seg@ == dot_dot()),
{
    let yes = seg.len() == 2 && seg[0] == '.' && seg[1] == '.';
    proof {
        if yes {
            assert(seg@ == dot_dot());
        } else if seg.len() == 2 {
            assert(seg@[0] != dot_dot()[0] || seg@[1] != dot_dot()[1]);
        }
    }
    yes
}

/// Resolves `.` and `..` in `v` on the text alone.
pub fn lexical_segments(v: &Vec<char>) -> (stack: Vec<Vec<char>>)
    ensures
        names_of(stack@) == lexical(v@),
        all_names(names_of(stack@)),
{
    let segs = split_path(v);
    let mut stack: Vec<Vec<char>> = Vec::new();
    let mut i: usize = 0;
    assert(names_of(segs@).skip(0) == names_of(segs@));
    assert(names_of(stack@) == Seq::<Seq<char>>::empty());
    while i < segs.len()
        invariant
            i <= segs.len(),
            resolve_onto(names_of(stack@), names_of(segs@).skip(i as int)) == lexical(v@),
        decreases segs.len() - i,
    {
        let ghost before = names_of(stack@);
        let ghost ahead = names_of(segs@).skip(i as int);
        assert(ahead[0] == segs@[i as int]@);
        assert(ahead.drop_first() == names_of(segs@).skip(i + 1));
        let seg = &segs[i];
        if seg.len() == 0 || is_dot(seg) {
        } else if is_dot_dot(seg) {
            if stack.len() > 0 {
                stack.pop();
                assert(names_of(stack@) == before.drop_last());
            }
        } else {
            let name = copy_range(seg, 0, seg.len());
            assert(name@ == seg@);
            stack.push(name);
            assert(names_of(stack@) == before.push(seg@));
        }
        assert(names_of(stack@) == step(before, ahead[0]));
        i += 1;
    }
    proof {
        lemma_lexical_names(v@);
    }
    stack
}

/// The segments of `v` as they are written, without the empty ones and
/// `.`.
pub fn written_segments(v: &Vec<char>) -> (kept: Vec<Vec<char>>)
    ensures
        names_of(kept@) == written(v@),
{
    let segs = split_path(v);
    let mut kept: Vec<Vec<char>> = Vec::new();
    let mut i: usize = 0;
    assert(names_of(segs@).take(0) == Seq::<Seq<char>>::empty());
    assert(names_of(kept@) == Seq::<Seq<char>>::empty());
    while i < segs.len()
        invariant
            i <= segs.len(),
            names_of(segs@) == split(v@),
            names_of(kept@) == significant(names_of(segs@).take(i as int)),
        decreases segs.len() - i,
    {
        let ghost seen = names_of(segs@).take(i + 1);
        assert(seen.drop_last() == names_of(segs@).take(i as int));
        assert(seen.last() == segs@[i as int]@);
        let seg = &segs[i];
        if seg.len() > 0 && !is_dot(seg) {
            let copy = copy_range(seg, 0, seg.len());
            assert(copy@ == seg@);
            let ghost before = names_of(kept@);
            kept.push(copy);
            assert(names_of(kept@) == before.push(seg@));
        }
        i += 1;
    }
    assert(names_of(segs@).take(segs.len() as int) == names_of(segs@));
    kept
}

/// Writes the absolute path that leads through `segs`.
pub fn render_segments(segs: &Vec<Vec<char>>) -> (path: Vec<char>)
    ensures
        path@ == render(names_of(segs@)),
{
    let mut path: Vec<char> = Vec::new();
    if segs.len() == 0 {
        path.push('/');
        assert(path@ == seq!['/']);
        return path;
    }
    let mut i: usize = 0;
    assert(names_of(segs@).take(0) == Seq::<Seq<char>>::empty());
    while i < segs.len()
        invariant
            i <= segs.len(),
            path@ == flat(names_of(segs@).take(i as int)),
        decreases segs.len() - i,
    {
        proof {
            let next = names_of(segs@).take(i + 1);
            assert(next.drop_last() == names_of(segs@).take(i as int));
            assert(next.last() == segs@[i as int]@);
        }
        path.push('/');
        extend_chars(&mut path, &segs[i]);
        i += 1;
    }
    assert(names_of(segs@).take(segs.len() as int) == names_of(segs@));
    path
}

/// Finds the final component of `v`.
pub fn final_component_of(v: &Vec<char>) -> (name: Option<Vec<char>>)
    ensures
        name is Some == final_component(v@) is Some,
        name is Some ==> name->0@ == final_component(v@)->0,
{
    let segs = split_path(v);
    let mut i: usize = segs.len();
    assert(names_of(segs@).take(i as int) == names_of(segs@));
    while i > 0
        invariant
            i <= segs.len(),
            last_significant(names_of(segs@).take(i as int)) == final_component(v@),
        decreases i,
    {
        let ghost head = names_of(segs@).take(i as int);
        assert(head.last() == segs@[i - 1]@);
        assert(head.drop_last() == names_of(segs@).take(i - 1));
        let seg = &segs[i - 1];
        if seg.len() == 0 || is_dot(seg) {
            i -= 1;
        } else if is_dot_dot(seg) {
            return None;
        } else {
            let name = copy_range(seg, 0, seg.len());
            assert(name@ == seg@);
            return Some(name);
        }
    }
    None
}

} // verus!
