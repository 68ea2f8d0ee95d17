//! Why the resolver's test on the text of a path is a test on where the
//! path leads: for paths in normal form, to begin with the root and a
//! separator is to lead through the root's names.

use crate::error::GatewayError;
use crate::lexical::{
    all_names, flat, is_name, is_normal, lemma_lexical_names, lexical, no_separator, render,
    resolve_onto, split, step,
};
use crate::path::{
    child_spec, confined, dir_prefix, join_path_spec, last_separator, parent_spec, RootContext,
};
use crate::text::{find_char, lemma_find_char, lemma_find_char_is};
use vstd::prelude::*;

verus! {

/// `flat(segs)` with a separator at its end: the beginning of every path
/// that leads through `segs`.
pub open spec fn flat_prefix(segs: Seq<Seq<char>>) -> Seq<char> {
    flat(segs).push('/')
}

/// The flat form of names that are not empty is not empty, and ends in no
/// separator.
proof fn lemma_flat_end(segs: Seq<Seq<char>>)
    requires
        all_names(segs),
        segs.len() > 0,
    ensures
        flat(segs).len() >= 2,
        flat(segs).last() != '/',
        flat(segs) == flat(segs.drop_last()).push('/') + segs.last(),
{
    let last = segs.last();
    assert(is_name(segs[segs.len() - 1]));
    assert(flat(segs).last() == last[last.len() - 1]);
}

/// For names, the root as the beginning of the paths below it is its flat
/// form and a separator.
proof fn lemma_dir_prefix_of_render(segs: Seq<Seq<char>>)
    requires
        all_names(segs),
    ensures
        dir_prefix(render(segs)) == flat_prefix(segs),
{
    if segs.len() == 0 {
        assert(render(segs).last() == '/');
        assert(flat(segs) == Seq::<char>::empty());
        assert(render(segs) == flat_prefix(segs));
    } else {
        lemma_flat_end(segs);
    }
}

/// Names that lead through `first` lead to a path that begins with the
/// flat form of `first` and a separator.
proof fn lemma_prefix_gives_flat_prefix(first: Seq<Seq<char>>, all: Seq<Seq<char>>)
    requires
        first.is_prefix_of(all),
    ensures
        flat_prefix(first).is_prefix_of(flat_prefix(all)),
    decreases all.len(),
{
    if first.len() == all.len() {
        assert(first == all);
    } else {
        let head = all.drop_last();
        assert(first.is_prefix_of(head)) by {
            assert(first == head.subrange(0, first.len() as int));
        }
        lemma_prefix_gives_flat_prefix(first, head);
        let short = flat_prefix(first);
        let middle = flat_prefix(head);
        let long = flat_prefix(all);
        assert(long == middle + all.last() + seq!['/']);
        assert(short == long.subrange(0, short.len() as int)) by {
            assert(short == middle.subrange(0, short.len() as int));
        }
    }
}

/// A path that begins with the flat form of the names `first` and a
/// separator leads through `first`.
proof fn lemma_flat_prefix_gives_prefix(first: Seq<Seq<char>>, all: Seq<Seq<char>>)
    requires
        all_names(first),
        all_names(all),
        flat_prefix(first).is_prefix_of(flat_prefix(all)),
    ensures
        first.is_prefix_of(all),
    decreases first.len() + all.len(),
{
    let short = flat_prefix(first);
    let long = flat_prefix(all);
    let n = flat(first).len() as int;
    assert(short == long.subrange(0, short.len() as int));
    assert(long[n] == short[n]);
    assert(long[n] == '/');
    if all.len() == 0 {
        if first.len() > 0 {
            lemma_flat_end(first);
        }
        assert(first == all.subrange(0, 0));
    } else {
        lemma_flat_end(all);
        let head = all.drop_last();
        let b = all.last();
        assert(is_name(all[all.len() - 1]));
        let m1 = flat(head).len() as int;
        let m = flat(all).len() as int;
        assert(all_names(head)) by {
            assert forall|i: int| 0 <= i < head.len() implies is_name(#[trigger] head[i]) by {
                assert(head[i] == all[i]);
            }
        }
        assert(long == flat_prefix(head) + b + seq!['/']);
        if n <= m1 {
            assert(short == flat_prefix(head).subrange(0, short.len() as int)) by {
                assert forall|i: int| 0 <= i < short.len() implies short[i] == flat_prefix(
                    head,
                )[i] by {
                    assert(short[i] == long[i]);
                }
            }
            lemma_flat_prefix_gives_prefix(first, head);
            assert(first == all.subrange(0, first.len() as int)) by {
                assert(first == head.subrange(0, first.len() as int));
            }
        } else if n < m {
            assert(long[n] == b[n - m1 - 1]);
            assert(false);
        } else {
            assert(n == m);
            assert(first.len() > 0) by {
                if first.len() == 0 {
                    assert(flat(first).len() == 0);
                }
            }
            lemma_flat_end(first);
            let first_head = first.drop_last();
            let a = first.last();
            assert(is_name(first[first.len() - 1]));
            let n1 = flat(first_head).len() as int;
            assert(all_names(first_head)) by {
                assert forall|i: int| 0 <= i < first_head.len() implies is_name(
                    #[trigger] first_head[i],
                ) by {
                    assert(first_head[i] == first[i]);
                }
            }
            assert(short == flat_prefix(first_head) + a + seq!['/']);
            assert(short == long);
            if n1 < m1 {
                assert(short[m1] == a[m1 - n1 - 1]);
                assert(long[m1] == '/');
                assert(false);
            } else if n1 > m1 {
                assert(long[n1] == b[n1 - m1 - 1]);
                assert(short[n1] == '/');
                assert(false);
            } else {
                assert(a == b) by {
                    assert(a.len() == b.len());
                    assert forall|i: int| 0 <= i < a.len() implies a[i] == b[i] by {
                        assert(short[n1 + 1 + i] == a[i]);
                        assert(long[m1 + 1 + i] == b[i]);
                    }
                }
                assert(flat_prefix(first_head) == flat_prefix(head)) by {
                    assert(flat_prefix(first_head) == short.subrange(0, n1 + 1));
                    assert(flat_prefix(head) == long.subrange(0, m1 + 1));
                }
                assert(flat_prefix(first_head) == flat_prefix(head).subrange(0, n1 + 1));
                assert(flat_prefix(head) == flat_prefix(first_head).subrange(0, m1 + 1));
                lemma_flat_prefix_gives_prefix(first_head, head);
                lemma_flat_prefix_gives_prefix(head, first_head);
                assert(first_head == head);
                assert(first == all) by {
                    assert(first == first_head.push(a));
                    assert(all == head.push(b));
                }
                assert(first == all.subrange(0, first.len() as int));
            }
        }
    }
}

/// For names, the path through `all` is confined to the path through
/// `root` exactly if `all` leads through `root`.
pub proof fn lemma_confined_names(root: Seq<Seq<char>>, all: Seq<Seq<char>>)
    requires
        all_names(root),
        all_names(all),
    ensures
        confined(render(root), render(all)) == root.is_prefix_of(all),
{
    lemma_dir_prefix_of_render(root);
    let short = flat_prefix(root);
    let long = flat_prefix(all);
    if all.len() > 0 {
        lemma_flat_end(all);
    }
    if root.len() > 0 {
        lemma_flat_end(root);
    }
    if root.is_prefix_of(all) {
        lemma_prefix_gives_flat_prefix(root, all);
        assert(short == long.subrange(0, short.len() as int));
        if root.len() == all.len() {
            assert(root == all);
        } else {
            assert(flat(root).len() < flat(all).len()) by {
                if flat(root).len() == flat(all).len() {
                    assert(short == long);
                    assert(long == long.subrange(0, long.len() as int));
                    lemma_flat_prefix_gives_prefix(all, root);
                }
            }
            assert(short == render(all).subrange(0, short.len() as int));
        }
    }
    if confined(render(root), render(all)) {
        if render(all) == render(root) {
            assert(flat(all) == flat(root));
            assert(short == long.subrange(0, short.len() as int));
        } else {
            assert(short == render(all).subrange(0, short.len() as int));
            if all.len() == 0 {
                assert(short == long);
                assert(short == long.subrange(0, short.len() as int));
            } else {
                assert(short == long.subrange(0, short.len() as int));
            }
        }
        lemma_flat_prefix_gives_prefix(root, all);
    }
}

/// For a root and a path in normal form, the path is confined to the root
/// exactly if it leads through the root's names: a path such as
/// `/srv/database` is not taken for one below `/srv/data`.
pub proof fn lemma_confined_is_containment(root: Seq<char>, path: Seq<char>)
    requires
        is_normal(root),
        is_normal(path),
    ensures
        confined(root, path) == lexical(root).is_prefix_of(lexical(path)),
{
    lemma_lexical_names(root);
    lemma_lexical_names(path);
    lemma_confined_names(lexical(root), lexical(path));
}

/// A string without separator is one segment.
proof fn lemma_split_one(s: Seq<char>)
    requires
        no_separator(s),
    ensures
        split(s) == seq![s],
{
    lemma_find_char(s, '/');
}

/// A name added after a separator is one more segment.
proof fn lemma_split_append(s: Seq<char>, name: Seq<char>)
    requires
        no_separator(name),
    ensures
        split(s + seq!['/'] + name) == split(s).push(name),
    decreases s.len(),
{
    let longer = s + seq!['/'] + name;
    let at = find_char(s, '/');
    lemma_find_char(s, '/');
    lemma_find_char_is(longer, '/', at);
    if at == s.len() {
        assert(longer.take(at) == s);
        assert(longer.skip(at + 1) == name);
        lemma_split_one(name);
        assert(split(s) == seq![s]);
        assert(seq![s] + seq![name] == seq![s].push(name));
    } else {
        let rest = s.skip(at + 1);
        assert(longer.take(at) == s.take(at));
        assert(longer.skip(at + 1) == rest + seq!['/'] + name);
        lemma_split_append(rest, name);
        assert(seq![s.take(at)] + split(rest).push(name) == (seq![s.take(at)] + split(rest)).push(
            name,
        ));
    }
}

/// The flat form of names splits into an empty segment and the names.
proof fn lemma_split_flat(segs: Seq<Seq<char>>)
    requires
        all_names(segs),
    ensures
        split(flat(segs)) == seq![Seq::<char>::empty()] + segs,
    decreases segs.len(),
{
    if segs.len() == 0 {
        assert(flat(segs) == Seq::<char>::empty());
        assert(split(flat(segs)) == seq![Seq::<char>::empty()]);
        assert(seq![Seq::<char>::empty()] + segs == seq![Seq::<char>::empty()]);
    } else {
        let head = segs.drop_last();
        let last = segs.last();
        assert(is_name(segs[segs.len() - 1]));
        assert(all_names(head)) by {
            assert forall|i: int| 0 <= i < head.len() implies is_name(#[trigger] head[i]) by {
                assert(head[i] == segs[i]);
            }
        }
        lemma_split_flat(head);
        assert(flat(segs) == flat(head) + seq!['/'] + last);
        lemma_split_append(flat(head), last);
        assert((seq![Seq::<char>::empty()] + head).push(last) == seq![Seq::<char>::empty()]
            + segs);
    }
}

/// Names are entered one after the other.
proof fn lemma_resolve_enters_names(stack: Seq<Seq<char>>, segs: Seq<Seq<char>>)
    requires
        all_names(segs),
    ensures
        resolve_onto(stack, segs) == stack + segs,
    decreases segs.len(),
{
    if segs.len() == 0 {
        assert(stack + segs == stack);
    } else {
        let rest = segs.drop_first();
        assert(is_name(segs[0]));
        assert(all_names(rest)) by {
            assert forall|i: int| 0 <= i < rest.len() implies is_name(#[trigger] rest[i]) by {
                assert(rest[i] == segs[i + 1]);
            }
        }
        lemma_resolve_enters_names(stack.push(segs[0]), rest);
        assert(stack.push(segs[0]) + rest == stack + segs);
    }
}

/// The path that leads through names resolves to these names: it is in
/// normal form.
pub proof fn lemma_lexical_render(segs: Seq<Seq<char>>)
    requires
        all_names(segs),
    ensures
        lexical(render(segs)) == segs,
        is_normal(render(segs)),
{
    let empty = Seq::<char>::empty();
    if segs.len() == 0 {
        let top = render(segs);
        lemma_find_char_is(top, '/', 0);
        assert(top.take(0) == empty);
        assert(top.skip(1) == empty);
        assert(split(empty) == seq![empty]);
        assert(split(top) == seq![empty] + seq![empty]);
        let both = seq![empty] + seq![empty];
        assert(both.drop_first() == seq![empty]);
        assert(seq![empty].drop_first() == Seq::<Seq<char>>::empty());
        assert(step(Seq::<Seq<char>>::empty(), empty) == Seq::<Seq<char>>::empty());
        assert(resolve_onto(Seq::<Seq<char>>::empty(), seq![empty]) == resolve_onto(
            Seq::<Seq<char>>::empty(),
            Seq::<Seq<char>>::empty(),
        ));
        assert(resolve_onto(Seq::<Seq<char>>::empty(), both) == resolve_onto(
            Seq::<Seq<char>>::empty(),
            seq![empty],
        ));
        assert(lexical(top) == segs);
    } else {
        lemma_split_flat(segs);
        let all = seq![empty] + segs;
        assert(all.drop_first() == segs);
        assert(all[0] == empty);
        lemma_resolve_enters_names(Seq::<Seq<char>>::empty(), segs);
        assert(Seq::<Seq<char>>::empty() + segs == segs);
    }
}

/// An entry of a directory in normal form, under a name, has a path in
/// normal form: that of the directory's names and the entry's.
pub proof fn lemma_child_normal(dir: Seq<char>, name: Seq<char>)
    requires
        is_normal(dir),
        is_name(name),
    ensures
        is_normal(child_spec(dir, name)),
        lexical(child_spec(dir, name)) == lexical(dir).push(name),
{
    let segs = lexical(dir);
    lemma_lexical_names(dir);
    lemma_dir_prefix_of_render(segs);
    let longer = segs.push(name);
    assert(all_names(longer)) by {
        assert forall|i: int| 0 <= i < longer.len() implies is_name(#[trigger] longer[i]) by {
            if i < segs.len() {
                assert(longer[i] == segs[i]);
            }
        }
    }
    assert(longer.drop_last() == segs);
    assert(child_spec(dir, name) == render(longer));
    lemma_lexical_render(longer);
}

/// After a separator and a text without one, the last separator is that
/// one.
proof fn lemma_last_separator_before(head: Seq<char>, tail: Seq<char>)
    requires
        no_separator(tail),
    ensures
        last_separator(head.push('/') + tail) == head.len(),
    decreases tail.len(),
{
    let all = head.push('/') + tail;
    if tail.len() == 0 {
        assert(all.last() == '/');
    } else {
        assert(all.last() == tail[tail.len() - 1]);
        assert(all.drop_last() == head.push('/') + tail.drop_last());
        assert(no_separator(tail.drop_last())) by {
            assert forall|i: int| 0 <= i < tail.drop_last().len() implies tail.drop_last()[i]
                != '/' by {
                assert(tail.drop_last()[i] == tail[i]);
            }
        }
        lemma_last_separator_before(head, tail.drop_last());
    }
}

/// The directory that holds an entry with a path in normal form is the
/// path through all of its names but the last, and is in normal form.
pub proof fn lemma_parent_normal(path: Seq<char>)
    requires
        is_normal(path),
        lexical(path).len() > 0,
    ensures
        parent_spec(path) == render(lexical(path).drop_last()),
        is_normal(parent_spec(path)),
        lexical(parent_spec(path)) == lexical(path).drop_last(),
{
    let segs = lexical(path);
    let head = segs.drop_last();
    let last = segs.last();
    lemma_lexical_names(path);
    assert(is_name(segs[segs.len() - 1]));
    assert(all_names(head)) by {
        assert forall|i: int| 0 <= i < head.len() implies is_name(#[trigger] head[i]) by {
            assert(head[i] == segs[i]);
        }
    }
    lemma_flat_end(segs);
    lemma_last_separator_before(flat(head), last);
    if head.len() > 0 {
        lemma_flat_end(head);
        assert(path.take(flat(head).len() as int) == flat(head));
    } else {
        assert(flat(head) == Seq::<char>::empty());
    }
    lemma_lexical_render(head);
}

/// Beside an entry that lies inside the root, and is not the root, every
/// name denotes an entry inside the root.
pub proof fn lemma_sibling_inside(root: Seq<char>, path: Seq<char>, name: Seq<char>)
    requires
        is_normal(root),
        is_normal(path),
        confined(root, path),
        path != root,
        is_name(name),
    ensures
        is_normal(child_spec(parent_spec(path), name)),
        confined(root, child_spec(parent_spec(path), name)),
{
    let base = lexical(root);
    let segs = lexical(path);
    lemma_confined_is_containment(root, path);
    assert(segs.len() > base.len()) by {
        if segs.len() == base.len() {
            assert(base == segs);
        }
    }
    lemma_parent_normal(path);
    let parent = parent_spec(path);
    lemma_child_normal(parent, name);
    let sibling = child_spec(parent, name);
    assert(base.is_prefix_of(lexical(sibling))) by {
        assert(base == lexical(sibling).subrange(0, base.len() as int)) by {
            assert(base == segs.subrange(0, base.len() as int));
        }
    }
    lemma_confined_is_containment(root, sibling);
}

/// An entry of a directory inside the root, under a name, lies inside the
/// root, with a path in normal form.
pub proof fn lemma_child_inside(root: Seq<char>, dir: Seq<char>, name: Seq<char>)
    requires
        is_normal(dir),
        confined(root, dir),
        is_name(name),
    ensures
        is_normal(child_spec(dir, name)),
        confined(root, child_spec(dir, name)),
{
    lemma_child_normal(dir, name);
    crate::path::lemma_child_confined(root, dir, name);
}

/// A client path that leaves the root is refused. Whatever `rel` is made
/// of, `..` and all: where the path that it resolves to below the root
/// does not lead through the root, the resolver refuses that path as
/// `Forbidden`.
pub proof fn lemma_traversal_refused(context: RootContext, rel: Seq<char>)
    requires
        context.well_formed(),
        !lexical(context.root_spec()).is_prefix_of(
            lexical(join_path_spec(context.root_spec(), rel)),
        ),
    ensures
        context.resolve_spec(Some(render(lexical(join_path_spec(context.root_spec(), rel)))))
            == Err::<Seq<char>, GatewayError>(GatewayError::Forbidden),
{
    let root = context.root_spec();
    let target = lexical(join_path_spec(root, rel));
    lemma_lexical_names(root);
    lemma_lexical_names(join_path_spec(root, rel));
    lemma_confined_names(lexical(root), target);
}

} // verus!
