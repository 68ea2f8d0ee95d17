//! The path resolver: client paths are joined onto the root directory, and
//! what the file system makes of them is admitted only inside the root.

use crate::error::GatewayError;
use crate::containment::{
    lemma_child_inside, lemma_confined_is_containment, lemma_sibling_inside,
};
use crate::lexical::{
    final_component, final_component_of, is_name, is_normal, lexical, lexical_segments,
    render_segments,
};
use crate::text::{
    chars_of, copy_range, extend_chars, has_prefix, option_view, same_chars, string_of,
};
use vstd::prelude::*;

verus! {

/// `dir` as the beginning of the paths below it: with a separator at its
/// end, added where `dir` has none.
pub open spec fn dir_prefix(dir: Seq<char>) -> Seq<char> {
    if dir.len() > 0 && dir.last() == '/' {
        dir
    } else {
        dir.push('/')
    }
}

/// Whether `path` is `root` itself or begins with `root` and a separator.
pub open spec fn confined(root: Seq<char>, path: Seq<char>) -> bool {
    path == root || dir_prefix(root).is_prefix_of(path)
}

/// Whether `path` begins at the top directory.
pub open spec fn is_absolute(path: Seq<char>) -> bool {
    path.len() > 0 && path[0] == '/'
}

/// `rel` joined onto `base`: an absolute `rel` replaces `base`; otherwise
/// `rel` follows `base`, with a separator between them unless `base` is
/// empty or ends in one.
pub open spec fn join_path_spec(base: Seq<char>, rel: Seq<char>) -> Seq<char> {
    if is_absolute(rel) {
        rel
    } else if base.len() == 0 || base.last() == '/' {
        base + rel
    } else {
        base.push('/') + rel
    }
}

/// `path` without the root and the separator after it; empty where `path`
/// does not begin with them.
pub open spec fn relative_to_spec(root: Seq<char>, path: Seq<char>) -> Seq<char> {
    if dir_prefix(root).is_prefix_of(path) {
        path.skip(dir_prefix(root).len() as int)
    } else {
        Seq::empty()
    }
}

/// The greatest index at which `path` holds a separator; -1 where it holds
/// none.
pub open spec fn last_separator(path: Seq<char>) -> int
    decreases path.len(),
{
    if path.len() == 0 {
        -1
    } else if path.last() == '/' {
        path.len() - 1
    } else {
        last_separator(path.drop_last())
    }
}

/// The directory that holds `path`, for a path in normal form: the text
/// before its last separator, the top directory for an entry of the top
/// directory, and nothing for the top directory itself or a lone name.
pub open spec fn parent_spec(path: Seq<char>) -> Seq<char> {
    let at = last_separator(path);
    if at < 0 {
        Seq::empty()
    } else if at == 0 {
        if path.len() == 1 {
            Seq::empty()
        } else {
            seq!['/']
        }
    } else {
        path.take(at)
    }
}

/// The path of the entry `name` in the directory `dir`.
pub open spec fn child_spec(dir: Seq<char>, name: Seq<char>) -> Seq<char> {
    dir_prefix(dir) + name
}

/// An entry of a confined directory is confined.
pub proof fn lemma_child_confined(root: Seq<char>, dir: Seq<char>, name: Seq<char>)
    requires
        confined(root, dir),
    ensures
        confined(root, child_spec(dir, name)),
{
    let child = child_spec(dir, name);
    let prefix = dir_prefix(root);
    if dir == root {
        assert(child.subrange(0, prefix.len() as int) == prefix);
    } else {
        assert(prefix == dir.subrange(0, prefix.len() as int));
        assert(child.subrange(0, prefix.len() as int) == dir.subrange(0, prefix.len() as int));
    }
}

/// The path reached from `base` by entering the names `names`, one after
/// the other.
pub open spec fn descend(base: Seq<char>, names: Seq<Seq<char>>) -> Seq<char>
    decreases names.len(),
{
    if names.len() == 0 {
        base
    } else {
        child_spec(descend(base, names.drop_last()), names.last())
    }
}

/// Writes `dir_prefix(dir)`.
pub fn dir_prefix_of(dir: &Vec<char>) -> (prefix: Vec<char>)
    ensures
        prefix@ == dir_prefix(dir@),
{
    let mut prefix = copy_range(dir, 0, dir.len());
    assert(prefix@ == dir@);
    if dir.len() == 0 || dir[dir.len() - 1] != '/' {
        prefix.push('/');
    }
    prefix
}

/// Decides `confined(root, path)`.
pub fn is_confined(root: &Vec<char>, path: &Vec<char>) -> (inside: bool)
    ensures
        inside == confined(root@, path@),
{
    if same_chars(path, root) {
        return true;
    }
    let prefix = dir_prefix_of(root);
    has_prefix(path, &prefix)
}

/// Joins `rel` onto `base`.
pub fn join_chars(base: &Vec<char>, rel: &Vec<char>) -> (joined: Vec<char>)
    ensures
        joined@ == join_path_spec(base@, rel@),
{
    if rel.len() > 0 && rel[0] == '/' {
        let joined = copy_range(rel, 0, rel.len());
        assert(joined@ == rel@);
        return joined;
    }
    let mut joined = copy_range(base, 0, base.len());
    assert(joined@ == base@);
    if base.len() > 0 && base[base.len() - 1] != '/' {
        joined.push('/');
    }
    extend_chars(&mut joined, rel);
    joined
}

/// Joins `rel` onto `base`: `join_path("/srv", "a/b")` is `"/srv/a/b"`.
pub fn join_path(base: &str, rel: &str) -> (joined: String)
    ensures
        joined@ == join_path_spec(base@, rel@),
{
    let joined = join_chars(&chars_of(base), &chars_of(rel));
    string_of(&joined)
}

/// Whether `path` does not begin at the top directory.
pub fn is_relative(path: &str) -> (relative: bool)
    ensures
        relative == !is_absolute(path@),
{
    let v = chars_of(path);
    !(v.len() > 0 && v[0] == '/')
}

/// Strips the root from `path`.
pub fn relative_chars(root: &Vec<char>, path: &Vec<char>) -> (rel: Vec<char>)
    ensures
        rel@ == relative_to_spec(root@, path@),
{
    let prefix = dir_prefix_of(root);
    if has_prefix(path, &prefix) {
        let rel = copy_range(path, prefix.len(), path.len());
        assert(rel@ == path@.skip(prefix.len() as int));
        rel
    } else {
        Vec::new()
    }
}

/// `path` as seen from `root`: `relative_to("/srv", "/srv/a/b")` is `"a/b"`,
/// and empty where `path` is not below `root`.
pub fn relative_to(root: &str, path: &str) -> (rel: String)
    ensures
        rel@ == relative_to_spec(root@, path@),
{
    let rel = relative_chars(&chars_of(root), &chars_of(path));
    string_of(&rel)
}

/// Finds the directory that holds `path`.
pub fn parent_chars(path: &Vec<char>) -> (parent: Vec<char>)
    ensures
        parent@ == parent_spec(path@),
{
    let mut i: usize = path.len();
    assert(path@.take(i as int) == path@);
    while i > 0 && path[i - 1] != '/'
        invariant
            i <= path.len(),
            last_separator(path@.take(i as int)) == last_separator(path@),
        decreases i,
    {
        assert(path@.take(i as int).drop_last() == path@.take(i - 1));
        i -= 1;
    }
    proof {
        if i > 0 {
            assert(path@.take(i as int).last() == '/');
        }
    }
    if i == 0 {
        Vec::new()
    } else if i == 1 {
        let mut parent: Vec<char> = Vec::new();
        if path.len() > 1 {
            parent.push('/');
        }
        parent
    } else {
        let parent = copy_range(path, 0, i - 1);
        assert(parent@ == path@.take(i - 1));
        parent
    }
}

/// The directory that holds `path`: `parent_of("/srv/a/b")` is `"/srv/a"`.
pub fn parent_of(path: &str) -> (parent: String)
    ensures
        parent@ == parent_spec(path@),
{
    let parent = parent_chars(&chars_of(path));
    string_of(&parent)
}

/// The name at the end of `path`, if it ends in one:
/// `file_name_of("/srv/a/b.txt")` is `"b.txt"`.
pub fn file_name_of(path: &str) -> (name: Option<String>)
    ensures
        name is Some == final_component(path@) is Some,
        name is Some ==> name->0@ == final_component(path@)->0,
{
    match final_component_of(&chars_of(path)) {
        Some(name) => Some(string_of(&name)),
        None => None,
    }
}

/// Decides `is_normal(path)`.
pub fn is_normal_path(path: &Vec<char>) -> (normal: bool)
    ensures
        normal == is_normal(path@),
{
    let rendered = render_segments(&lexical_segments(path));
    same_chars(&rendered, path)
}

/// Decides `is_name(name)`.
pub fn is_bare_name(name: &Vec<char>) -> (bare: bool)
    ensures
        bare == is_name(name@),
{
    if name.len() == 0 {
        return false;
    }
    if name.len() == 1 && name[0] == '.' {
        assert(name@ == crate::lexical::dot());
        return false;
    }
    if name.len() == 2 && name[0] == '.' && name[1] == '.' {
        assert(name@ == crate::lexical::dot_dot());
        return false;
    }
    proof {
        if name.len() == 1 {
            assert(name@[0] != crate::lexical::dot()[0]);
        }
        if name.len() == 2 {
            assert(name@[0] != crate::lexical::dot_dot()[0] || name@[1]
                != crate::lexical::dot_dot()[1]);
        }
    }
    let mut i: usize = 0;
    while i < name.len()
        invariant
            i <= name.len(),
            forall|j: int| 0 <= j < i ==> name@[j] != '/',
        decreases name.len() - i,
    {
        if name[i] == '/' {
            return false;
        }
        i += 1;
    }
    true
}

/// An absolute path that the resolver has admitted: it is the root
/// directory or lies below it. Only the resolver makes one.
#[derive(Debug)]
pub struct ResolvedPath {
    root: Vec<char>,
    path: Vec<char>,
}

impl ResolvedPath {
    #[verifier::type_invariant]
    spec fn admitted(self) -> bool {
        is_normal(self.root@) && is_normal(self.path@) && confined(self.root@, self.path@)
    }

    /// The root directory that the path was admitted under.
    pub closed spec fn root_spec(self) -> Seq<char> {
        self.root@
    }

    /// The absolute path.
    pub closed spec fn path_spec(self) -> Seq<char> {
        self.path@
    }

    /// What holds of every resolved path: the root and the path are in
    /// normal form, and the path is the root or begins with the root and a
    /// separator. So the path leads through the root: see
    /// `lemma_resolved_is_contained`.
    pub open spec fn inside_root(self) -> bool {
        is_normal(self.root_spec()) && is_normal(self.path_spec()) && confined(
            self.root_spec(),
            self.path_spec(),
        )
    }

    /// The absolute path.
    pub fn path(&self) -> (path: String)
        ensures
            path@ == self.path_spec(),
            self.inside_root(),
    {
        proof {
            use_type_invariant(self);
        }
        string_of(&self.path)
    }

    /// The root directory that the path was admitted under.
    pub fn root(&self) -> (root: String)
        ensures
            root@ == self.root_spec(),
            self.inside_root(),
    {
        proof {
            use_type_invariant(self);
        }
        string_of(&self.root)
    }

    /// Whether the path is the root directory itself.
    pub fn is_root(&self) -> (yes: bool)
        ensures
            yes == (self.path_spec() == self.root_spec()),
    {
        same_chars(&self.path, &self.root)
    }

    /// The path as seen from the root; empty for the root itself.
    pub fn relative(&self) -> (rel: String)
        ensures
            rel@ == relative_to_spec(self.root_spec(), self.path_spec()),
    {
        string_of(&relative_chars(&self.root, &self.path))
    }

    /// The directory that holds the path, as seen from the root; empty
    /// where that directory is the root or lies outside it.
    pub fn parent_relative(&self) -> (rel: String)
        ensures
            rel@ == relative_to_spec(self.root_spec(), parent_spec(self.path_spec())),
    {
        string_of(&relative_chars(&self.root, &parent_chars(&self.path)))
    }

    /// The name at the end of the path, if it ends in one.
    pub fn name(&self) -> (name: Option<String>)
        ensures
            name is Some == final_component(self.path_spec()) is Some,
            name is Some ==> name->0@ == final_component(self.path_spec())->0,
    {
        match final_component_of(&self.path) {
            Some(name) => Some(string_of(&name)),
            None => None,
        }
    }

    /// Admits `path` under `root` if it is in normal form and lies inside.
    pub(crate) fn confine(root: &Vec<char>, path: Vec<char>) -> (inside: Option<ResolvedPath>)
        requires
            is_normal(root@),
        ensures
            inside is Some == (is_normal(path@) && confined(root@, path@)),
            inside is Some ==> inside->0.root_spec() == root@ && inside->0.path_spec() == path@
                && inside->0.inside_root(),
    {
        if is_normal_path(&path) && is_confined(root, &path) {
            let kept = copy_range(root, 0, root.len());
            assert(kept@ == root@);
            Some(ResolvedPath { root: kept, path })
        } else {
            None
        }
    }

    /// The entry `name` of this directory; see `child`.
    pub(crate) fn child_chars(&self, name: &Vec<char>) -> (child: Result<
        ResolvedPath,
        GatewayError,
    >)
        ensures
            is_name(name@) ==> child is Ok && child->Ok_0.root_spec() == self.root_spec()
                && child->Ok_0.path_spec() == child_spec(self.path_spec(), name@)
                && child->Ok_0.inside_root(),
            !is_name(name@) ==> child == Err::<ResolvedPath, GatewayError>(GatewayError::Forbidden),
    {
        if !is_bare_name(name) {
            return Err(GatewayError::Forbidden);
        }
        let mut path = dir_prefix_of(&self.path);
        extend_chars(&mut path, name);
        let root = copy_range(&self.root, 0, self.root.len());
        assert(root@ == self.root@);
        proof {
            use_type_invariant(self);
            lemma_child_inside(self.root@, self.path@, name@);
        }
        Ok(ResolvedPath { root, path })
    }

    /// The entry `name` of this directory. A `name` that is no name (empty,
    /// `.`, `..`, or with a separator in it) is refused as `Forbidden`.
    pub fn child(&self, name: &str) -> (child: Result<ResolvedPath, GatewayError>)
        ensures
            is_name(name@) ==> child is Ok && child->Ok_0.root_spec() == self.root_spec()
                && child->Ok_0.path_spec() == child_spec(self.path_spec(), name@)
                && child->Ok_0.inside_root(),
            !is_name(name@) ==> child == Err::<ResolvedPath, GatewayError>(GatewayError::Forbidden),
    {
        self.child_chars(&chars_of(name))
    }

    /// Whether `name` can be given to a sibling of this entry: it is a
    /// name, and the entry is not the root.
    pub open spec fn has_sibling(self, name: Seq<char>) -> bool {
        is_name(name) && self.path_spec() != self.root_spec()
    }

    /// The entry `name` beside this one, in the directory that holds it.
    /// Refused as `Forbidden`: a `name` that is no name, and the root
    /// directory as the entry to start from, whose siblings lie outside.
    pub fn sibling(&self, name: &str) -> (sibling: Result<ResolvedPath, GatewayError>)
        ensures
            self.has_sibling(name@) ==> sibling is Ok && sibling->Ok_0.root_spec()
                == self.root_spec() && sibling->Ok_0.path_spec() == child_spec(
                parent_spec(self.path_spec()),
                name@,
            ) && sibling->Ok_0.inside_root(),
            !self.has_sibling(name@) ==> sibling == Err::<ResolvedPath, GatewayError>(
                GatewayError::Forbidden,
            ),
    {
        let name = chars_of(name);
        if !is_bare_name(&name) || same_chars(&self.path, &self.root) {
            return Err(GatewayError::Forbidden);
        }
        let mut path = dir_prefix_of(&parent_chars(&self.path));
        extend_chars(&mut path, &name);
        let root = copy_range(&self.root, 0, self.root.len());
        assert(root@ == self.root@);
        proof {
            use_type_invariant(self);
            lemma_sibling_inside(self.root@, self.path@, name@);
        }
        Ok(ResolvedPath { root, path })
    }
}

/// A resolved path leads through its root: the names that the root
/// resolves to are the first of the names that the path resolves to.
pub proof fn lemma_resolved_is_contained(resolved: ResolvedPath)
    requires
        resolved.inside_root(),
    ensures
        lexical(resolved.root_spec()).is_prefix_of(lexical(resolved.path_spec())),
{
    lemma_confined_is_containment(resolved.root_spec(), resolved.path_spec());
}

/// The root directory that every request is confined to. It is absolute and
/// in normal form, and never changes.
#[derive(Debug)]
pub struct RootContext {
    root: Vec<char>,
}

impl RootContext {
    #[verifier::type_invariant]
    spec fn normal(self) -> bool {
        is_normal(self.root@)
    }

    /// The root directory.
    pub closed spec fn root_spec(self) -> Seq<char> {
        self.root@
    }

    /// What holds of every context: its root is in normal form.
    pub open spec fn well_formed(self) -> bool {
        is_normal(self.root_spec())
    }

    /// The context for the root directory `root`, which must be absolute
    /// and in normal form, as the file system's canonical paths are.
    pub fn new(root: &str) -> (context: Option<RootContext>)
        ensures
            context is Some == is_normal(root@),
            context is Some ==> context->0.root_spec() == root@ && context->0.well_formed(),
    {
        let root = chars_of(root);
        if is_normal_path(&root) {
            Some(RootContext { root })
        } else {
            None
        }
    }

    /// The root directory.
    pub fn root(&self) -> (root: String)
        ensures
            root@ == self.root_spec(),
            self.well_formed(),
    {
        proof {
            use_type_invariant(self);
        }
        string_of(&self.root)
    }

    /// The path to hand to the file system for the client's `rel`: `rel`
    /// joined onto the root. It is not admitted yet.
    pub fn candidate(&self, rel: &str) -> (path: String)
        ensures
            path@ == join_path_spec(self.root_spec(), rel@),
    {
        string_of(&join_chars(&self.root, &chars_of(rel)))
    }

    /// What `resolve` returns.
    pub open spec fn resolve_spec(self, canonical: Option<Seq<char>>) -> Result<
        Seq<char>,
        GatewayError,
    > {
        match canonical {
            None => Err(GatewayError::NotFound),
            Some(path) => if is_normal(path) && confined(self.root_spec(), path) {
                Ok(path)
            } else {
                Err(GatewayError::Forbidden)
            },
        }
    }

    /// Admits the canonical path that the file system gave for a
    /// candidate, or refuses it: `NotFound` where the file system found
    /// nothing (`None`), `Forbidden` where the path is not in normal form,
    /// as every canonical path is, or is neither the root nor below it.
    pub fn resolve(&self, canonical: Option<&str>) -> (resolved: Result<
        ResolvedPath,
        GatewayError,
    >)
        ensures
            match (resolved, self.resolve_spec(option_view(canonical))) {
                (Ok(r), Ok(path)) => r.path_spec() == path && r.root_spec() == self.root_spec()
                    && r.inside_root(),
                (Err(e), Err(expected)) => e == expected,
                _ => false,
            },
    {
        match canonical {
            None => Err(GatewayError::NotFound),
            Some(c) => {
                proof {
                    use_type_invariant(self);
                }
                match ResolvedPath::confine(&self.root, chars_of(c)) {
                    Some(resolved) => Ok(resolved),
                    None => Err(GatewayError::Forbidden),
                }
            },
        }
    }

    /// What the file system does not find is not found, however often it
    /// is asked for, and whatever was asked for.
    pub proof fn lemma_missing_is_not_found(self)
        ensures
            self.resolve_spec(None) == Err::<Seq<char>, GatewayError>(GatewayError::NotFound),
    {
    }

    /// The root directory as a resolved path.
    pub fn root_path(&self) -> (resolved: ResolvedPath)
        ensures
            resolved.path_spec() == self.root_spec(),
            resolved.root_spec() == self.root_spec(),
            resolved.inside_root(),
    {
        let root = copy_range(&self.root, 0, self.root.len());
        let path = copy_range(&self.root, 0, self.root.len());
        assert(root@ == self.root@ && path@ == self.root@);
        proof {
            use_type_invariant(self);
        }
        ResolvedPath { root, path }
    }
}

} // verus!
