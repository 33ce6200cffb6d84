//! A directory tree built from the name components of failing paths, and its
//! rendering as indented text.
//!
//! Each failing path's component chain is inserted from the root; chains that
//! share a prefix share the ancestor nodes, so many failures under one
//! directory render as one compact group.  A child is looked up by exact name
//! among the existing children before a new node is created, and new children
//! are appended, so children keep insertion order.
use vstd::prelude::*;

verus! {

use vstd::string::StringExecFns;

/// The mathematical shape of a directory tree: a name and the ordered
/// children.
#[verifier::ext_equal]
pub ghost struct Tree {
    pub name: Seq<char>,
    pub children: Seq<Tree>,
}

/// A recursive type to represent a directory tree.  If a node has children it
/// is considered a directory, else a file.
pub struct Dir {
    pub name: String,
    pub children: Vec<Dir>,
}

/// The [`Tree`] a [`Dir`] stands for.
pub open spec fn tree_of(d: Dir) -> Tree
    decreases d,
{
    Tree { name: d.name@, children: forest_of(d.children@) }
}

/// The [`Tree`]s a sequence of [`Dir`]s stands for, in order.
pub open spec fn forest_of(s: Seq<Dir>) -> Seq<Tree>
    decreases s,
{
    if s.len() == 0 {
        seq![]
    } else {
        forest_of(s.drop_last()).push(tree_of(s.last()))
    }
}

/// `forest_of` maps `tree_of` over the sequence, element by element.
pub proof fn lemma_forest_of_pointwise(s: Seq<Dir>)
    ensures
        forest_of(s).len() == s.len(),
        forall|i: int| 0 <= i < s.len() ==> forest_of(s)[i] == tree_of(s[i]),
    decreases s.len(),
{
    if s.len() > 0 {
        lemma_forest_of_pointwise(s.drop_last());
    }
}

/// Index of the first child in `s` whose name is `name`, or `-1` if none has
/// it.
pub open spec fn find_index(s: Seq<Tree>, name: Seq<char>) -> int
    decreases s.len(),
{
    if s.len() == 0 {
        -1
    } else if s[0].name == name {
        0
    } else if find_index(s.skip(1), name) < 0 {
        -1
    } else {
        1 + find_index(s.skip(1), name)
    }
}

/// `find_index` names the first match, and `-1` means there is none.
pub proof fn lemma_find_index_spec(s: Seq<Tree>, name: Seq<char>)
    ensures
        find_index(s, name) == -1 || (0 <= find_index(s, name) < s.len()),
        find_index(s, name) == -1 ==> forall|m: int| 0 <= m < s.len() ==> s[m].name != name,
        find_index(s, name) >= 0 ==> s[find_index(s, name)].name == name && forall|m: int|
            0 <= m < find_index(s, name) ==> s[m].name != name,
    decreases s.len(),
{
    if s.len() == 0 {
    } else if s[0].name == name {
    } else {
        lemma_find_index_spec(s.skip(1), name);
        if find_index(s, name) == -1 {
            assert forall|m: int| 0 <= m < s.len() implies s[m].name != name by {
                if m > 0 {
                    assert(s[m] == s.skip(1)[m - 1]);
                }
            }
        } else {
            let k = find_index(s, name);
            assert(s[k] == s.skip(1)[k - 1]);
            assert forall|m: int| 0 <= m < k implies s[m].name != name by {
                if m > 0 {
                    assert(s[m] == s.skip(1)[m - 1]);
                }
            }
        }
    }
}

/// The tree after inserting the component chain `parts[depth..]` under `t`:
/// at each level the component's node is found by name among the existing
/// children, or appended as a new child.
pub open spec fn spec_insert(t: Tree, parts: Seq<Seq<char>>, depth: int) -> Tree
    decreases parts.len() - depth,
{
    if depth < 0 || depth >= parts.len() {
        t
    } else {
        let name = parts[depth];
        let i = find_index(t.children, name);
        if i >= 0 {
            Tree {
                name: t.name,
                children: t.children.update(i, spec_insert(t.children[i], parts, depth + 1)),
            }
        } else {
            Tree {
                name: t.name,
                children: t.children.push(
                    spec_insert(Tree { name, children: seq![] }, parts, depth + 1),
                ),
            }
        }
    }
}

impl Dir {
    /// A node with no children yet.
    pub fn new(name: String) -> (d: Dir)
        ensures
            d.name == name,
            d.children@ == Seq::<Dir>::empty(),
            tree_of(d) == (Tree { name: name@, children: Seq::<Tree>::empty() }),
    {
        let d = Dir { name, children: Vec::<Dir>::new() };
        proof {
            assert(forest_of(d.children@) =~= Seq::<Tree>::empty());
        }
        d
    }

    /// Position of the first child named `name`, if any, per [`find_index`].
    pub fn find_child(&self, name: &String) -> (r: Option<usize>)
        ensures
            r is Some ==> 0 <= r->0 < self.children@.len() && find_index(
                tree_of(*self).children,
                name@,
            ) == r->0,
            r is None ==> find_index(tree_of(*self).children, name@) == -1,
    {
        proof {
            lemma_forest_of_pointwise(self.children@);
            lemma_find_index_spec(tree_of(*self).children, name@);
        }
        let ghost forest = tree_of(*self).children;
        let mut c: usize = 0;
        while c < self.children.len()
            invariant
                c <= self.children@.len(),
                forest == tree_of(*self).children,
                forest.len() == self.children@.len(),
                forall|m: int| 0 <= m < self.children@.len() ==> forest[m] == tree_of(
                    self.children@[m],
                ),
                forall|m: int| 0 <= m < c ==> forest[m].name != name@,
                find_index(forest, name@) == -1 || 0 <= find_index(forest, name@) < forest.len(),
                find_index(forest, name@) == -1 ==> forall|m: int|
                    0 <= m < forest.len() ==> forest[m].name != name@,
                find_index(forest, name@) >= 0 ==> forest[find_index(forest, name@)].name == name@
                    && forall|m: int|
                    0 <= m < find_index(forest, name@) ==> forest[m].name != name@,
            decreases self.children@.len() - c,
        {
            if self.children[c].name == *name {
                proof {
                    assert(forest[c as int].name == name@);
                }
                return Some(c);
            }
            proof {
                assert(forest[c as int] == tree_of(self.children@[c as int]));
            }
            c = c + 1;
        }
        None
    }

    /// Appends `leaf` as the last child.
    pub fn add_child(&mut self, leaf: Dir)
        ensures
            final (self).name == old(self).name,
            final (self).children@ == old(self).children@.push(leaf),
            tree_of(*final (self)) == (Tree {
                name: tree_of(*old(self)).name,
                children: tree_of(*old(self)).children.push(tree_of(leaf)),
            }),
    {
        let ghost before = self.children@;
        self.children.push(leaf);
        proof {
            assert(self.children@.drop_last() =~= before);
            assert(self.children@.last() == leaf);
            assert(forest_of(self.children@) == forest_of(before).push(tree_of(leaf)));
        }
    }
}

/// Inserts the component chain `parts[depth..]` under `node`, sharing the
/// existing child of the same name at each level, per [`spec_insert`].
pub fn build_tree(node: &mut Dir, parts: &Vec<String>, depth: usize)
    ensures
        tree_of(*final (node)) == spec_insert(tree_of(*old(node)), parts.deep_view(), depth as int),
    decreases parts@.len() - depth,
{
    if depth >= parts.len() {
        return ;
    }
    let item = &parts[depth];
    proof {
        assert(parts.deep_view()[depth as int] == item@);
        lemma_find_index_spec(tree_of(*node).children, item@);
    }
    let ghost t0 = tree_of(*old(node));
    let ghost name = item@;
    let ghost found = find_index(t0.children, name) >= 0;
    let idx: usize = match node.find_child(item) {
        Some(i) => i,
        None => {
            let d = Dir::new(item.clone());
            node.add_child(d);
            node.children.len() - 1
        },
    };
    proof {
        lemma_forest_of_pointwise(old(node).children@);
        lemma_forest_of_pointwise(node.children@);
        if found {
            assert(*node == *old(node));
            assert(idx == find_index(t0.children, name));
        } else {
            assert(idx == t0.children.len());
        }
    }
    let ghost midvec = node.children@;
    let ghost mid = tree_of(*node);
    let mut child = node.children.remove(idx);
    let ghost child0 = child;
    proof {
        lemma_forest_of_pointwise(midvec);
        assert(tree_of(child0) == mid.children[idx as int]);
    }
    build_tree(&mut child, parts, depth + 1);
    node.children.insert(idx, child);
    proof {
        assert(node.children@ =~= midvec.update(idx as int, child));
        lemma_forest_of_pointwise(node.children@);
        lemma_forest_of_pointwise(midvec);
        assert(forest_of(node.children@) =~= mid.children.update(idx as int, tree_of(child)));
        assert(tree_of(child) == spec_insert(mid.children[idx as int], parts.deep_view(), depth
            + 1));
        if found {
            assert(mid == t0);
            assert(tree_of(*node) =~= spec_insert(t0, parts.deep_view(), depth as int));
        } else {
            let fresh = Tree { name, children: Seq::<Tree>::empty() };
            assert(mid.children == t0.children.push(fresh));
            assert(mid.children[idx as int] == fresh);
            assert(mid.children.update(idx as int, tree_of(child)) =~= t0.children.push(
                tree_of(child),
            ));
            assert(tree_of(*node) =~= spec_insert(t0, parts.deep_view(), depth as int));
        }
    }
}

/// Inserting leaves the root's name alone.
pub proof fn lemma_insert_preserves_name(t: Tree, parts: Seq<Seq<char>>, depth: int)
    ensures
        spec_insert(t, parts, depth).name == t.name,
{
}

/// The first match really is one, so the first-match index is determined.
proof fn lemma_find_index_unique(s: Seq<Tree>, name: Seq<char>, k: int)
    requires
        0 <= k < s.len(),
        s[k].name == name,
        forall|m: int| 0 <= m < k ==> s[m].name != name,
    ensures
        find_index(s, name) == k,
{
    lemma_find_index_spec(s, name);
}

/// Inserting a path's component chain twice produces the very same tree as
/// inserting it once — and so an identical rendering.
pub proof fn lemma_insert_idempotent(t: Tree, parts: Seq<Seq<char>>, depth: int)
    ensures
        spec_insert(spec_insert(t, parts, depth), parts, depth) == spec_insert(t, parts, depth),
    decreases parts.len() - depth,
{
    if depth < 0 || depth >= parts.len() {
    } else {
        let name = parts[depth];
        let t1 = spec_insert(t, parts, depth);
        lemma_find_index_spec(t.children, name);
        let i = find_index(t.children, name);
        if i >= 0 {
            let c1 = spec_insert(t.children[i], parts, depth + 1);
            lemma_insert_preserves_name(t.children[i], parts, depth + 1);
            lemma_find_index_unique(t1.children, name, i);
            lemma_insert_idempotent(t.children[i], parts, depth + 1);
            assert(t1.children.update(i, c1) =~= t1.children);
            assert(spec_insert(t1, parts, depth) =~~= t1);
        } else {
            let fresh = Tree { name, children: seq![] };
            let c1 = spec_insert(fresh, parts, depth + 1);
            lemma_insert_preserves_name(fresh, parts, depth + 1);
            lemma_find_index_unique(t1.children, name, t.children.len() as int);
            lemma_insert_idempotent(fresh, parts, depth + 1);
            assert(t1.children.update(t.children.len() as int, c1) =~= t1.children);
            assert(spec_insert(t1, parts, depth) =~~= t1);
        }
    }
}

/// No two siblings share a name.
pub open spec fn distinct_names(s: Seq<Tree>) -> bool {
    forall|i: int, j: int| 0 <= i < j < s.len() ==> s[i].name != s[j].name
}

/// At every node of the tree, children's names are pairwise distinct: a name
/// appears at most once under any one parent.
pub open spec fn wf(t: Tree) -> bool
    decreases t,
{
    distinct_names(t.children) && forall|i: int|
        0 <= i < t.children.len() ==> wf(#[trigger] t.children[i])
}

/// Inserting shares an existing node of the same name instead of making a
/// second one: under any parent each name still appears at most once.
pub proof fn lemma_insert_preserves_wf(t: Tree, parts: Seq<Seq<char>>, depth: int)
    requires
        wf(t),
    ensures
        wf(spec_insert(t, parts, depth)),
    decreases parts.len() - depth,
{
    if depth < 0 || depth >= parts.len() {
    } else {
        let name = parts[depth];
        let t1 = spec_insert(t, parts, depth);
        lemma_find_index_spec(t.children, name);
        let i = find_index(t.children, name);
        if i >= 0 {
            lemma_insert_preserves_name(t.children[i], parts, depth + 1);
            lemma_insert_preserves_wf(t.children[i], parts, depth + 1);
            assert forall|a: int| 0 <= a < t1.children.len() implies wf(
                #[trigger] t1.children[a],
            ) by {
                if a != i {
                    assert(t1.children[a] == t.children[a]);
                }
            }
        } else {
            let fresh = Tree { name, children: seq![] };
            lemma_insert_preserves_name(fresh, parts, depth + 1);
            lemma_insert_preserves_wf(fresh, parts, depth + 1);
            assert forall|a: int, b: int| 0 <= a < b < t1.children.len() implies t1.children[a].name
                != t1.children[b].name by {
                if b < t.children.len() {
                    assert(t1.children[a] == t.children[a]);
                    assert(t1.children[b] == t.children[b]);
                } else {
                    assert(t1.children[a] == t.children[a]);
                    assert(t1.children[b].name == name);
                }
            }
            assert forall|a: int| 0 <= a < t1.children.len() implies wf(
                #[trigger] t1.children[a],
            ) by {
                if a < t.children.len() {
                    assert(t1.children[a] == t.children[a]);
                }
            }
        }
    }
}

/// The connector glyph put before every name below the root.
pub open spec fn connector() -> Seq<char> {
    "└── "@
}

/// One level's worth of indentation.
pub open spec fn indent_unit() -> Seq<char> {
    "    "@
}

/// The rendered lines for node `t` and everything below it, where `t`'s own
/// line carries `prefix` before the connector glyph and `t`'s children are
/// indented one unit further.
pub open spec fn render_lines(t: Tree, prefix: Seq<char>) -> Seq<Seq<char>>
    decreases t,
{
    seq![prefix + connector() + t.name] + render_children(t.children, prefix + indent_unit())
}

/// The rendered lines of a sequence of siblings, in order.
pub open spec fn render_children(s: Seq<Tree>, prefix: Seq<char>) -> Seq<Seq<char>>
    decreases s,
{
    if s.len() == 0 {
        seq![]
    } else {
        render_children(s.drop_last(), prefix) + render_lines(s.last(), prefix)
    }
}

/// The whole tree's rendering: the root's name alone on the first line, then
/// each descendant behind indentation proportional to its depth.
pub open spec fn spec_render(t: Tree) -> Seq<Seq<char>> {
    seq![t.name] + render_children(t.children, Seq::<char>::empty())
}

/// Appends the lines for `dir` and everything below it to `out`, in the
/// format of the unix `tree` command.
pub fn print_dir(dir: &Dir, prefix: &String, out: &mut Vec<String>)
    ensures
        final (out).deep_view() == old(out).deep_view() + render_lines(tree_of(*dir), prefix@),
    decreases *dir,
{
    let mut line = prefix.clone();
    line.append("└── ");
    line.append(dir.name.as_str());
    out.push(line);
    let ghost base = old(out).deep_view();
    let ghost t = tree_of(*dir);
    let mut child_prefix = prefix.clone();
    child_prefix.append("    ");
    let ghost cp = prefix@ + indent_unit();
    proof {
        lemma_forest_of_pointwise(dir.children@);
        assert(out.deep_view() =~= base + seq![prefix@ + connector() + t.name]
            + render_children(t.children.take(0), cp)) by {
            assert(render_children(t.children.take(0), cp) =~= Seq::<Seq<char>>::empty());
            assert(out.deep_view() =~= base.push(prefix@ + connector() + t.name));
            assert(base + seq![prefix@ + connector() + t.name] + Seq::<Seq<char>>::empty()
                =~= base.push(prefix@ + connector() + t.name));
        }
    }
    let mut i: usize = 0;
    while i < dir.children.len()
        invariant
            i <= dir.children@.len(),
            t == tree_of(*dir),
            cp == prefix@ + indent_unit(),
            child_prefix@ == cp,
            t.children.len() == dir.children@.len(),
            forall|m: int| 0 <= m < dir.children@.len() ==> t.children[m] == tree_of(
                dir.children@[m],
            ),
            out.deep_view() == base + seq![prefix@ + connector() + t.name] + render_children(
                t.children.take(i as int),
                cp,
            ),
        decreases dir.children@.len() - i,
    {
        let child = &dir.children[i];
        proof {
            assert(decreases_to!(*dir => *child));
        }
        print_dir(child, &child_prefix, out);
        proof {
            assert(t.children.take(i + 1).drop_last() =~= t.children.take(i as int));
            assert(t.children.take(i + 1).last() == t.children[i as int]);
            assert(out.deep_view() =~= base + seq![prefix@ + connector() + t.name]
                + render_children(t.children.take(i + 1), cp));
        }
        i = i + 1;
    }
    proof {
        assert(t.children.take(dir.children@.len() as int) =~= t.children);
        assert(out.deep_view() =~= base + render_lines(t, prefix@));
    }
}

/// The tree that inserting every path of `paths` (each a chain of name
/// components) under a root named `root` produces, in order.
pub open spec fn spec_tree_of(root: Seq<char>, paths: Seq<Seq<Seq<char>>>) -> Tree
    decreases paths.len(),
{
    if paths.len() == 0 {
        Tree { name: root, children: seq![] }
    } else {
        spec_insert(spec_tree_of(root, paths.drop_last()), paths.last(), 0)
    }
}

/// Inserting the same failing path a second time changes nothing: the tree,
/// and with it the rendering, is identical to inserting it once.
pub proof fn lemma_duplicate_path_renders_identically(
    root: Seq<char>,
    paths: Seq<Seq<Seq<char>>>,
    p: Seq<Seq<char>>,
)
    ensures
        spec_tree_of(root, paths.push(p).push(p)) == spec_tree_of(root, paths.push(p)),
        spec_render(spec_tree_of(root, paths.push(p).push(p))) == spec_render(
            spec_tree_of(root, paths.push(p)),
        ),
{
    assert(paths.push(p).push(p).drop_last() =~= paths.push(p));
    assert(paths.push(p).push(p).last() == p);
    assert(paths.push(p).drop_last() =~= paths);
    assert(paths.push(p).last() == p);
    lemma_insert_idempotent(spec_tree_of(root, paths), p, 0);
}

/// Whatever paths go in, the built tree never holds one name twice under the
/// same parent: paths sharing a prefix share its nodes.
pub proof fn lemma_built_tree_wf(root: Seq<char>, paths: Seq<Seq<Seq<char>>>)
    ensures
        wf(spec_tree_of(root, paths)),
    decreases paths.len(),
{
    if paths.len() == 0 {
        let t = spec_tree_of(root, paths);
        assert(t.children.len() == 0);
    } else {
        lemma_built_tree_wf(root, paths.drop_last());
        lemma_insert_preserves_wf(spec_tree_of(root, paths.drop_last()), paths.last(), 0);
    }
}

/// Builds the failure tree for `paths` (each given as its chain of name
/// components) under a root named `root`, and renders it as indented text,
/// one line per node.
pub fn from(root: &String, paths: &Vec<Vec<String>>) -> (lines: Vec<String>)
    ensures
        lines.deep_view() == spec_render(spec_tree_of(root@, paths.deep_view())),
{
    let mut top = Dir::new(root.clone());
    proof {
        assert(paths.deep_view().take(0) =~= Seq::<Seq<Seq<char>>>::empty());
        assert(tree_of(top) =~= spec_tree_of(root@, paths.deep_view().take(0)));
    }
    let mut i: usize = 0;
    while i < paths.len()
        invariant
            i <= paths@.len(),
            paths.deep_view().len() == paths@.len(),
            forall|m: int| 0 <= m < paths@.len() ==> paths.deep_view()[m] == paths@[m].deep_view(),
            tree_of(top) == spec_tree_of(root@, paths.deep_view().take(i as int)),
        decreases paths@.len() - i,
    {
        build_tree(&mut top, &paths[i], 0);
        proof {
            assert(paths.deep_view().take(i + 1).drop_last() =~= paths.deep_view().take(i as int));
            assert(paths.deep_view().take(i + 1).last() == paths.deep_view()[i as int]);
        }
        i = i + 1;
    }
    proof {
        assert(paths.deep_view().take(paths@.len() as int) =~= paths.deep_view());
    }
    let mut lines: Vec<String> = Vec::new();
    lines.push(top.name.clone());
    let ghost t = tree_of(top);
    let empty_prefix = String::new();
    proof {
        assert(lines.deep_view() =~= seq![t.name] + render_children(t.children.take(0), empty_prefix@)) by {
            assert(render_children(t.children.take(0), empty_prefix@) =~= Seq::<Seq<char>>::empty());
            assert(lines.deep_view() =~= seq![t.name]);
        }
        lemma_forest_of_pointwise(top.children@);
    }
    let mut i: usize = 0;
    while i < top.children.len()
        invariant
            i <= top.children@.len(),
            t == tree_of(top),
            empty_prefix@ == Seq::<char>::empty(),
            t.children.len() == top.children@.len(),
            forall|m: int| 0 <= m < top.children@.len() ==> t.children[m] == tree_of(
                top.children@[m],
            ),
            lines.deep_view() == seq![t.name] + render_children(
                t.children.take(i as int),
                Seq::<char>::empty(),
            ),
        decreases top.children@.len() - i,
    {
        print_dir(&top.children[i], &empty_prefix, &mut lines);
        proof {
            assert(t.children.take(i + 1).drop_last() =~= t.children.take(i as int));
            assert(t.children.take(i + 1).last() == t.children[i as int]);
            assert(lines.deep_view() =~= seq![t.name] + render_children(
                t.children.take(i + 1),
                Seq::<char>::empty(),
            ));
        }
        i = i + 1;
    }
    proof {
        assert(t.children.take(top.children@.len() as int) =~= t.children);
        assert(lines.deep_view() =~= spec_render(t));
    }
    lines
}

} // verus!
