use vstd::prelude::*;
use crate::tree::{Tree, VNode, lookup, attrs_view, nodes_view, wf_tree, keys_unique, lookup_from, lemma_wf_child, lemma_ascending_unique};
use crate::patch::{Edit, Patch, edits_of, child_path, copy_path};

verus! {

broadcast use vstd::std_specs::vec::group_vec_axioms;

/// `SetAttribute` edits for the first `k` attributes of `na`: one for each key
/// whose value is new or changed, in list order, which in a well-formed tree
/// is ascending key order.
pub open spec fn set_edits(
    oa: Seq<(Seq<char>, Seq<char>)>,
    na: Seq<(Seq<char>, Seq<char>)>,
    path: Seq<usize>,
    k: int,
) -> Seq<Edit>
    decreases k,
{
    if k <= 0 || k > na.len() {
        Seq::empty()
    } else {
        let (key, value) = na[k - 1];
        set_edits(oa, na, path, k - 1) + if lookup(oa, key) == Some(value) {
            Seq::empty()
        } else {
            seq![Edit::SetAttribute { path, key, value }]
        }
    }
}

/// `RemoveAttribute` edits for the first `k` attributes of `oa`: one for each
/// key that `na` lacks, in list order, which in a well-formed tree is ascending
/// key order.
pub open spec fn remove_edits(
    oa: Seq<(Seq<char>, Seq<char>)>,
    na: Seq<(Seq<char>, Seq<char>)>,
    path: Seq<usize>,
    k: int,
) -> Seq<Edit>
    decreases k,
{
    if k <= 0 || k > oa.len() {
        Seq::empty()
    } else {
        let key = oa[k - 1].0;
        remove_edits(oa, na, path, k - 1) + if lookup(na, key) is None {
            seq![Edit::RemoveAttribute { path, key }]
        } else {
            Seq::empty()
        }
    }
}

/// Edits that grow or shrink a child list from `oc` to the length of `nc`.
pub open spec fn tail_edits(oc: Seq<Tree>, nc: Seq<Tree>, path: Seq<usize>) -> Seq<Edit> {
    if nc.len() > oc.len() {
        seq![Edit::AppendChildren { path, nodes: nc.subrange(oc.len() as int, nc.len() as int) }]
    } else if oc.len() > nc.len() {
        seq![Edit::RemoveTrailingChildren { path, count: (oc.len() - nc.len()) as nat }]
    } else {
        Seq::empty()
    }
}

/// Edits of the first `k` index-aligned child pairs, in index order.
pub open spec fn child_edits(oc: Seq<Tree>, nc: Seq<Tree>, path: Seq<usize>, k: int) -> Seq<Edit>
    decreases oc, k,
{
    if k <= 0 || k > oc.len() || k > nc.len() {
        Seq::empty()
    } else {
        child_edits(oc, nc, path, k - 1) + diff_at(oc[k - 1], nc[k - 1], path.push((k - 1) as usize))
    }
}

pub open spec fn min_len(a: Seq<Tree>, b: Seq<Tree>) -> int {
    if a.len() <= b.len() {
        a.len() as int
    } else {
        b.len() as int
    }
}

/// The edits that turn `old`, standing at `path`, into `new`.
pub open spec fn diff_at(old: Tree, new: Tree, path: Seq<usize>) -> Seq<Edit>
    decreases old, 0int,
{
    match old {
        Tree::Element { tag: ot, attrs: oa, children: oc } => match new {
            Tree::Element { tag: nt, attrs: na, children: nc } => {
                if ot != nt {
                    seq![Edit::Replace { path, node: new }]
                } else {
                    set_edits(oa, na, path, na.len() as int) + remove_edits(oa, na, path, oa.len() as int)
                        + child_edits(oc, nc, path, min_len(oc, nc)) + tail_edits(oc, nc, path)
                }
            },
            Tree::Text { .. } => seq![Edit::Replace { path, node: new }],
        },
        Tree::Text { content: ot } => match new {
            Tree::Text { content: nt } => {
                if ot == nt {
                    Seq::empty()
                } else {
                    seq![Edit::SetText { path, content: nt }]
                }
            },
            Tree::Element { .. } => seq![Edit::Replace { path, node: new }],
        },
    }
}

/// The edits that turn tree `old` into tree `new`, addressed from the root.
pub open spec fn diff_spec(old: Tree, new: Tree) -> Seq<Edit> {
    diff_at(old, new, Seq::empty())
}

} // verus!

verus! {

/// Position of `key` in `attrs`, if present.
fn find_attr(attrs: &Vec<(String, String)>, key: &String) -> (r: Option<usize>)
    ensures
        match r {
            Some(i) => i < attrs@.len() && lookup(attrs_view(attrs@), key@) == Some(attrs@[i as int].1@),
            None => lookup(attrs_view(attrs@), key@) is None,
        },
{
    let ghost av = attrs_view(attrs@);
    let mut i: usize = 0;
    while i < attrs.len()
        invariant
            i <= attrs.len(),
            av == attrs_view(attrs@),
            lookup(av, key@) == lookup_from(av, key@, i as int),
        decreases attrs.len() - i,
    {
        if attrs[i].0 == *key {
            return Some(i);
        }
        i = i + 1;
    }
    None
}

fn push_patch(patches: &mut Vec<Patch>, p: Patch)
    ensures
        edits_of(final(patches)@) == edits_of(old(patches)@).push(p@),
{
    patches.push(p);
    assert(edits_of(patches@) =~= edits_of(old(patches)@).push(p@));
}

/// Deep copies of `nodes[from..]`.
fn clone_tail(nodes: &Vec<VNode>, from: usize) -> (r: Vec<VNode>)
    requires
        from <= nodes@.len(),
    ensures
        nodes_view(r@) == nodes_view(nodes@).subrange(from as int, nodes@.len() as int),
{
    let mut out: Vec<VNode> = Vec::new();
    let mut i: usize = from;
    while i < nodes.len()
        invariant
            from <= i <= nodes.len(),
            nodes_view(out@) == nodes_view(nodes@).subrange(from as int, i as int),
        decreases nodes.len() - i,
    {
        let c = nodes[i].deep_clone();
        let ghost prev = out@;
        out.push(c);
        assert(out@ == prev.push(c));
        assert(c@ == nodes_view(nodes@)[i as int]);
        assert(nodes_view(out@) =~= nodes_view(prev).push(c@));
        assert(nodes_view(out@) =~= nodes_view(nodes@).subrange(from as int, i + 1));
        i = i + 1;
    }
    out
}

/// Appends to `patches` the edits that turn `before`, standing at `path`, into `after`.
fn diff_nodes(before: &VNode, after: &VNode, path: &Vec<usize>, patches: &mut Vec<Patch>)
    ensures
        edits_of(final(patches)@) == edits_of(old(patches)@) + diff_at(before@, after@, path@),
    decreases before,
{
    let ghost start = edits_of(patches@);
    match before {
        VNode::Element { tag: ot, attrs: oa, children: oc } => match after {
            VNode::Element { tag: nt, attrs: na, children: nc } => {
                if !(*ot == *nt) {
                    push_patch(patches, Patch::Replace { path: copy_path(path), node: after.deep_clone() });
                    return;
                }
                let ghost oav = attrs_view(oa@);
                let ghost nav = attrs_view(na@);
                let ghost ocv = before@->children;
                let ghost ncv = after@->children;
                proof {
                    before.lemma_children_view();
                    after.lemma_children_view();
                }
                let mut i: usize = 0;
                while i < na.len()
                    invariant
                        i <= na@.len(),
                        nav == attrs_view(na@),
                        oav == attrs_view(oa@),
                        edits_of(patches@) == start + set_edits(oav, nav, path@, i as int),
                    decreases na.len() - i,
                {
                    let same = match find_attr(oa, &na[i].0) {
                        Some(j) => oa[j].1 == na[i].1,
                        None => false,
                    };
                    if !same {
                        push_patch(
                            patches,
                            Patch::SetAttribute {
                                path: copy_path(path),
                                key: na[i].0.clone(),
                                value: na[i].1.clone(),
                            },
                        );
                    }
                    proof {
                        assert(set_edits(oav, nav, path@, i + 1) =~= set_edits(oav, nav, path@, i as int)
                            + if same { Seq::empty() } else { seq![edits_of(patches@).last()] });
                    }
                    i = i + 1;
                }
                let ghost after_set = edits_of(patches@);
                let mut i: usize = 0;
                while i < oa.len()
                    invariant
                        i <= oa@.len(),
                        nav == attrs_view(na@),
                        oav == attrs_view(oa@),
                        edits_of(patches@) == after_set + remove_edits(oav, nav, path@, i as int),
                    decreases oa.len() - i,
                {
                    let gone = find_attr(na, &oa[i].0).is_none();
                    if gone {
                        push_patch(
                            patches,
                            Patch::RemoveAttribute { path: copy_path(path), key: oa[i].0.clone() },
                        );
                    }
                    proof {
                        assert(edits_of(patches@) =~= after_set + remove_edits(oav, nav, path@, i + 1));
                    }
                    i = i + 1;
                }
                let ghost after_attrs = edits_of(patches@);
                let m: usize = if oc.len() <= nc.len() { oc.len() } else { nc.len() };
                let mut i: usize = 0;
                while i < m
                    invariant
                        i <= m,
                        m == min_len(ocv, ncv),
                        m <= oc@.len(),
                        m <= nc@.len(),
                        *before == (VNode::Element { tag: *ot, attrs: *oa, children: *oc }),
                        ocv == nodes_view(oc@),
                        ncv == nodes_view(nc@),
                        edits_of(patches@) == after_attrs + child_edits(ocv, ncv, path@, i as int),
                    decreases m - i,
                {
                    let cp = child_path(path, i);
                    proof {
                        assert(decreases_to!(*before => (*before)->children));
                        assert(decreases_to!(*oc => oc[i as int]));
                    }
                    diff_nodes(&oc[i], &nc[i], &cp, patches);
                    proof {
                        assert(edits_of(patches@) =~= after_attrs + child_edits(ocv, ncv, path@, i + 1));
                    }
                    i = i + 1;
                }
                let ghost after_children = edits_of(patches@);
                if nc.len() > oc.len() {
                    let nodes = clone_tail(nc, oc.len());
                    push_patch(patches, Patch::AppendChildren { path: copy_path(path), nodes });
                } else if oc.len() > nc.len() {
                    push_patch(
                        patches,
                        Patch::RemoveTrailingChildren { path: copy_path(path), count: oc.len() - nc.len() },
                    );
                }
                proof {
                    assert(edits_of(patches@) =~= after_children + tail_edits(ocv, ncv, path@));
                    assert(edits_of(patches@) =~= start + diff_at(before@, after@, path@));
                }
            },
            VNode::Text { .. } => {
                push_patch(patches, Patch::Replace { path: copy_path(path), node: after.deep_clone() });
            },
        },
        VNode::Text { content: ot } => match after {
            VNode::Text { content: nt } => {
                if !(*ot == *nt) {
                    push_patch(patches, Patch::SetText { path: copy_path(path), content: nt.clone() });
                } else {
                    assert(edits_of(patches@) =~= start + diff_at(before@, after@, path@));
                }
            },
            VNode::Element { .. } => {
                push_patch(patches, Patch::Replace { path: copy_path(path), node: after.deep_clone() });
            },
        },
    }
}

/// The patches that turn `old` into `new`, in the order they must be applied.
pub fn diff(old: &VNode, new: &VNode) -> (r: Vec<Patch>)
    requires
        old.wf(),
        new.wf(),
    ensures
        edits_of(r@) == diff_spec(old@, new@),
{
    let mut patches: Vec<Patch> = Vec::new();
    let root: Vec<usize> = Vec::new();
    diff_nodes(old, new, &root, &mut patches);
    assert(edits_of(patches@) =~= diff_spec(old@, new@));
    patches
}

} // verus!

verus! {

proof fn lemma_lookup_index(a: Seq<(Seq<char>, Seq<char>)>, i: int, j: int)
    requires
        keys_unique(a),
        0 <= j <= i < a.len(),
    ensures
        lookup_from(a, a[i].0, j) == Some(a[i].1),
    decreases i - j,
{
    if j < i {
        lemma_lookup_index(a, i, j + 1);
    }
}

/// With unique keys, looking up the key at position `i` gives its value.
pub proof fn lemma_lookup_own(a: Seq<(Seq<char>, Seq<char>)>, i: int)
    requires
        keys_unique(a),
        0 <= i < a.len(),
    ensures
        lookup(a, a[i].0) == Some(a[i].1),
{
    lemma_lookup_index(a, i, 0);
}

proof fn lemma_attr_edits_self(a: Seq<(Seq<char>, Seq<char>)>, path: Seq<usize>, k: int)
    requires
        keys_unique(a),
        k <= a.len(),
    ensures
        set_edits(a, a, path, k) == Seq::<Edit>::empty(),
        remove_edits(a, a, path, k) == Seq::<Edit>::empty(),
    decreases k,
{
    if k > 0 {
        lemma_attr_edits_self(a, path, k - 1);
        lemma_lookup_own(a, k - 1);
        assert(set_edits(a, a, path, k) =~= Seq::<Edit>::empty());
        assert(remove_edits(a, a, path, k) =~= Seq::<Edit>::empty());
    }
}

proof fn lemma_child_edits_self(c: Seq<Tree>, path: Seq<usize>, k: int)
    requires
        forall|i: int| 0 <= i < c.len() ==> #[trigger] wf_tree(c[i]),
        k <= c.len(),
    ensures
        child_edits(c, c, path, k) == Seq::<Edit>::empty(),
    decreases c, k,
{
    if k > 0 {
        lemma_child_edits_self(c, path, k - 1);
        lemma_diff_self_at(c[k - 1], path.push((k - 1) as usize));
        assert(child_edits(c, c, path, k) =~= Seq::<Edit>::empty());
    }
}

/// A well-formed tree compared with itself, at any path, needs no edit.
pub proof fn lemma_diff_self_at(t: Tree, path: Seq<usize>)
    requires
        wf_tree(t),
    ensures
        diff_at(t, t, path) == Seq::<Edit>::empty(),
    decreases t, 0int,
{
    if let Tree::Element { tag, attrs, children } = t {
        assert forall|i: int| 0 <= i < children.len() implies #[trigger] wf_tree(children[i]) by {
            lemma_wf_child(children, children.len() as int, i);
        }
        lemma_ascending_unique(attrs);
        lemma_attr_edits_self(attrs, path, attrs.len() as int);
        lemma_child_edits_self(children, path, children.len() as int);
        assert(diff_at(t, t, path) =~= Seq::<Edit>::empty());
    }
}

/// Diffing a well-formed tree against itself yields no patch.
pub proof fn lemma_diff_idempotent(t: Tree)
    requires
        wf_tree(t),
    ensures
        diff_spec(t, t) == Seq::<Edit>::empty(),
{
    lemma_diff_self_at(t, Seq::empty());
}

} // verus!
