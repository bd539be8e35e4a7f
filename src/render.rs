use vstd::prelude::*;
use crate::tree::{Tree, lookup, lookup_from, keys_unique, wf_tree, lemma_wf_child, lemma_ascending_unique, keys_ascending, key_lt, lemma_key_lt_asymmetric};
use crate::patch::Edit;
use crate::diff::{diff_at, diff_spec, set_edits, remove_edits, child_edits, tail_edits, min_len};

verus! {

/// Model of a live rendering: attributes form a mapping, children keep order.
pub enum Live {
    Element { tag: Seq<char>, attrs: Map<Seq<char>, Seq<char>>, children: Seq<Live> },
    Text { content: Seq<char> },
}

/// The attribute mapping of an attribute list (the first entry of a key wins).
pub open spec fn attrs_map(a: Seq<(Seq<char>, Seq<char>)>) -> Map<Seq<char>, Seq<char>> {
    Map::new(|k: Seq<char>| lookup(a, k) is Some, |k: Seq<char>| lookup(a, k)->0)
}

/// A fresh rendering of a tree.
pub open spec fn render(t: Tree) -> Live
    decreases t,
{
    match t {
        Tree::Element { tag, attrs, children } => Live::Element {
            tag,
            attrs: attrs_map(attrs),
            children: Seq::new(
                children.len(),
                |i: int|
                    if 0 <= i < children.len() {
                        render(children[i])
                    } else {
                        Live::Text { content: Seq::empty() }
                    },
            ),
        },
        Tree::Text { content } => Live::Text { content },
    }
}

pub open spec fn render_all(s: Seq<Tree>) -> Seq<Live> {
    Seq::new(s.len(), |i: int| render(s[i]))
}

/// The node at `path`, if the path leads anywhere.
pub open spec fn node_at(l: Live, path: Seq<usize>) -> Option<Live>
    decreases path.len(),
{
    if path.len() == 0 {
        Some(l)
    } else {
        match l {
            Live::Element { children, .. } => if path[0] < children.len() {
                node_at(children[path[0] as int], path.drop_first())
            } else {
                None
            },
            Live::Text { .. } => None,
        }
    }
}

/// `l` with the node at `path` replaced by `x`.
pub open spec fn replace_at(l: Live, path: Seq<usize>, x: Live) -> Live
    decreases path.len(),
{
    if path.len() == 0 {
        x
    } else {
        match l {
            Live::Element { tag, attrs, children } => if path[0] < children.len() {
                Live::Element {
                    tag,
                    attrs,
                    children: children.update(
                        path[0] as int,
                        replace_at(children[path[0] as int], path.drop_first(), x),
                    ),
                }
            } else {
                l
            },
            Live::Text { .. } => l,
        }
    }
}

pub open spec fn edit_path(e: Edit) -> Seq<usize> {
    match e {
        Edit::Replace { path, .. } => path,
        Edit::SetAttribute { path, .. } => path,
        Edit::RemoveAttribute { path, .. } => path,
        Edit::SetText { path, .. } => path,
        Edit::AppendChildren { path, .. } => path,
        Edit::RemoveTrailingChildren { path, .. } => path,
    }
}

/// What an edit makes of the node it targets; `None` where it does not fit.
pub open spec fn local_edit(n: Live, e: Edit) -> Option<Live> {
    match e {
        Edit::Replace { node, .. } => Some(render(node)),
        Edit::SetText { content, .. } => match n {
            Live::Text { .. } => Some(Live::Text { content }),
            Live::Element { .. } => None,
        },
        Edit::SetAttribute { key, value, .. } => match n {
            Live::Element { tag, attrs, children } => Some(
                Live::Element { tag, attrs: attrs.insert(key, value), children },
            ),
            Live::Text { .. } => None,
        },
        Edit::RemoveAttribute { key, .. } => match n {
            Live::Element { tag, attrs, children } => Some(
                Live::Element { tag, attrs: attrs.remove(key), children },
            ),
            Live::Text { .. } => None,
        },
        Edit::AppendChildren { nodes, .. } => match n {
            Live::Element { tag, attrs, children } => Some(
                Live::Element { tag, attrs, children: children + render_all(nodes) },
            ),
            Live::Text { .. } => None,
        },
        Edit::RemoveTrailingChildren { count, .. } => match n {
            Live::Element { tag, attrs, children } => if count <= children.len() {
                Some(
                    Live::Element {
                        tag,
                        attrs,
                        children: children.subrange(0, children.len() - count),
                    },
                )
            } else {
                None
            },
            Live::Text { .. } => None,
        },
    }
}

/// One edit applied to a live rendering; `None` when its path does not resolve
/// or the edit does not fit the node there.
pub open spec fn apply_edit(l: Live, e: Edit) -> Option<Live> {
    match node_at(l, edit_path(e)) {
        Some(n) => match local_edit(n, e) {
            Some(m) => Some(replace_at(l, edit_path(e), m)),
            None => None,
        },
        None => None,
    }
}

/// Edits applied in order; `None` at the first that fails.
pub open spec fn apply_edits(l: Live, es: Seq<Edit>) -> Option<Live>
    decreases es.len(),
{
    if es.len() == 0 {
        Some(l)
    } else {
        match apply_edit(l, es[0]) {
            Some(l2) => apply_edits(l2, es.drop_first()),
            None => None,
        }
    }
}

} // verus!

verus! {

proof fn lemma_apply_concat(l: Live, a: Seq<Edit>, b: Seq<Edit>)
    ensures
        apply_edits(l, a + b) == match apply_edits(l, a) {
            Some(l2) => apply_edits(l2, b),
            None => None,
        },
    decreases a.len(),
{
    if a.len() == 0 {
        assert(a + b =~= b);
    } else {
        assert((a + b)[0] == a[0]);
        assert((a + b).drop_first() =~= a.drop_first() + b);
        if let Some(l2) = apply_edit(l, a[0]) {
            lemma_apply_concat(l2, a.drop_first(), b);
        }
    }
}

proof fn lemma_apply_single(l: Live, e: Edit)
    ensures
        apply_edits(l, seq![e]) == apply_edit(l, e),
{
    assert(seq![e].drop_first() =~= Seq::<Edit>::empty());
    if let Some(l2) = apply_edit(l, e) {
        assert(apply_edits(l2, Seq::<Edit>::empty()) == Some(l2));
    }
}

proof fn lemma_replace_same(l: Live, p: Seq<usize>, x: Live)
    requires
        node_at(l, p) is Some,
    ensures
        node_at(replace_at(l, p, x), p) == Some(x),
    decreases p.len(),
{
    if p.len() > 0 {
        if let Live::Element { tag, attrs, children } = l {
            lemma_replace_same(children[p[0] as int], p.drop_first(), x);
        }
    }
}

proof fn lemma_replace_twice(l: Live, p: Seq<usize>, x: Live, y: Live)
    requires
        node_at(l, p) is Some,
    ensures
        replace_at(replace_at(l, p, x), p, y) == replace_at(l, p, y),
    decreases p.len(),
{
    if p.len() > 0 {
        if let Live::Element { tag, attrs, children } = l {
            let i = p[0] as int;
            lemma_replace_twice(children[i], p.drop_first(), x, y);
            let c1 = children.update(i, replace_at(children[i], p.drop_first(), x));
            assert(c1.update(i, replace_at(c1[i], p.drop_first(), y)) =~= children.update(
                i,
                replace_at(children[i], p.drop_first(), y),
            ));
        }
    }
}

proof fn lemma_replace_own(l: Live, p: Seq<usize>)
    requires
        node_at(l, p) is Some,
    ensures
        replace_at(l, p, node_at(l, p)->0) == l,
    decreases p.len(),
{
    if p.len() > 0 {
        if let Live::Element { tag, attrs, children } = l {
            let i = p[0] as int;
            lemma_replace_own(children[i], p.drop_first());
            assert(children.update(i, children[i]) =~= children);
        }
    }
}

proof fn lemma_node_at_push(l: Live, p: Seq<usize>, i: usize)
    ensures
        node_at(l, p.push(i)) == match node_at(l, p) {
            Some(Live::Element { children, .. }) => if i < children.len() {
                Some(children[i as int])
            } else {
                None
            },
            _ => None,
        },
    decreases p.len(),
{
    if p.len() == 0 {
        assert(p.push(i).drop_first() =~= Seq::<usize>::empty());
        assert(p.push(i)[0] == i);
        if let Live::Element { children, .. } = l {
            if i < children.len() {
                assert(node_at(children[i as int], Seq::empty()) == Some(children[i as int]));
            }
        }
    } else {
        assert(p.push(i)[0] == p[0]);
        assert(p.push(i).drop_first() =~= p.drop_first().push(i));
        if let Live::Element { children, .. } = l {
            if p[0] < children.len() {
                lemma_node_at_push(children[p[0] as int], p.drop_first(), i);
            }
        }
    }
}

proof fn lemma_replace_push(l: Live, p: Seq<usize>, i: usize, y: Live)
    requires
        node_at(l, p) matches Some(Live::Element { children, .. }) && i < children.len(),
    ensures
        replace_at(l, p.push(i), y) == match node_at(l, p) {
            Some(Live::Element { tag, attrs, children }) => replace_at(
                l,
                p,
                Live::Element { tag, attrs, children: children.update(i as int, y) },
            ),
            _ => l,
        },
    decreases p.len(),
{
    if p.len() == 0 {
        assert(p.push(i).drop_first() =~= Seq::<usize>::empty());
        assert(p.push(i)[0] == i);
        if let Live::Element { children, .. } = l {
            assert(replace_at(children[i as int], Seq::empty(), y) == y);
        }
    } else {
        assert(p.push(i)[0] == p[0]);
        assert(p.push(i).drop_first() =~= p.drop_first().push(i));
        if let Live::Element { children, .. } = l {
            lemma_replace_push(children[p[0] as int], p.drop_first(), i, y);
        }
    }
}

} // verus!

verus! {

proof fn lemma_lookup_from_push(a: Seq<(Seq<char>, Seq<char>)>, x: (Seq<char>, Seq<char>), k: Seq<char>, i: int)
    requires
        0 <= i <= a.len(),
    ensures
        lookup_from(a.push(x), k, i) == if lookup_from(a, k, i) is Some {
            lookup_from(a, k, i)
        } else if x.0 == k {
            Some(x.1)
        } else {
            None
        },
    decreases a.len() - i,
{
    if i < a.len() {
        lemma_lookup_from_push(a, x, k, i + 1);
    } else {
        assert(lookup_from(a.push(x), k, i + 1) is None);
    }
}

proof fn lemma_lookup_push(a: Seq<(Seq<char>, Seq<char>)>, x: (Seq<char>, Seq<char>), k: Seq<char>)
    ensures
        lookup(a.push(x), k) == if lookup(a, k) is Some {
            lookup(a, k)
        } else if x.0 == k {
            Some(x.1)
        } else {
            None
        },
{
    lemma_lookup_from_push(a, x, k, 0);
}

proof fn lemma_lookup_absent(a: Seq<(Seq<char>, Seq<char>)>, k: Seq<char>, i: int)
    requires
        0 <= i,
        forall|j: int| i <= j < a.len() ==> (#[trigger] a[j]).0 != k,
    ensures
        lookup_from(a, k, i) is None,
    decreases a.len() - i,
{
    if i < a.len() {
        lemma_lookup_absent(a, k, i + 1);
    }
}

/// The attributes after the first `k` set edits.
spec fn set_map(oa: Seq<(Seq<char>, Seq<char>)>, na: Seq<(Seq<char>, Seq<char>)>, k: int) -> Map<
    Seq<char>,
    Seq<char>,
> {
    Map::new(
        |key: Seq<char>| lookup(na.take(k), key) is Some || lookup(oa, key) is Some,
        |key: Seq<char>|
            if lookup(na.take(k), key) is Some {
                lookup(na.take(k), key)->0
            } else {
                lookup(oa, key)->0
            },
    )
}

/// The attributes after all set edits and the first `k` remove edits.
spec fn remove_map(oa: Seq<(Seq<char>, Seq<char>)>, na: Seq<(Seq<char>, Seq<char>)>, k: int) -> Map<
    Seq<char>,
    Seq<char>,
> {
    let m = set_map(oa, na, na.len() as int);
    Map::new(
        |key: Seq<char>| m.contains_key(key) && !(lookup(na, key) is None && lookup(oa.take(k), key) is Some),
        |key: Seq<char>| m[key],
    )
}

proof fn lemma_set_stage(
    l: Live,
    p: Seq<usize>,
    tag: Seq<char>,
    c: Seq<Live>,
    oa: Seq<(Seq<char>, Seq<char>)>,
    na: Seq<(Seq<char>, Seq<char>)>,
    k: int,
)
    requires
        node_at(l, p) is Some,
        keys_unique(na),
        0 <= k <= na.len(),
    ensures
        apply_edits(
            replace_at(l, p, Live::Element { tag, attrs: set_map(oa, na, 0), children: c }),
            set_edits(oa, na, p, k),
        ) == Some(replace_at(l, p, Live::Element { tag, attrs: set_map(oa, na, k), children: c })),
    decreases k,
{
    let s0 = replace_at(l, p, Live::Element { tag, attrs: set_map(oa, na, 0), children: c });
    if k == 0 {
        assert(set_edits(oa, na, p, 0) =~= Seq::<Edit>::empty());
    } else {
        lemma_set_stage(l, p, tag, c, oa, na, k - 1);
        let prev = replace_at(l, p, Live::Element { tag, attrs: set_map(oa, na, k - 1), children: c });
        let (key, value) = na[k - 1];
        let x = if lookup(oa, key) == Some(value) {
            Seq::<Edit>::empty()
        } else {
            seq![Edit::SetAttribute { path: p, key, value }]
        };
        assert(set_edits(oa, na, p, k) == set_edits(oa, na, p, k - 1) + x);
        lemma_apply_concat(s0, set_edits(oa, na, p, k - 1), x);
        assert(na.take(k) =~= na.take(k - 1).push(na[k - 1]));
        assert forall|kk: Seq<char>| #[trigger] lookup(na.take(k), kk) == if lookup(na.take(k - 1), kk) is Some {
            lookup(na.take(k - 1), kk)
        } else if key == kk {
            Some(value)
        } else {
            None
        } by {
            lemma_lookup_push(na.take(k - 1), na[k - 1], kk);
        }
        assert forall|j: int| 0 <= j < na.take(k - 1).len() implies (#[trigger] na.take(k - 1)[j]).0
            != key by {
            assert(na.take(k - 1)[j] == na[j]);
        }
        lemma_lookup_absent(na.take(k - 1), key, 0);
        lemma_replace_same(l, p, Live::Element { tag, attrs: set_map(oa, na, k - 1), children: c });
        if lookup(oa, key) == Some(value) {
            assert(apply_edits(prev, x) == Some(prev));
            assert(set_map(oa, na, k) =~= set_map(oa, na, k - 1));
        } else {
            lemma_apply_single(prev, x[0]);
            assert(set_map(oa, na, k) =~= set_map(oa, na, k - 1).insert(key, value));
            lemma_replace_twice(
                l,
                p,
                Live::Element { tag, attrs: set_map(oa, na, k - 1), children: c },
                Live::Element { tag, attrs: set_map(oa, na, k), children: c },
            );
        }
    }
}

proof fn lemma_remove_stage(
    l: Live,
    p: Seq<usize>,
    tag: Seq<char>,
    c: Seq<Live>,
    oa: Seq<(Seq<char>, Seq<char>)>,
    na: Seq<(Seq<char>, Seq<char>)>,
    k: int,
)
    requires
        node_at(l, p) is Some,
        0 <= k <= oa.len(),
    ensures
        apply_edits(
            replace_at(l, p, Live::Element { tag, attrs: remove_map(oa, na, 0), children: c }),
            remove_edits(oa, na, p, k),
        ) == Some(replace_at(l, p, Live::Element { tag, attrs: remove_map(oa, na, k), children: c })),
    decreases k,
{
    let s0 = replace_at(l, p, Live::Element { tag, attrs: remove_map(oa, na, 0), children: c });
    if k == 0 {
        assert(remove_edits(oa, na, p, 0) =~= Seq::<Edit>::empty());
    } else {
        lemma_remove_stage(l, p, tag, c, oa, na, k - 1);
        let prev = replace_at(l, p, Live::Element { tag, attrs: remove_map(oa, na, k - 1), children: c });
        let key = oa[k - 1].0;
        let x = if lookup(na, key) is None {
            seq![Edit::RemoveAttribute { path: p, key }]
        } else {
            Seq::<Edit>::empty()
        };
        assert(remove_edits(oa, na, p, k) == remove_edits(oa, na, p, k - 1) + x);
        lemma_apply_concat(s0, remove_edits(oa, na, p, k - 1), x);
        assert(oa.take(k) =~= oa.take(k - 1).push(oa[k - 1]));
        assert forall|kk: Seq<char>| #[trigger] lookup(oa.take(k), kk) == if lookup(oa.take(k - 1), kk) is Some {
            lookup(oa.take(k - 1), kk)
        } else if key == kk {
            Some(oa[k - 1].1)
        } else {
            None
        } by {
            lemma_lookup_push(oa.take(k - 1), oa[k - 1], kk);
        }
        lemma_replace_same(l, p, Live::Element { tag, attrs: remove_map(oa, na, k - 1), children: c });
        if lookup(na, key) is None {
            lemma_apply_single(prev, x[0]);
            assert(remove_map(oa, na, k) =~= remove_map(oa, na, k - 1).remove(key));
            lemma_replace_twice(
                l,
                p,
                Live::Element { tag, attrs: remove_map(oa, na, k - 1), children: c },
                Live::Element { tag, attrs: remove_map(oa, na, k), children: c },
            );
        } else {
            assert(apply_edits(prev, x) == Some(prev));
            assert(remove_map(oa, na, k) =~= remove_map(oa, na, k - 1));
        }
    }
}

/// Set edits then remove edits turn the old attribute mapping into the new one.
proof fn lemma_attr_stages(
    l: Live,
    p: Seq<usize>,
    tag: Seq<char>,
    c: Seq<Live>,
    oa: Seq<(Seq<char>, Seq<char>)>,
    na: Seq<(Seq<char>, Seq<char>)>,
)
    requires
        node_at(l, p) is Some,
        keys_unique(na),
    ensures
        apply_edits(
            replace_at(l, p, Live::Element { tag, attrs: attrs_map(oa), children: c }),
            set_edits(oa, na, p, na.len() as int) + remove_edits(oa, na, p, oa.len() as int),
        ) == Some(replace_at(l, p, Live::Element { tag, attrs: attrs_map(na), children: c })),
{
    assert(na.take(0) =~= Seq::<(Seq<char>, Seq<char>)>::empty());
    assert(set_map(oa, na, 0) =~= attrs_map(oa));
    lemma_set_stage(l, p, tag, c, oa, na, na.len() as int);
    let s1 = replace_at(l, p, Live::Element { tag, attrs: set_map(oa, na, na.len() as int), children: c });
    lemma_apply_concat(
        replace_at(l, p, Live::Element { tag, attrs: attrs_map(oa), children: c }),
        set_edits(oa, na, p, na.len() as int),
        remove_edits(oa, na, p, oa.len() as int),
    );
    assert(oa.take(0) =~= Seq::<(Seq<char>, Seq<char>)>::empty());
    assert(remove_map(oa, na, 0) =~= set_map(oa, na, na.len() as int));
    lemma_remove_stage(l, p, tag, c, oa, na, oa.len() as int);
    assert(na.take(na.len() as int) =~= na);
    assert(oa.take(oa.len() as int) =~= oa);
    assert(remove_map(oa, na, oa.len() as int) =~= attrs_map(na));
}

} // verus!

verus! {

proof fn lemma_render_element(t: Tree)
    requires
        t is Element,
    ensures
        render(t) == (Live::Element {
            tag: t->tag,
            attrs: attrs_map(t->attrs),
            children: render_all(t->children),
        }),
{
    assert(render(t)->children =~= render_all(t->children));
}

/// Children after the first `k` index-aligned child diffs have been applied.
spec fn children_after(oc: Seq<Tree>, nc: Seq<Tree>, k: int) -> Seq<Live> {
    render_all(nc).take(k) + render_all(oc).skip(k)
}

proof fn lemma_children_stage(
    l: Live,
    p: Seq<usize>,
    tag: Seq<char>,
    a: Map<Seq<char>, Seq<char>>,
    oc: Seq<Tree>,
    nc: Seq<Tree>,
    k: int,
)
    requires
        node_at(l, p) is Some,
        0 <= k <= min_len(oc, nc),
        oc.len() <= usize::MAX,
        forall|i: int| 0 <= i < oc.len() ==> #[trigger] wf_tree(oc[i]),
        forall|i: int| 0 <= i < nc.len() ==> #[trigger] wf_tree(nc[i]),
    ensures
        apply_edits(
            replace_at(l, p, Live::Element { tag, attrs: a, children: render_all(oc) }),
            child_edits(oc, nc, p, k),
        ) == Some(replace_at(l, p, Live::Element { tag, attrs: a, children: children_after(oc, nc, k) })),
    decreases oc, k,
{
    let s0 = replace_at(l, p, Live::Element { tag, attrs: a, children: render_all(oc) });
    if k == 0 {
        assert(child_edits(oc, nc, p, 0) =~= Seq::<Edit>::empty());
        assert(children_after(oc, nc, 0) =~= render_all(oc));
    } else {
        lemma_children_stage(l, p, tag, a, oc, nc, k - 1);
        let j = k - 1;
        let cprev = children_after(oc, nc, j);
        let eprev = Live::Element { tag, attrs: a, children: cprev };
        let prev = replace_at(l, p, eprev);
        let cp = p.push(j as usize);
        let x = diff_at(oc[j], nc[j], cp);
        assert(child_edits(oc, nc, p, k) == child_edits(oc, nc, p, j) + x);
        lemma_apply_concat(s0, child_edits(oc, nc, p, j), x);
        lemma_replace_same(l, p, eprev);
        assert(j as usize as int == j);
        lemma_node_at_push(prev, p, j as usize);
        assert(cprev[j] == render(oc[j]));
        assert(node_at(prev, cp) == Some(render(oc[j])));
        lemma_diff_applies(oc[j], nc[j], cp, prev);
        lemma_replace_push(prev, p, j as usize, render(nc[j]));
        let cnext = cprev.update(j, render(nc[j]));
        assert(cnext =~= children_after(oc, nc, k));
        lemma_replace_twice(l, p, eprev, Live::Element { tag, attrs: a, children: cnext });
    }
}

/// Applying the edits of `diff_at(old, new, p)` where `old` is rendered at `p`
/// leaves a rendering of `new` there and everything else untouched.
pub proof fn lemma_diff_applies(old: Tree, new: Tree, p: Seq<usize>, l: Live)
    requires
        wf_tree(old),
        wf_tree(new),
        node_at(l, p) == Some(render(old)),
    ensures
        apply_edits(l, diff_at(old, new, p)) == Some(replace_at(l, p, render(new))),
    decreases old, 0int,
{
    let d = diff_at(old, new, p);
    let replaced = seq![Edit::Replace { path: p, node: new }];
    match old {
        Tree::Element { tag: ot, attrs: oa, children: oc } => match new {
            Tree::Element { tag: nt, attrs: na, children: nc } => {
                if ot != nt {
                    lemma_apply_single(l, replaced[0]);
                } else {
                    lemma_replace_own(l, p);
                    lemma_render_element(old);
                    lemma_render_element(new);
                    let set_rem = set_edits(oa, na, p, na.len() as int) + remove_edits(
                        oa,
                        na,
                        p,
                        oa.len() as int,
                    );
                    let m = min_len(oc, nc);
                    let ch = child_edits(oc, nc, p, m);
                    let tl = tail_edits(oc, nc, p);
                    assert(d == set_rem + ch + tl);
                    lemma_apply_concat(l, set_rem + ch, tl);
                    lemma_apply_concat(l, set_rem, ch);
                    lemma_ascending_unique(na);
                    lemma_attr_stages(l, p, ot, render_all(oc), oa, na);
                    let s1 = replace_at(
                        l,
                        p,
                        Live::Element { tag: ot, attrs: attrs_map(na), children: render_all(oc) },
                    );
                    assert forall|i: int| 0 <= i < oc.len() implies #[trigger] wf_tree(oc[i]) by {
                        lemma_wf_child(oc, oc.len() as int, i);
                    }
                    assert forall|i: int| 0 <= i < nc.len() implies #[trigger] wf_tree(nc[i]) by {
                        lemma_wf_child(nc, nc.len() as int, i);
                    }
                    lemma_children_stage(l, p, ot, attrs_map(na), oc, nc, m);
                    let c2 = children_after(oc, nc, m);
                    let e2 = Live::Element { tag: ot, attrs: attrs_map(na), children: c2 };
                    let s2 = replace_at(l, p, e2);
                    let target = Live::Element {
                        tag: ot,
                        attrs: attrs_map(na),
                        children: render_all(nc),
                    };
                    lemma_replace_same(l, p, e2);
                    if nc.len() > oc.len() {
                        lemma_apply_single(s2, tl[0]);
                        assert(c2 + render_all(nc.subrange(oc.len() as int, nc.len() as int))
                            =~= render_all(nc));
                        lemma_replace_twice(l, p, e2, target);
                    } else if oc.len() > nc.len() {
                        lemma_apply_single(s2, tl[0]);
                        assert(c2.subrange(0, nc.len() as int) =~= render_all(nc));
                        lemma_replace_twice(l, p, e2, target);
                    } else {
                        assert(tl =~= Seq::<Edit>::empty());
                        assert(c2 =~= render_all(nc));
                    }
                }
            },
            Tree::Text { .. } => {
                lemma_apply_single(l, replaced[0]);
            },
        },
        Tree::Text { content: ot } => match new {
            Tree::Text { content: nt } => {
                if ot == nt {
                    lemma_replace_own(l, p);
                } else {
                    lemma_apply_single(l, Edit::SetText { path: p, content: nt });
                }
            },
            Tree::Element { .. } => {
                lemma_apply_single(l, replaced[0]);
            },
        },
    }
}

/// Applying `diff(old, new)` to a fresh rendering of `old` yields a rendering
/// equal to a fresh rendering of `new`.
pub proof fn lemma_round_trip(old: Tree, new: Tree)
    requires
        wf_tree(old),
        wf_tree(new),
    ensures
        apply_edits(render(old), diff_spec(old, new)) == Some(render(new)),
{
    lemma_diff_applies(old, new, Seq::empty(), render(old));
}

} // verus!

verus! {

proof fn lemma_lookup_from_found(a: Seq<(Seq<char>, Seq<char>)>, k: Seq<char>, i: int) -> (j: int)
    requires
        0 <= i,
        lookup_from(a, k, i) is Some,
    ensures
        i <= j < a.len(),
        a[j].0 == k,
        lookup_from(a, k, i) == Some(a[j].1),
    decreases a.len() - i,
{
    if a[i].0 == k {
        i
    } else {
        lemma_lookup_from_found(a, k, i + 1)
    }
}

proof fn lemma_lookup_from_shift(a: Seq<(Seq<char>, Seq<char>)>, k: Seq<char>, i: int)
    requires
        a.len() > 0,
        0 <= i,
    ensures
        lookup_from(a.drop_first(), k, i) == lookup_from(a, k, i + 1),
    decreases a.len() - i,
{
    if i < a.len() - 1 {
        lemma_lookup_from_shift(a, k, i + 1);
    }
}

proof fn lemma_lookup_drop_first(a: Seq<(Seq<char>, Seq<char>)>, k: Seq<char>)
    requires
        a.len() > 0,
        keys_unique(a),
    ensures
        lookup(a.drop_first(), k) == if k == a[0].0 {
            None
        } else {
            lookup(a, k)
        },
{
    lemma_lookup_from_shift(a, k, 0);
    if k == a[0].0 {
        assert forall|j: int| 1 <= j < a.len() implies (#[trigger] a[j]).0 != k by {}
        lemma_lookup_absent(a, k, 1);
    }
}

/// Two attribute lists in ascending key order that look up alike are equal.
proof fn lemma_ascending_lists_equal(a: Seq<(Seq<char>, Seq<char>)>, b: Seq<(Seq<char>, Seq<char>)>)
    requires
        keys_ascending(a),
        keys_ascending(b),
        forall|k: Seq<char>| #[trigger] lookup(a, k) == lookup(b, k),
    ensures
        a == b,
    decreases a.len(),
{
    if a.len() == 0 || b.len() == 0 {
        if b.len() > 0 {
            assert(lookup(b, b[0].0) is Some);
            assert(lookup(a, b[0].0) is None);
        }
        if a.len() > 0 {
            assert(lookup(a, a[0].0) is Some);
            assert(lookup(b, a[0].0) is None);
        }
        assert(a =~= b);
    } else {
        lemma_ascending_unique(a);
        lemma_ascending_unique(b);
        assert(lookup(a, a[0].0) == Some(a[0].1));
        assert(lookup(b, b[0].0) == Some(b[0].1));
        let j = lemma_lookup_from_found(b, a[0].0, 0);
        let i = lemma_lookup_from_found(a, b[0].0, 0);
        if j > 0 && i > 0 {
            assert(key_lt(b[0].0, b[j].0));
            assert(key_lt(a[0].0, a[i].0));
            lemma_key_lt_asymmetric(a[0].0, b[0].0);
        }
        assert(a[0] == b[0]);
        let ta = a.drop_first();
        let tb = b.drop_first();
        assert forall|k: Seq<char>| #[trigger] lookup(ta, k) == lookup(tb, k) by {
            lemma_lookup_drop_first(a, k);
            lemma_lookup_drop_first(b, k);
            assert(lookup(a, k) == lookup(b, k));
        }
        assert(keys_ascending(ta)) by {
            assert forall|x: int, y: int| 0 <= x < y < ta.len() implies key_lt(ta[x].0, ta[y].0) by {
                assert(ta[x] == a[x + 1] && ta[y] == a[y + 1]);
            }
        }
        assert(keys_ascending(tb)) by {
            assert forall|x: int, y: int| 0 <= x < y < tb.len() implies key_lt(tb[x].0, tb[y].0) by {
                assert(tb[x] == b[x + 1] && tb[y] == b[y + 1]);
            }
        }
        lemma_ascending_lists_equal(ta, tb);
        assert(a =~= seq![a[0]] + ta);
        assert(b =~= seq![b[0]] + tb);
    }
}

/// Well-formed trees with equal fresh renderings are equal.
pub proof fn lemma_render_injective(t1: Tree, t2: Tree)
    requires
        wf_tree(t1),
        wf_tree(t2),
        render(t1) == render(t2),
    ensures
        t1 == t2,
    decreases t1,
{
    match t1 {
        Tree::Element { tag: tag1, attrs: a1, children: c1 } => match t2 {
            Tree::Element { tag: tag2, attrs: a2, children: c2 } => {
                lemma_render_element(t1);
                lemma_render_element(t2);
                assert forall|k: Seq<char>| #[trigger] lookup(a1, k) == lookup(a2, k) by {
                    assert(attrs_map(a1).contains_key(k) == attrs_map(a2).contains_key(k));
                    if lookup(a1, k) is Some {
                        assert(attrs_map(a1)[k] == attrs_map(a2)[k]);
                    }
                }
                lemma_ascending_lists_equal(a1, a2);
                assert(render_all(c1).len() == render_all(c2).len());
                assert forall|i: int| 0 <= i < c1.len() implies c1[i] == c2[i] by {
                    assert(render_all(c1)[i] == render_all(c2)[i]);
                    lemma_wf_child(c1, c1.len() as int, i);
                    lemma_wf_child(c2, c2.len() as int, i);
                    lemma_render_injective(c1[i], c2[i]);
                }
                assert(c1 =~= c2);
            },
            Tree::Text { .. } => {},
        },
        Tree::Text { .. } => {},
    }
}

/// The patches depend only on what the trees render to: well-formed trees
/// with equal renderings (equal tags, text, attribute mappings and children)
/// give identical patch lists.
pub proof fn lemma_diff_canonical(old1: Tree, old2: Tree, new1: Tree, new2: Tree)
    requires
        wf_tree(old1),
        wf_tree(old2),
        wf_tree(new1),
        wf_tree(new2),
        render(old1) == render(old2),
        render(new1) == render(new2),
    ensures
        diff_spec(old1, new1) == diff_spec(old2, new2),
{
    lemma_render_injective(old1, old2);
    lemma_render_injective(new1, new2);
}

} // verus!
