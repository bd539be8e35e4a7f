use vstd::prelude::*;
use vstd::string::StrSliceExecFns;

verus! {

broadcast use vstd::std_specs::vec::group_vec_axioms;

/// Mathematical model of a node: the view of a `VNode`.
pub enum Tree {
    Element { tag: Seq<char>, attrs: Seq<(Seq<char>, Seq<char>)>, children: Seq<Tree> },
    Text { content: Seq<char> },
}

/// A node of the virtual tree: an element with a tag, attributes and ordered
/// children, or a text leaf.
#[derive(Debug, PartialEq, Eq)]
pub enum VNode {
    Element { tag: String, attrs: Vec<(String, String)>, children: Vec<VNode> },
    Text { content: String },
}

pub open spec fn attrs_view(a: Seq<(String, String)>) -> Seq<(Seq<char>, Seq<char>)> {
    a.map_values(|p: (String, String)| (p.0@, p.1@))
}

impl View for VNode {
    type V = Tree;

    open spec fn view(&self) -> Tree
        decreases self,
    {
        match self {
            VNode::Element { tag, attrs, children } => Tree::Element {
                tag: tag@,
                attrs: attrs_view(attrs@),
                children: Seq::new(
                    children.len() as nat,
                    |i: int|
                        if 0 <= i < children.len() {
                            children[i].view()
                        } else {
                            Tree::Text { content: Seq::empty() }
                        },
                ),
            },
            VNode::Text { content } => Tree::Text { content: content@ },
        }
    }
}

pub open spec fn nodes_view(s: Seq<VNode>) -> Seq<Tree> {
    s.map_values(|n: VNode| n@)
}

/// The value stored under `key`, looking from position `i` on.
pub open spec fn lookup_from(attrs: Seq<(Seq<char>, Seq<char>)>, key: Seq<char>, i: int) -> Option<
    Seq<char>,
>
    decreases attrs.len() - i,
{
    if i < 0 || i >= attrs.len() {
        None
    } else if attrs[i].0 == key {
        Some(attrs[i].1)
    } else {
        lookup_from(attrs, key, i + 1)
    }
}

/// The value of attribute `key`, if any.
pub open spec fn lookup(attrs: Seq<(Seq<char>, Seq<char>)>, key: Seq<char>) -> Option<Seq<char>> {
    lookup_from(attrs, key, 0)
}

pub open spec fn keys_unique(attrs: Seq<(Seq<char>, Seq<char>)>) -> bool {
    forall|i: int, j: int|
        0 <= i < attrs.len() && 0 <= j < attrs.len() && i != j ==> attrs[i].0 != attrs[j].0
}

/// Lexicographic order on keys, comparing characters from position `i` on.
pub open spec fn key_lt_from(a: Seq<char>, b: Seq<char>, i: int) -> bool
    decreases a.len() - i,
{
    if i < 0 {
        false
    } else if i >= a.len() {
        b.len() > i
    } else if i >= b.len() {
        false
    } else if a[i] != b[i] {
        (a[i] as u32) < (b[i] as u32)
    } else {
        key_lt_from(a, b, i + 1)
    }
}

/// `a` comes strictly before `b` in lexicographic order of characters.
pub open spec fn key_lt(a: Seq<char>, b: Seq<char>) -> bool {
    key_lt_from(a, b, 0)
}

/// Attribute keys stand in strictly ascending order, so each attribute
/// mapping has exactly one list form.
pub open spec fn keys_ascending(attrs: Seq<(Seq<char>, Seq<char>)>) -> bool {
    forall|i: int, j: int| 0 <= i < j < attrs.len() ==> key_lt(attrs[i].0, attrs[j].0)
}

proof fn lemma_key_lt_from_irreflexive(a: Seq<char>, i: int)
    requires
        0 <= i,
    ensures
        !key_lt_from(a, a, i),
    decreases a.len() - i,
{
    if i < a.len() {
        lemma_key_lt_from_irreflexive(a, i + 1);
    }
}

proof fn lemma_key_lt_from_asymmetric(a: Seq<char>, b: Seq<char>, i: int)
    requires
        0 <= i,
        key_lt_from(a, b, i),
    ensures
        !key_lt_from(b, a, i),
    decreases a.len() - i,
{
    if i < a.len() && i < b.len() && a[i] == b[i] {
        lemma_key_lt_from_asymmetric(a, b, i + 1);
    }
}

/// No key comes before itself.
pub proof fn lemma_key_lt_irreflexive(a: Seq<char>)
    ensures
        !key_lt(a, a),
{
    lemma_key_lt_from_irreflexive(a, 0);
}

/// Two keys are never each before the other.
pub proof fn lemma_key_lt_asymmetric(a: Seq<char>, b: Seq<char>)
    requires
        key_lt(a, b),
    ensures
        !key_lt(b, a),
{
    lemma_key_lt_from_asymmetric(a, b, 0);
}

/// Ascending keys are unique.
pub proof fn lemma_ascending_unique(attrs: Seq<(Seq<char>, Seq<char>)>)
    requires
        keys_ascending(attrs),
    ensures
        keys_unique(attrs),
{
    assert forall|i: int, j: int|
        0 <= i < attrs.len() && 0 <= j < attrs.len() && i != j implies attrs[i].0 != attrs[j].0 by {
        lemma_key_lt_irreflexive(attrs[i].0);
        lemma_key_lt_irreflexive(attrs[j].0);
    }
}

/// A well-formed tree: attribute keys stand in strictly ascending order in
/// every element, and child indices fit in `usize`.
pub open spec fn wf_tree(t: Tree) -> bool
    decreases t, 0int,
{
    match t {
        Tree::Element { attrs, children, .. } => keys_ascending(attrs) && children.len() <= usize::MAX
            && wf_children(children, children.len() as int),
        Tree::Text { .. } => true,
    }
}

/// The first `k` trees of `c` are well formed.
pub open spec fn wf_children(c: Seq<Tree>, k: int) -> bool
    decreases c, k,
{
    if k <= 0 || k > c.len() {
        true
    } else {
        wf_children(c, k - 1) && wf_tree(c[k - 1])
    }
}

/// Each tree of a well-formed prefix is well formed.
pub proof fn lemma_wf_child(c: Seq<Tree>, k: int, i: int)
    requires
        wf_children(c, k),
        0 <= i < k <= c.len(),
    ensures
        wf_tree(c[i]),
    decreases k,
{
    if i < k - 1 {
        lemma_wf_child(c, k - 1, i);
    }
}

impl VNode {
    pub open spec fn wf(&self) -> bool {
        wf_tree(self@)
    }

    /// The children of an element's view are the views of its children.
    pub proof fn lemma_children_view(&self)
        ensures
            self matches VNode::Element { children, .. } ==> self@->children == nodes_view(
                children@,
            ),
    {
        if let VNode::Element { children, .. } = self {
            assert(self@->children =~= nodes_view(children@));
        }
    }

    /// A text leaf.
    pub fn text(content: String) -> (r: VNode)
        ensures
            r@ == (Tree::Text { content: content@ }),
    {
        VNode::Text { content }
    }

    /// An element with the given tag, attributes and children.
    pub fn element(tag: String, attrs: Vec<(String, String)>, children: Vec<VNode>) -> (r: VNode)
        ensures
            r@ == (Tree::Element {
                tag: tag@,
                attrs: attrs_view(attrs@),
                children: nodes_view(children@),
            }),
    {
        let r = VNode::Element { tag, attrs, children };
        proof {
            if let VNode::Element { children: c, .. } = &r {
                assert(r@->children =~= nodes_view(c@));
            }
        }
        r
    }

    /// A deep copy of this node.
    pub fn deep_clone(&self) -> (r: VNode)
        ensures
            r@ == self@,
        decreases self,
    {
        match self {
            VNode::Element { tag, attrs, children } => {
                let t = tag.clone();
                let a = clone_attrs(attrs);
                let c = clone_nodes(children);
                let r = VNode::Element { tag: t, attrs: a, children: c };
                proof {
                    assert forall|j: int| 0 <= j < children.len() implies r@->children[j]
                        == self@->children[j] by {
                        assert(c@[j]@ == children@[j]@);
                    }
                    assert(r@->children =~= self@->children);
                }
                r
            },
            VNode::Text { content } => VNode::Text { content: content.clone() },
        }
    }
}

/// A copy of an attribute list.
pub fn clone_attrs(attrs: &Vec<(String, String)>) -> (r: Vec<(String, String)>)
    ensures
        r@ == attrs@,
{
    let mut out: Vec<(String, String)> = Vec::new();
    let mut i: usize = 0;
    while i < attrs.len()
        invariant
            i <= attrs.len(),
            out@ == attrs@.subrange(0, i as int),
        decreases attrs.len() - i,
    {
        let k = attrs[i].0.clone();
        let v = attrs[i].1.clone();
        out.push((k, v));
        assert(out@ =~= attrs@.subrange(0, i + 1));
        i = i + 1;
    }
    assert(out@ =~= attrs@);
    out
}

/// A deep copy of a list of nodes.
pub fn clone_nodes(nodes: &Vec<VNode>) -> (r: Vec<VNode>)
    ensures
        nodes_view(r@) == nodes_view(nodes@),
        r@.len() == nodes@.len(),
        forall|j: int| 0 <= j < nodes@.len() ==> (#[trigger] r@[j])@ == nodes@[j]@,
    decreases nodes, 0nat,
{
    let mut out: Vec<VNode> = Vec::new();
    let mut i: usize = 0;
    while i < nodes.len()
        invariant
            i <= nodes.len(),
            out@.len() == i,
            forall|j: int| 0 <= j < i ==> (#[trigger] out@[j])@ == nodes@[j]@,
        decreases nodes.len() - i,
    {
        let c = nodes[i].deep_clone();
        out.push(c);
        i = i + 1;
    }
    assert(nodes_view(out@) =~= nodes_view(nodes@));
    out
}

} // verus!

verus! {

/// Whether `a` comes strictly before `b` in lexicographic order of characters.
pub fn key_less(a: &String, b: &String) -> (r: bool)
    ensures
        r == key_lt(a@, b@),
{
    let sa = a.as_str();
    let sb = b.as_str();
    let la = sa.unicode_len();
    let lb = sb.unicode_len();
    let mut i: usize = 0;
    while i < la && i < lb
        invariant
            la == a@.len(),
            lb == b@.len(),
            sa@ == a@,
            sb@ == b@,
            i <= la,
            i <= lb,
            key_lt(a@, b@) == key_lt_from(a@, b@, i as int),
        decreases la - i,
    {
        let ca = sa.get_char(i);
        let cb = sb.get_char(i);
        if (ca as u32) != (cb as u32) {
            assert(a@[i as int] != b@[i as int]);
            return (ca as u32) < (cb as u32);
        }
        assert(a@[i as int] == b@[i as int]);
        i = i + 1;
    }
    lb > i
}

/// Whether the attribute keys stand in strictly ascending order.
pub fn ascending_keys(attrs: &Vec<(String, String)>) -> (r: bool)
    ensures
        r == keys_ascending(attrs_view(attrs@)),
{
    let ghost av = attrs_view(attrs@);
    let n = attrs.len();
    let mut i: usize = 0;
    while i < n
        invariant
            n == attrs@.len(),
            av == attrs_view(attrs@),
            i <= n,
            forall|a: int, b: int| 0 <= a < b < n && a < i ==> key_lt(av[a].0, av[b].0),
        decreases n - i,
    {
        let mut j: usize = i + 1;
        while j < n
            invariant
                n == attrs@.len(),
                av == attrs_view(attrs@),
                i < n,
                i + 1 <= j <= n,
                forall|a: int, b: int| 0 <= a < b < n && a < i ==> key_lt(av[a].0, av[b].0),
                forall|b: int| i < b < j ==> key_lt(av[i as int].0, av[b].0),
            decreases n - j,
        {
            if !key_less(&attrs[i].0, &attrs[j].0) {
                assert(av[i as int].0 == attrs@[i as int].0@);
                assert(av[j as int].0 == attrs@[j as int].0@);
                assert(!key_lt(av[i as int].0, av[j as int].0));
                return false;
            }
            assert(av[i as int].0 == attrs@[i as int].0@);
            assert(av[j as int].0 == attrs@[j as int].0@);
            j = j + 1;
        }
        i = i + 1;
    }
    true
}

impl VNode {
    /// Whether attribute keys stand in strictly ascending order in every
    /// element of this tree.
    pub fn is_well_formed(&self) -> (r: bool)
        ensures
            r == self.wf(),
        decreases self,
    {
        match self {
            VNode::Element { attrs, children, .. } => {
                if !ascending_keys(attrs) {
                    return false;
                }
                let ghost cv = self@->children;
                proof {
                    self.lemma_children_view();
                }
                let mut i: usize = 0;
                while i < children.len()
                    invariant
                        i <= children@.len(),
                        cv == nodes_view(children@),
                        *self == (VNode::Element { tag: self->tag, attrs: *attrs, children: *children }),
                        wf_children(cv, i as int),
                    decreases children.len() - i,
                {
                    proof {
                        assert(decreases_to!(*self => (*self)->children));
                        assert(decreases_to!(*children => children[i as int]));
                    }
                    if !children[i].is_well_formed() {
                        proof {
                            assert(cv[i as int] == children@[i as int]@);
                            assert(!wf_tree(cv[i as int]));
                            if wf_children(cv, cv.len() as int) {
                                lemma_wf_child(cv, cv.len() as int, i as int);
                            }
                            assert(!wf_children(cv, cv.len() as int));
                            assert(self@->children == cv);
                            assert(!wf_tree(self@));
                        }
                        return false;
                    }
                    assert(cv[i as int] == children@[i as int]@);
                    i = i + 1;
                }
                true
            },
            VNode::Text { .. } => true,
        }
    }
}

} // verus!
