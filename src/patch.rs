use vstd::prelude::*;
use crate::tree::{Tree, VNode, nodes_view, clone_nodes};

verus! {

/// Mathematical model of a patch: the view of a `Patch`.
pub enum Edit {
    Replace { path: Seq<usize>, node: Tree },
    SetAttribute { path: Seq<usize>, key: Seq<char>, value: Seq<char> },
    RemoveAttribute { path: Seq<usize>, key: Seq<char> },
    SetText { path: Seq<usize>, content: Seq<char> },
    AppendChildren { path: Seq<usize>, nodes: Seq<Tree> },
    RemoveTrailingChildren { path: Seq<usize>, count: nat },
}

/// One path-addressed edit; `path` lists child indices from the root.
#[derive(Debug, PartialEq, Eq)]
pub enum Patch {
    Replace { path: Vec<usize>, node: VNode },
    SetAttribute { path: Vec<usize>, key: String, value: String },
    RemoveAttribute { path: Vec<usize>, key: String },
    SetText { path: Vec<usize>, content: String },
    AppendChildren { path: Vec<usize>, nodes: Vec<VNode> },
    RemoveTrailingChildren { path: Vec<usize>, count: usize },
}

impl View for Patch {
    type V = Edit;

    open spec fn view(&self) -> Edit {
        match self {
            Patch::Replace { path, node } => Edit::Replace { path: path@, node: node@ },
            Patch::SetAttribute { path, key, value } => Edit::SetAttribute {
                path: path@,
                key: key@,
                value: value@,
            },
            Patch::RemoveAttribute { path, key } => Edit::RemoveAttribute { path: path@, key: key@ },
            Patch::SetText { path, content } => Edit::SetText { path: path@, content: content@ },
            Patch::AppendChildren { path, nodes } => Edit::AppendChildren {
                path: path@,
                nodes: nodes_view(nodes@),
            },
            Patch::RemoveTrailingChildren { path, count } => Edit::RemoveTrailingChildren {
                path: path@,
                count: *count as nat,
            },
        }
    }
}

pub open spec fn edits_of(ps: Seq<Patch>) -> Seq<Edit> {
    ps.map_values(|p: Patch| p@)
}

/// A copy of a path with one more index at its end.
pub fn child_path(path: &Vec<usize>, i: usize) -> (r: Vec<usize>)
    ensures
        r@ == path@.push(i),
{
    let mut out: Vec<usize> = Vec::new();
    let mut j: usize = 0;
    while j < path.len()
        invariant
            j <= path.len(),
            out@ == path@.subrange(0, j as int),
        decreases path.len() - j,
    {
        out.push(path[j]);
        assert(out@ =~= path@.subrange(0, j + 1));
        j = j + 1;
    }
    out.push(i);
    assert(out@ =~= path@.push(i));
    out
}

/// A copy of a path.
pub fn copy_path(path: &Vec<usize>) -> (r: Vec<usize>)
    ensures
        r@ == path@,
{
    let mut out: Vec<usize> = Vec::new();
    let mut j: usize = 0;
    while j < path.len()
        invariant
            j <= path.len(),
            out@ == path@.subrange(0, j as int),
        decreases path.len() - j,
    {
        out.push(path[j]);
        assert(out@ =~= path@.subrange(0, j + 1));
        j = j + 1;
    }
    assert(out@ =~= path@);
    out
}

} // verus!

verus! {

impl Patch {
    /// A deep copy of this patch.
    pub fn clone_patch(&self) -> (r: Patch)
        ensures
            r@ == self@,
    {
        match self {
            Patch::Replace { path, node } => Patch::Replace { path: copy_path(path), node: node.deep_clone() },
            Patch::SetAttribute { path, key, value } => Patch::SetAttribute {
                path: copy_path(path),
                key: key.clone(),
                value: value.clone(),
            },
            Patch::RemoveAttribute { path, key } => Patch::RemoveAttribute {
                path: copy_path(path),
                key: key.clone(),
            },
            Patch::SetText { path, content } => Patch::SetText {
                path: copy_path(path),
                content: content.clone(),
            },
            Patch::AppendChildren { path, nodes } => Patch::AppendChildren {
                path: copy_path(path),
                nodes: clone_nodes(nodes),
            },
            Patch::RemoveTrailingChildren { path, count } => Patch::RemoveTrailingChildren {
                path: copy_path(path),
                count: *count,
            },
        }
    }
}

} // verus!
