use vstd::prelude::*;
use crate::tree::{Tree, VNode};
use crate::patch::{Patch, Edit, edits_of};
use crate::diff::{diff, diff_spec};
use crate::render::{apply_edits, render, lemma_round_trip};
use crate::tree::wf_tree;

verus! {

/// Why a reconciliation cycle failed.
#[derive(Debug, Clone, Copy, PartialEq, Eq)]
pub enum ReconcileError {
    /// The renderer could not materialize a node.
    RenderCreate,
    /// A patch path did not resolve against the live tree.
    PathResolution,
    /// Any other renderer-side mutation failed.
    RenderMutation,
}

/// What the renderer reports after carrying out the last action.
#[derive(Debug, Clone, Copy, PartialEq, Eq)]
pub enum Outcome {
    Succeeded,
    Failed(ReconcileError),
}

/// What the renderer must do next.
#[derive(Debug)]
pub enum Action {
    /// Materialize the whole tree and attach it under the root handle.
    Mount(VNode),
    /// Carry out one patch, resolving its path against the root handle.
    Apply(Patch),
    /// The cycle succeeded; the new tree is now current.
    Finished,
    /// The cycle failed; the current tree is unchanged.
    Aborted(ReconcileError),
}

/// Holds the tree currently rendered and drives one update cycle at a time.
pub struct Reconciler {
    current: Option<VNode>,
    target: Option<VNode>,
    patches: Vec<Patch>,
    next: usize,
}

pub open spec fn opt_view(o: Option<VNode>) -> Option<Tree> {
    match o {
        Some(n) => Some(n@),
        None => None,
    }
}

impl Reconciler {
    /// The tree currently rendered, if any.
    pub closed spec fn current_tree(&self) -> Option<Tree> {
        opt_view(self.current)
    }

    /// The tree that the cycle in progress renders, if a cycle is in progress.
    pub closed spec fn target_tree(&self) -> Option<Tree> {
        opt_view(self.target)
    }

    /// The patches of the cycle in progress; empty for a mount.
    pub closed spec fn pending(&self) -> Seq<Edit> {
        edits_of(self.patches@)
    }

    /// Index of the patch in flight.
    pub closed spec fn in_flight(&self) -> int {
        self.next as int
    }

    pub open spec fn idle(&self) -> bool {
        self.target_tree() is None
    }

    pub closed spec fn wf(&self) -> bool {
        &&& self.target is None ==> self.patches@.len() == 0 && self.next == 0
        &&& self.target is Some ==> self.patches@.len() == 0 || self.next < self.patches@.len()
        &&& self.current matches Some(c) ==> c.wf()
        &&& self.target matches Some(t) ==> t.wf()
        &&& self.target is Some && self.patches@.len() == 0 ==> self.current is None
        &&& self.target is Some && self.patches@.len() > 0 ==> (self.current matches Some(c)
            && edits_of(self.patches@) == diff_spec(c@, self.target->0@))
    }

    /// A reconciler with nothing rendered yet.
    pub fn new() -> (r: Reconciler)
        ensures
            r.wf(),
            r.idle(),
            r.current_tree() is None,
    {
        Reconciler { current: None, target: None, patches: Vec::new(), next: 0 }
    }

    /// The tree currently rendered, if any.
    pub fn current(&self) -> (r: Option<&VNode>)
        ensures
            match r {
                Some(n) => self.current_tree() == Some(n@),
                None => self.current_tree() is None,
            },
    {
        self.current.as_ref()
    }

    /// Whether no cycle is in progress.
    pub fn is_idle(&self) -> (r: bool)
        ensures
            r == self.idle(),
    {
        self.target.is_none()
    }

    /// Forgets the current tree, so that the next update mounts afresh.
    pub fn reset(&mut self)
        requires
            old(self).wf(),
            old(self).idle(),
        ensures
            final(self).wf(),
            final(self).idle(),
            final(self).current_tree() is None,
    {
        self.current = None;
    }

    /// Starts a cycle towards `new`. With nothing rendered, the action is a
    /// mount of the whole tree and no diff is made; otherwise the patches are
    /// `diff(current, new)`, handed out one at a time.
    pub fn begin(&mut self, new: VNode) -> (r: Action)
        requires
            old(self).wf(),
            old(self).idle(),
            new.wf(),
        ensures
            final(self).wf(),
            old(self).current_tree() is None ==> {
                &&& r matches Action::Mount(n) && n@ == new@
                &&& final(self).current_tree() is None
                &&& final(self).target_tree() == Some(new@)
                &&& final(self).pending().len() == 0
                &&& final(self).in_flight() == 0
            },
            old(self).current_tree() matches Some(c) ==> {
                let ps = diff_spec(c, new@);
                if ps.len() == 0 {
                    &&& r is Finished
                    &&& final(self).idle()
                    &&& final(self).current_tree() == Some(new@)
                } else {
                    &&& r matches Action::Apply(p) && p@ == ps[0]
                    &&& final(self).current_tree() == old(self).current_tree()
                    &&& final(self).target_tree() == Some(new@)
                    &&& final(self).pending() == ps
                    &&& final(self).in_flight() == 0
                }
            },
    {
        match &self.current {
            None => {
                let mounted = new.deep_clone();
                self.target = Some(new);
                self.patches = Vec::new();
                self.next = 0;
                proof {
                    assert(edits_of(self.patches@) =~= Seq::<Edit>::empty());
                }
                Action::Mount(mounted)
            },
            Some(cur) => {
                let ps = diff(cur, &new);
                if ps.len() == 0 {
                    self.current = Some(new);
                    Action::Finished
                } else {
                    let first = ps[0].clone_patch();
                    self.target = Some(new);
                    self.patches = ps;
                    self.next = 0;
                    Action::Apply(first)
                }
            },
        }
    }

    /// Takes the renderer's outcome for the action in flight. A failure ends
    /// the cycle at once and leaves the current tree as it was; after the last
    /// success the target becomes current.
    pub fn step(&mut self, outcome: Outcome) -> (r: Action)
        requires
            old(self).wf(),
            !old(self).idle(),
        ensures
            final(self).wf(),
            outcome matches Outcome::Failed(e) ==> {
                &&& r == Action::Aborted(e)
                &&& final(self).idle()
                &&& final(self).current_tree() == old(self).current_tree()
            },
            outcome is Succeeded ==> if old(self).in_flight() + 1 < old(self).pending().len() {
                &&& r matches Action::Apply(p) && p@ == old(self).pending()[old(self).in_flight() + 1]
                &&& final(self).current_tree() == old(self).current_tree()
                &&& final(self).target_tree() == old(self).target_tree()
                &&& final(self).pending() == old(self).pending()
                &&& final(self).in_flight() == old(self).in_flight() + 1
            } else {
                &&& r is Finished
                &&& final(self).idle()
                &&& final(self).current_tree() == old(self).target_tree()
            },
    {
        match outcome {
            Outcome::Failed(e) => {
                self.target = None;
                self.patches = Vec::new();
                self.next = 0;
                Action::Aborted(e)
            },
            Outcome::Succeeded => {
                if self.patches.len() > 0 && self.next < self.patches.len() - 1 {
                    self.next = self.next + 1;
                    Action::Apply(self.patches[self.next].clone_patch())
                } else {
                    self.current = self.target.take();
                    self.patches = Vec::new();
                    self.next = 0;
                    Action::Finished
                }
            },
        }
    }
}

/// A cycle in progress is either a mount, made only when nothing is rendered,
/// or hands out exactly the patches that turn a fresh rendering of the current
/// tree into a fresh rendering of the target.
pub proof fn lemma_cycle_reaches_target(r: &Reconciler)
    requires
        r.wf(),
        !r.idle(),
    ensures
        r.pending().len() == 0 ==> r.current_tree() is None,
        r.pending().len() > 0 ==> (r.current_tree() matches Some(c) && r.pending() == diff_spec(
            c,
            r.target_tree()->0,
        ) && apply_edits(render(c), r.pending()) == Some(render(r.target_tree()->0))),
{
    if r.pending().len() > 0 {
        lemma_round_trip(r.current_tree()->0, r.target_tree()->0);
    }
}

} // verus!
