use vdom::reconciler::{Action, Outcome, ReconcileError, Reconciler};
use vdom::tree::VNode;

fn s(x: &str) -> String {
    x.to_string()
}

fn text(x: &str) -> VNode {
    VNode::text(s(x))
}

fn el(tag: &str, attrs: &[(&str, &str)], children: Vec<VNode>) -> VNode {
    let a = attrs.iter().map(|(k, v)| (s(k), s(v))).collect();
    VNode::element(s(tag), a, children)
}

fn mounted(tree: &VNode) -> Reconciler {
    let mut r = Reconciler::new();
    match r.begin(tree.deep_clone()) {
        Action::Mount(n) => assert_eq!(&n, tree),
        other => panic!("expected a mount, got {:?}", other),
    }
    assert!(matches!(r.step(Outcome::Succeeded), Action::Finished));
    r
}

#[test]
fn first_update_mounts_whole_tree() {
    let tree = el("div", &[("id", "app")], vec![text("a"), el("p", &[], vec![text("b")])]);
    let mut r = Reconciler::new();
    assert!(r.current().is_none());
    let action = r.begin(tree.deep_clone());
    match action {
        Action::Mount(n) => assert_eq!(n, tree),
        other => panic!("expected a mount, got {:?}", other),
    }
    assert!(r.current().is_none());
    assert!(!r.is_idle());
    assert!(matches!(r.step(Outcome::Succeeded), Action::Finished));
    assert!(r.is_idle());
    assert_eq!(r.current(), Some(&tree));
}

#[test]
fn failed_mount_keeps_nothing() {
    let mut r = Reconciler::new();
    let _ = r.begin(text("x"));
    match r.step(Outcome::Failed(ReconcileError::RenderCreate)) {
        Action::Aborted(e) => assert_eq!(e, ReconcileError::RenderCreate),
        other => panic!("expected an abort, got {:?}", other),
    }
    assert!(r.current().is_none());
    assert!(r.is_idle());
}

#[test]
fn unchanged_tree_finishes_at_once() {
    let tree = el("div", &[], vec![text("a")]);
    let mut r = mounted(&tree);
    assert!(matches!(r.begin(tree.deep_clone()), Action::Finished));
    assert!(r.is_idle());
    assert_eq!(r.current(), Some(&tree));
}

fn five_patch_pair() -> (VNode, VNode) {
    let old = el("div", &[("class", "a")], vec![text("a"), text("b")]);
    let new = el("div", &[("class", "b"), ("id", "x")], vec![text("c"), text("d"), text("e")]);
    (old, new)
}

#[test]
fn every_patch_is_handed_out_in_order() {
    let (old, new) = five_patch_pair();
    let expected = vdom::diff::diff(&old, &new);
    assert_eq!(expected.len(), 5);
    let mut r = mounted(&old);
    let mut seen = Vec::new();
    let mut action = r.begin(new.deep_clone());
    loop {
        match action {
            Action::Apply(p) => seen.push(p),
            Action::Finished => break,
            other => panic!("unexpected {:?}", other),
        }
        action = r.step(Outcome::Succeeded);
    }
    assert_eq!(seen, expected);
    assert_eq!(r.current(), Some(&new));
}

#[test]
fn failure_on_third_patch_aborts() {
    let (old, new) = five_patch_pair();
    let mut r = mounted(&old);
    assert!(matches!(r.begin(new.deep_clone()), Action::Apply(_)));
    assert!(matches!(r.step(Outcome::Succeeded), Action::Apply(_)));
    assert!(matches!(r.step(Outcome::Succeeded), Action::Apply(_)));
    match r.step(Outcome::Failed(ReconcileError::RenderMutation)) {
        Action::Aborted(e) => assert_eq!(e, ReconcileError::RenderMutation),
        other => panic!("expected an abort, got {:?}", other),
    }
    assert!(r.is_idle());
    assert_eq!(r.current(), Some(&old));
}

#[test]
fn reset_forces_a_remount() {
    let tree = el("div", &[], vec![]);
    let mut r = mounted(&tree);
    r.reset();
    assert!(r.current().is_none());
    assert!(matches!(r.begin(tree.deep_clone()), Action::Mount(_)));
}
