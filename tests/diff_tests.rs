use vdom::diff::diff;
use vdom::patch::Patch;
use vdom::tree::{key_less, VNode};

fn s(x: &str) -> String {
    x.to_string()
}

fn text(x: &str) -> VNode {
    VNode::text(s(x))
}

fn el(tag: &str, attrs: &[(&str, &str)], children: Vec<VNode>) -> VNode {
    let a = attrs.iter().map(|(k, v)| (s(k), s(v))).collect();
    VNode::element(s(tag), a, children)
}

/// Applies one patch to a plain tree, following its path from the root.
fn apply(root: &mut VNode, patch: &Patch) {
    let path = match patch {
        Patch::Replace { path, .. }
        | Patch::SetAttribute { path, .. }
        | Patch::RemoveAttribute { path, .. }
        | Patch::SetText { path, .. }
        | Patch::AppendChildren { path, .. }
        | Patch::RemoveTrailingChildren { path, .. } => path.clone(),
    };
    let mut node = root;
    for i in path {
        node = match node {
            VNode::Element { children, .. } => &mut children[i],
            VNode::Text { .. } => panic!("path runs through a text node"),
        };
    }
    match patch {
        Patch::Replace { node: n, .. } => *node = n.deep_clone(),
        Patch::SetText { content, .. } => *node = VNode::text(content.clone()),
        Patch::SetAttribute { key, value, .. } => {
            if let VNode::Element { attrs, .. } = node {
                match attrs.iter_mut().find(|(k, _)| k == key) {
                    Some(entry) => entry.1 = value.clone(),
                    None => attrs.push((key.clone(), value.clone())),
                }
            }
        }
        Patch::RemoveAttribute { key, .. } => {
            if let VNode::Element { attrs, .. } = node {
                attrs.retain(|(k, _)| k != key);
            }
        }
        Patch::AppendChildren { nodes, .. } => {
            if let VNode::Element { children, .. } = node {
                for n in nodes {
                    children.push(n.deep_clone());
                }
            }
        }
        Patch::RemoveTrailingChildren { count, .. } => {
            if let VNode::Element { children, .. } = node {
                let keep = children.len() - count;
                children.truncate(keep);
            }
        }
    }
}

fn sorted_attrs(n: &VNode) -> VNode {
    match n {
        VNode::Element { tag, attrs, children } => {
            let mut a: Vec<(String, String)> = attrs.iter().map(|(k, v)| (k.clone(), v.clone())).collect();
            a.sort();
            VNode::element(tag.clone(), a, children.iter().map(sorted_attrs).collect())
        }
        VNode::Text { content } => VNode::text(content.clone()),
    }
}

#[test]
fn identical_trees_need_no_patch() {
    let t = el(
        "div",
        &[("class", "a"), ("id", "x")],
        vec![text("hi"), el("span", &[], vec![text("deep")])],
    );
    assert!(diff(&t, &t.deep_clone()).is_empty());
}

#[test]
fn tag_mismatch_replaces_root() {
    let old = el("div", &[], vec![text("a"), text("b")]);
    let new = el("span", &[], vec![text("c")]);
    let ps = diff(&old, &new);
    assert_eq!(ps, vec![Patch::Replace { path: vec![], node: new.deep_clone() }]);
}

#[test]
fn attributes_added_and_changed() {
    let old = el("div", &[("class", "a")], vec![]);
    let new = el("div", &[("class", "b"), ("id", "x")], vec![]);
    let ps = diff(&old, &new);
    assert_eq!(
        ps,
        vec![
            Patch::SetAttribute { path: vec![], key: s("class"), value: s("b") },
            Patch::SetAttribute { path: vec![], key: s("id"), value: s("x") },
        ]
    );
}

#[test]
fn attribute_removed() {
    let old = el("div", &[("class", "a"), ("id", "x")], vec![]);
    let new = el("div", &[("class", "a")], vec![]);
    let ps = diff(&old, &new);
    assert_eq!(ps, vec![Patch::RemoveAttribute { path: vec![], key: s("id") }]);
}

#[test]
fn child_growth_appends_one_batch() {
    let old = el("ul", &[], vec![text("1"), text("2")]);
    let new = el("ul", &[], vec![text("1"), text("2"), text("3"), text("4")]);
    let ps = diff(&old, &new);
    assert_eq!(ps, vec![Patch::AppendChildren { path: vec![], nodes: vec![text("3"), text("4")] }]);
}

#[test]
fn child_shrink_removes_trailing() {
    let old = el("ul", &[], vec![text("1"), text("2"), text("3"), text("4")]);
    let new = el("ul", &[], vec![text("1")]);
    let ps = diff(&old, &new);
    assert_eq!(ps, vec![Patch::RemoveTrailingChildren { path: vec![], count: 3 }]);
}

#[test]
fn text_change_sets_text() {
    let old = el("div", &[], vec![text("hi")]);
    let new = el("div", &[], vec![text("bye")]);
    let ps = diff(&old, &new);
    assert_eq!(ps, vec![Patch::SetText { path: vec![0], content: s("bye") }]);
}

#[test]
fn text_against_element_replaces() {
    let old = el("div", &[], vec![text("hi")]);
    let new = el("div", &[], vec![el("b", &[], vec![text("hi")])]);
    let ps = diff(&old, &new);
    assert_eq!(ps, vec![Patch::Replace { path: vec![0], node: el("b", &[], vec![text("hi")]) }]);
}

#[test]
fn nested_patches_carry_full_paths() {
    let old = el("div", &[], vec![text("a"), el("p", &[("k", "1")], vec![text("x"), text("y")])]);
    let new = el("div", &[], vec![text("a"), el("p", &[("k", "2")], vec![text("x"), text("z")])]);
    let ps = diff(&old, &new);
    assert_eq!(
        ps,
        vec![
            Patch::SetAttribute { path: vec![1], key: s("k"), value: s("2") },
            Patch::SetText { path: vec![1, 1], content: s("z") },
        ]
    );
}

#[test]
fn attribute_patches_come_before_child_patches() {
    let old = el("div", &[("a", "1"), ("b", "2")], vec![text("x")]);
    let new = el("div", &[("a", "9")], vec![text("y"), text("z")]);
    let ps = diff(&old, &new);
    assert_eq!(
        ps,
        vec![
            Patch::SetAttribute { path: vec![], key: s("a"), value: s("9") },
            Patch::RemoveAttribute { path: vec![], key: s("b") },
            Patch::SetText { path: vec![0], content: s("y") },
            Patch::AppendChildren { path: vec![], nodes: vec![text("z")] },
        ]
    );
}

#[test]
fn applying_the_diff_yields_the_new_tree() {
    let old = el(
        "div",
        &[("class", "a"), ("id", "x")],
        vec![text("one"), el("ul", &[], vec![text("1"), text("2"), text("3")]), text("tail")],
    );
    let new = el(
        "div",
        &[("class", "b"), ("title", "t")],
        vec![text("uno"), el("ul", &[("k", "v")], vec![text("1")]), el("em", &[], vec![]), text("more")],
    );
    let mut live = old.deep_clone();
    for p in diff(&old, &new) {
        apply(&mut live, &p);
    }
    assert_eq!(sorted_attrs(&live), sorted_attrs(&new));
}

#[test]
fn deep_clone_copies_everything() {
    let t = el("div", &[("a", "b")], vec![text("x"), el("i", &[], vec![])]);
    assert_eq!(t.deep_clone(), t);
}

#[test]
fn duplicate_keys_are_not_well_formed() {
    let good = el("div", &[("a", "1"), ("b", "2")], vec![el("p", &[("c", "3")], vec![text("x")])]);
    assert!(good.is_well_formed());
    let bad_here = el("div", &[("a", "1"), ("a", "2")], vec![]);
    assert!(!bad_here.is_well_formed());
    let bad_below = el("div", &[], vec![text("x"), el("p", &[("c", "3"), ("d", "4"), ("c", "5")], vec![])]);
    assert!(!bad_below.is_well_formed());
    assert!(text("t").is_well_formed());
}

#[test]
fn ascending_keys_compares_every_pair() {
    assert!(vdom::tree::ascending_keys(&vec![]));
    assert!(vdom::tree::ascending_keys(&vec![(s("a"), s("1")), (s("b"), s("1"))]));
    assert!(!vdom::tree::ascending_keys(&vec![(s("b"), s("2")), (s("a"), s("1"))]));
    assert!(!vdom::tree::ascending_keys(&vec![(s("a"), s("1")), (s("b"), s("2")), (s("a"), s("3"))]));
}

#[test]
fn key_order_is_lexicographic_by_character() {
    assert!(key_less(&s("a"), &s("b")));
    assert!(key_less(&s("a"), &s("ab")));
    assert!(key_less(&s(""), &s("a")));
    assert!(key_less(&s("Z"), &s("a")));
    assert!(key_less(&s("z"), &s("\u{e9}")));
    assert!(!key_less(&s("b"), &s("a")));
    assert!(!key_less(&s("a"), &s("a")));
    assert!(!key_less(&s("ab"), &s("a")));
}

#[test]
fn unsorted_attributes_are_not_well_formed() {
    let sorted = el("div", &[("a", "1"), ("b", "2")], vec![]);
    let unsorted = el("div", &[("b", "2"), ("a", "1")], vec![]);
    assert!(sorted.is_well_formed());
    assert!(!unsorted.is_well_formed());
}

#[test]
fn attribute_patches_follow_key_order() {
    let old = el("div", &[("b", "1"), ("d", "1"), ("f", "1")], vec![]);
    let new = el("div", &[("a", "2"), ("c", "2"), ("f", "2")], vec![]);
    let ps = diff(&old, &new);
    assert_eq!(
        ps,
        vec![
            Patch::SetAttribute { path: vec![], key: s("a"), value: s("2") },
            Patch::SetAttribute { path: vec![], key: s("c"), value: s("2") },
            Patch::SetAttribute { path: vec![], key: s("f"), value: s("2") },
            Patch::RemoveAttribute { path: vec![], key: s("b") },
            Patch::RemoveAttribute { path: vec![], key: s("d") },
        ]
    );
}

#[test]
fn root_text_change_and_equal_text() {
    assert_eq!(diff(&text("a"), &text("b")), vec![Patch::SetText { path: vec![], content: s("b") }]);
    assert!(diff(&text("a"), &text("a")).is_empty());
    assert_eq!(
        diff(&text("a"), &el("div", &[], vec![])),
        vec![Patch::Replace { path: vec![], node: el("div", &[], vec![]) }]
    );
}

#[test]
fn clone_patch_copies_patch() {
    let p = Patch::AppendChildren { path: vec![2, 0], nodes: vec![text("n")] };
    assert_eq!(p.clone_patch(), p);
}
