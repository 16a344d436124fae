use std::collections::HashMap;

use xilem_html::{custom_element, div, ChangeFlags, Cx, CustomElement, Mutation, NodeId, Pod, ViewNode};

/// A document as a backend would keep it, as far as these tests look at it.
struct Document {
    children: HashMap<u64, Vec<u64>>,
    parent: HashMap<u64, u64>,
    text: HashMap<u64, String>,
    attributes: HashMap<u64, Vec<(String, String)>>,
}

impl Document {
    fn new() -> Self {
        Document {
            children: HashMap::new(),
            parent: HashMap::new(),
            text: HashMap::new(),
            attributes: HashMap::new(),
        }
    }

    fn detach(&mut self, node: u64) {
        if let Some(parent) = self.parent.remove(&node) {
            self.children.get_mut(&parent).unwrap().retain(|child| *child != node);
        }
    }

    fn apply(&mut self, mutation: Mutation) {
        match mutation {
            Mutation::CreateElement { node, .. } => {
                self.children.insert(node.0, Vec::new());
                self.attributes.insert(node.0, Vec::new());
            }
            Mutation::CreateText { node, content } | Mutation::SetText { node, content } => {
                self.text.insert(node.0, content);
            }
            Mutation::SetAttribute { node, name, value } => {
                let held = self.attributes.get_mut(&node.0).unwrap();
                match held.iter_mut().find(|(key, _)| *key == name) {
                    Some(entry) => entry.1 = value,
                    None => held.push((name, value)),
                }
            }
            Mutation::RemoveAttribute { node, name } => {
                self.attributes.get_mut(&node.0).unwrap().retain(|(key, _)| *key != name);
            }
            Mutation::AppendChild { parent, child } => {
                self.detach(child.0);
                self.children.get_mut(&parent.0).unwrap().push(child.0);
                self.parent.insert(child.0, parent.0);
            }
            Mutation::ClearChildren { node } => {
                for child in self.children.insert(node.0, Vec::new()).unwrap() {
                    self.parent.remove(&child);
                }
            }
            Mutation::RemoveFromParent { node } => {
                assert!(self.parent.contains_key(&node.0));
                self.detach(node.0);
            }
            Mutation::SetDebugId { .. } | Mutation::Listen { .. } => {}
        }
    }

    fn apply_all(&mut self, cx: &mut Cx) {
        for mutation in cx.take_mutations() {
            self.apply(mutation);
        }
    }

    fn children_of(&self, pod: Pod) -> Vec<Pod> {
        self.children[&pod.node.0].iter().map(|node| Pod::new(NodeId(*node))).collect()
    }

    fn texts_of(&self, pod: Pod) -> Vec<String> {
        self.children[&pod.node.0].iter().map(|node| self.text[node].clone()).collect()
    }
}

fn list(items: &[&str]) -> CustomElement<(), u32, Vec<String>> {
    custom_element("ul", items.iter().map(|s| s.to_string()).collect())
}

#[test]
fn the_document_holds_the_children_in_the_order_of_the_state() {
    let mut cx = Cx::new();
    let mut document = Document::new();
    let first = list(&["a", "b", "c"]);
    let (mut id, mut state, mut element) = first.build(&mut cx);
    document.apply_all(&mut cx);
    assert_eq!(document.children_of(element), state.child_elements);
    assert_eq!(document.texts_of(element), vec!["a", "b", "c"]);

    let second = list(&["a", "x", "c"]);
    let _ = second.rebuild(&mut cx, &first, &mut id, &mut state, &mut element);
    document.apply_all(&mut cx);
    assert_eq!(document.children_of(element), state.child_elements);
    assert_eq!(document.texts_of(element), vec!["a", "x", "c"]);

    let third = list(&["a", "x", "c", "d", "e"]);
    let _ = third.rebuild(&mut cx, &second, &mut id, &mut state, &mut element);
    document.apply_all(&mut cx);
    assert_eq!(document.children_of(element), state.child_elements);
    assert_eq!(document.texts_of(element), vec!["a", "x", "c", "d", "e"]);

    let fourth = list(&["e"]);
    let _ = fourth.rebuild(&mut cx, &third, &mut id, &mut state, &mut element);
    document.apply_all(&mut cx);
    assert_eq!(document.children_of(element), state.child_elements);
    assert_eq!(document.texts_of(element), vec!["e"]);
    assert_eq!(state.child_elements, vec![Pod::new(NodeId(1))]);
}

#[test]
fn the_document_holds_the_attributes_of_the_state() {
    let mut cx = Cx::new();
    let mut document = Document::new();
    let first = div::<(), u32, ()>(()).attr("class", "x").attr("title", "t");
    let (mut id, mut state, mut element) = first.build(&mut cx);
    document.apply_all(&mut cx);
    let second = div::<(), u32, ()>(()).attr("class", "y").attr("id", "z");
    let flags = second.rebuild(&mut cx, &first, &mut id, &mut state, &mut element);
    assert_eq!(flags, ChangeFlags::other_change());
    document.apply_all(&mut cx);
    let mut held = document.attributes[&element.node.0].clone();
    held.sort();
    assert_eq!(
        held,
        vec![("class".to_string(), "y".to_string()), ("id".to_string(), "z".to_string())]
    );
    assert_eq!(state.attributes.len(), 2);
}

#[test]
fn a_new_tag_moves_the_children_to_the_new_live_node() {
    let mut cx = Cx::new();
    let mut document = Document::new();
    let page = Pod::new(NodeId(u64::MAX));
    document.children.insert(page.node.0, Vec::new());
    let first = list(&["a", "b"]);
    let (mut id, mut state, mut element) = first.build(&mut cx);
    document.apply_all(&mut cx);
    document.apply(Mutation::AppendChild { parent: page.node, child: element.node });
    let old = element;
    let second: CustomElement<(), u32, Vec<String>> =
        custom_element("ol", vec!["a".to_string(), "b".to_string()]);
    let flags = second.rebuild(&mut cx, &first, &mut id, &mut state, &mut element);
    assert!(flags.is_empty());
    document.apply_all(&mut cx);
    assert_ne!(element, old);
    assert_eq!(document.children_of(element), state.child_elements);
    assert_eq!(document.texts_of(element), vec!["a", "b"]);
    assert!(document.children_of(old).is_empty());
    assert!(document.children_of(page).is_empty());
}
