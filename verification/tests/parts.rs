use xilem_html::MessageResult;
use xilem_html::{
    apply_attribute_changes, dispatch, AppDriver, AttributeTable, ChangeFlags, Cx, DriverCtx, Id,
    Mutation, NodeId, Pod, VecSplice,
};

fn text(s: &str) -> String {
    s.to_string()
}

fn splice_of(v: &mut Vec<u32>, scratch: &mut Vec<u32>) -> VecSplice<u32> {
    VecSplice::new(v, scratch)
}

struct Recorder {
    seen: Vec<(NodeId, u32)>,
}

impl AppDriver<u32> for Recorder {
    fn told(&self, before: &Self, widget_id: NodeId, action: u32) -> bool {
        self.seen.len() == before.seen.len() + 1
            && self.seen[..before.seen.len()] == before.seen[..]
            && self.seen.last() == Some(&(widget_id, action))
    }

    fn on_action(&mut self, ctx: &mut DriverCtx<'_>, widget_id: NodeId, action: u32) {
        self.seen.push((widget_id, action));
        ctx.get_root().node = widget_id;
    }
}

#[test]
fn flags_combine_as_sets_of_bits() {
    let none = ChangeFlags::empty();
    let shape = ChangeFlags::structure();
    let other = ChangeFlags::other_change();
    assert_eq!(none.bits(), 0);
    assert_eq!(shape.bits(), 1);
    assert_eq!(other.bits(), 2);
    assert_eq!(shape.union(other).bits(), 3);
    assert_eq!(shape.union(other), other.union(shape));
    assert_eq!(shape.union(none), shape);
    assert_eq!(shape.union(shape), shape);
    assert!(none.is_empty());
    assert!(!shape.is_empty());
    assert!(shape.union(other).contains(shape));
    assert!(shape.union(other).contains(other));
    assert!(!shape.contains(other));
    assert!(shape.contains(none));
    let mut both = shape.union(other);
    both.remove(shape);
    assert_eq!(both, other);
    both.remove(shape);
    assert_eq!(both, other);
    both.remove(other);
    assert!(both.is_empty());
}

#[test]
fn a_session_mints_identities_and_handles_in_order() {
    let mut cx = Cx::new();
    assert_eq!(cx.room(), u64::MAX);
    assert!(!cx.debug_ids());
    assert_eq!(cx.push_new_id(), Id(0));
    assert_eq!(cx.push_new_id(), Id(1));
    assert_eq!(cx.id_path(), &vec![Id(0), Id(1)]);
    cx.push_id(Id(9));
    assert_eq!(cx.id_path(), &vec![Id(0), Id(1), Id(9)]);
    cx.pop_id();
    cx.pop_id();
    assert_eq!(cx.id_path(), &vec![Id(0)]);
    cx.pop_id();
    cx.pop_id();
    assert!(cx.id_path().is_empty());
    assert_eq!(cx.build_text("t"), Pod { node: NodeId(0) });
    assert_eq!(cx.build_element("ns", "b"), Pod { node: NodeId(1) });
    assert_eq!(cx.room(), u64::MAX - 2);
    cx.push_id(Id(5));
    cx.listen(NodeId(1), "click");
    cx.append_children(NodeId(1), &vec![Pod::new(NodeId(0))]);
    cx.emit(Mutation::ClearChildren { node: NodeId(1) });
    assert_eq!(
        cx.take_mutations(),
        vec![
            Mutation::CreateText { node: NodeId(0), content: text("t") },
            Mutation::CreateElement { node: NodeId(1), namespace: text("ns"), name: text("b") },
            Mutation::Listen { node: NodeId(1), event: text("click"), id_path: vec![Id(5)] },
            Mutation::AppendChild { parent: NodeId(1), child: NodeId(0) },
            Mutation::ClearChildren { node: NodeId(1) },
        ]
    );
    assert!(cx.take_mutations().is_empty());
    assert_eq!(Id(4).to_raw(), 4);
}

#[test]
fn a_splice_keeps_what_is_skipped_and_drops_what_is_deleted() {
    let mut v = vec![1, 2, 3, 4, 5];
    let mut scratch = Vec::new();
    let mut splice = splice_of(&mut v, &mut scratch);
    assert!(v.is_empty());
    assert_eq!(splice.len(), 0);
    splice.skip(1);
    splice.delete(2);
    splice.push(9);
    *splice.mutate() += 10;
    assert_eq!(splice.len(), 3);
    splice.skip(1);
    splice.finish(&mut v, &mut scratch);
    assert_eq!(v, vec![1, 9, 14, 5]);
    assert!(scratch.is_empty());
}

#[test]
fn a_splice_that_ends_early_hands_the_rest_back() {
    let mut v = vec![1, 2, 3];
    let mut scratch = Vec::new();
    let mut splice = splice_of(&mut v, &mut scratch);
    splice.skip(1);
    splice.finish(&mut v, &mut scratch);
    assert_eq!(v, vec![1, 2, 3]);
    assert!(scratch.is_empty());
    let mut splice = splice_of(&mut v, &mut scratch);
    splice.push(0);
    splice.finish(&mut v, &mut scratch);
    assert_eq!(v, vec![0]);
    assert_eq!(scratch, vec![3, 2, 1]);
    let mut splice = splice_of(&mut v, &mut scratch);
    splice.skip(2);
    let mut more = vec![7, 8];
    splice.append(&mut more);
    assert!(more.is_empty());
    assert_eq!(splice.len(), 4);
    splice.skip(2);
    splice.finish(&mut v, &mut scratch);
    assert_eq!(v, vec![0, 1, 7, 8, 2, 3]);
    assert!(scratch.is_empty());
}

#[test]
fn a_table_holds_each_name_once() {
    let mut table = AttributeTable::new();
    assert_eq!(table.len(), 0);
    table.insert(text("a"), text("1"));
    table.insert(text("b"), text("2"));
    table.insert(text("a"), text("3"));
    assert_eq!(table.len(), 2);
    assert_eq!(table.name_at(0), "a");
    assert_eq!(table.value_at(0), "3");
    assert_eq!(table.position(&text("b")), Some(1));
    assert_eq!(table.position(&text("c")), None);
    assert_eq!(table.get(&text("b")), Some(&text("2")));
    let declared = vec![(text("x"), text("1")), (text("y"), text("2")), (text("x"), text("3"))];
    let table = AttributeTable::from_declared(&declared);
    assert_eq!(table.len(), 2);
    assert_eq!(table.value_at(0), "3");
    assert_eq!(table.name_at(1), "y");
}

#[test]
fn attribute_changes_come_as_removals_then_settings() {
    let mut cx = Cx::new();
    let mut table = AttributeTable::from_declared(&vec![
        (text("a"), text("1")),
        (text("b"), text("2")),
        (text("c"), text("3")),
    ]);
    let declared = vec![(text("c"), text("3")), (text("b"), text("9")), (text("d"), text("4"))];
    let flags = apply_attribute_changes(&mut cx, NodeId(5), &mut table, &declared);
    assert_eq!(flags, ChangeFlags::other_change());
    assert_eq!(table.len(), 3);
    assert_eq!(table.name_at(0), "c");
    assert_eq!(table.name_at(1), "b");
    assert_eq!(table.name_at(2), "d");
    assert_eq!(
        cx.take_mutations(),
        vec![
            Mutation::RemoveAttribute { node: NodeId(5), name: text("a") },
            Mutation::SetAttribute { node: NodeId(5), name: text("b"), value: text("9") },
            Mutation::SetAttribute { node: NodeId(5), name: text("d"), value: text("4") },
        ]
    );
    let again = apply_attribute_changes(&mut cx, NodeId(5), &mut table, &declared);
    assert!(again.is_empty());
    assert!(cx.take_mutations().is_empty());
}

#[test]
fn only_an_action_reaches_the_driver() {
    let mut root = Pod::new(NodeId(0));
    let mut driver = Recorder { seen: Vec::new() };
    {
        let mut ctx = DriverCtx { main_root_widget: &mut root };
        assert!(!dispatch(&mut driver, &mut ctx, NodeId(3), MessageResult::Stale));
        assert!(!dispatch(&mut driver, &mut ctx, NodeId(3), MessageResult::Nop));
        assert!(dispatch(&mut driver, &mut ctx, NodeId(3), MessageResult::RequestRebuild));
        assert!(driver.seen.is_empty());
        assert_eq!(*ctx.get_root(), Pod::new(NodeId(0)));
        assert!(dispatch(&mut driver, &mut ctx, NodeId(3), MessageResult::Action(11)));
        let before = Recorder { seen: driver.seen.clone() };
        assert!(dispatch(&mut driver, &mut ctx, NodeId(4), MessageResult::Action(12)));
        assert!(driver.told(&before, NodeId(4), 12));
        assert!(!driver.told(&before, NodeId(4), 13));
    }
    assert_eq!(driver.seen, vec![(NodeId(3), 11), (NodeId(4), 12)]);
    assert_eq!(root, Pod::new(NodeId(4)));
}
