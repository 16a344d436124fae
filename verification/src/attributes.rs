use vstd::prelude::*;
use crate::change_flags::ChangeFlags;
use crate::context::Cx;
use crate::id::NodeId;
use crate::mutation::{Mutation, MutationView};

verus! {

/// Attributes as contracts see them: names with their values, in order.
pub type AttrSeq = Seq<(Seq<char>, Seq<char>)>;

/// The attributes of `entries` with their strings as sequences of characters.
pub open spec fn attr_view(entries: Seq<(String, String)>) -> AttrSeq {
    entries.map_values(|e: (String, String)| (e.0@, e.1@))
}

/// The first place in `table` that holds the name `key`, if one does.
pub open spec fn find(table: AttrSeq, key: Seq<char>) -> Option<int>
    decreases table.len(),
{
    if table.len() == 0 {
        None
    } else {
        match find(table.drop_last(), key) {
            Some(i) => Some(i),
            None => if table.last().0 == key {
                Some(table.len() - 1)
            } else {
                None
            },
        }
    }
}

/// The value that `table` gives the name `key`, if it holds that name.
pub open spec fn lookup(table: AttrSeq, key: Seq<char>) -> Option<Seq<char>> {
    match find(table, key) {
        Some(i) => Some(table[i].1),
        None => None,
    }
}

/// No name occurs twice in `table`.
pub open spec fn unique_keys(table: AttrSeq) -> bool {
    forall|i: int, j: int| 0 <= i < j < table.len() ==> table[i].0 != table[j].0
}

/// `table` with the name `key` set to `value`: in the place where the name
/// stood, or at the end where it did not stand yet.
pub open spec fn put(table: AttrSeq, key: Seq<char>, value: Seq<char>) -> AttrSeq {
    match find(table, key) {
        Some(i) => table.update(i, (key, value)),
        None => table.push((key, value)),
    }
}

/// The table that `declared` describes: each name once, in the order in which
/// the names first occur, each with the value that was declared for it last.
pub open spec fn normalize(declared: AttrSeq) -> AttrSeq
    decreases declared.len(),
{
    if declared.len() == 0 {
        Seq::empty()
    } else {
        put(normalize(declared.drop_last()), declared.last().0, declared.last().1)
    }
}

/// `RemoveAttribute` on `node` for each name of `old` that `new` does not
/// hold, in the order of `old`.
pub open spec fn removals(node: NodeId, old: AttrSeq, new: AttrSeq) -> Seq<MutationView>
    decreases old.len(),
{
    if old.len() == 0 {
        Seq::empty()
    } else {
        let rest = removals(node, old.drop_last(), new);
        if find(new, old.last().0) is None {
            rest.push(MutationView::RemoveAttribute { node, name: old.last().0 })
        } else {
            rest
        }
    }
}

/// `SetAttribute` on `node` for each name of `new` that `old` does not hold
/// with the same value, in the order of `new`.
pub open spec fn updates(node: NodeId, old: AttrSeq, new: AttrSeq) -> Seq<MutationView>
    decreases new.len(),
{
    if new.len() == 0 {
        Seq::empty()
    } else {
        let rest = updates(node, old, new.drop_last());
        if lookup(old, new.last().0) != Some(new.last().1) {
            rest.push(
                MutationView::SetAttribute { node, name: new.last().0, value: new.last().1 },
            )
        } else {
            rest
        }
    }
}

/// The mutations that take the attributes of `node` from `old` to `new`:
/// first the removals, then the additions and changes.
pub open spec fn diff(node: NodeId, old: AttrSeq, new: AttrSeq) -> Seq<MutationView> {
    removals(node, old, new) + updates(node, old, new)
}

/// The flags that a rebuild reports for the mutations `changes` to one node's
/// attributes.
pub open spec fn diff_flags(changes: Seq<MutationView>) -> ChangeFlags {
    if changes.len() == 0 {
        ChangeFlags::empty()
    } else {
        ChangeFlags::other_change()
    }
}

/// `find` gives the first place that holds the name, and none where no place
/// holds it.
pub proof fn lemma_find(table: AttrSeq, key: Seq<char>)
    ensures
        match find(table, key) {
            Some(i) => 0 <= i < table.len() && table[i].0 == key && forall|j: int|
                0 <= j < i ==> table[j].0 != key,
            None => forall|j: int| 0 <= j < table.len() ==> table[j].0 != key,
        },
    decreases table.len(),
{
    if table.len() > 0 {
        let front = table.drop_last();
        lemma_find(front, key);
        assert forall|j: int| 0 <= j < front.len() implies front[j] == table[j] by {}
        match find(front, key) {
            Some(i) => {
                assert(front[i] == table[i]);
                assert forall|j: int| 0 <= j < i implies table[j].0 != key by {
                    assert(front[j] == table[j]);
                }
            },
            None => {
                assert forall|j: int| 0 <= j < front.len() implies table[j].0 != key by {
                    assert(front[j] == table[j]);
                }
                if table.last().0 != key {
                    assert forall|j: int| 0 <= j < table.len() implies table[j].0 != key by {
                        if j < front.len() {
                            assert(front[j] == table[j]);
                        }
                    }
                }
            },
        }
    }
}

/// A place that holds the name, with no earlier place that holds it, is the
/// place that `find` gives.
pub proof fn lemma_find_is(table: AttrSeq, key: Seq<char>, i: int)
    requires
        0 <= i < table.len(),
        table[i].0 == key,
        forall|j: int| 0 <= j < i ==> table[j].0 != key,
    ensures
        find(table, key) == Some(i),
{
    lemma_find(table, key);
}

/// Setting a name keeps every name single.
pub proof fn lemma_put_unique(table: AttrSeq, key: Seq<char>, value: Seq<char>)
    requires
        unique_keys(table),
    ensures
        unique_keys(put(table, key, value)),
        lookup(put(table, key, value), key) == Some(value),
{
    lemma_find(table, key);
    let after = put(table, key, value);
    match find(table, key) {
        Some(i) => {
            lemma_find_is(after, key, i);
        },
        None => {
            lemma_find_is(after, key, table.len() as int);
        },
    }
}

/// In the table that a declaration describes no name occurs twice.
pub proof fn lemma_normalize_unique(declared: AttrSeq)
    ensures
        unique_keys(normalize(declared)),
    decreases declared.len(),
{
    if declared.len() > 0 {
        lemma_normalize_unique(declared.drop_last());
        lemma_put_unique(normalize(declared.drop_last()), declared.last().0, declared.last().1);
    }
}

/// Each name of a table without repeats is found where it stands.
pub proof fn lemma_unique_find(table: AttrSeq, i: int)
    requires
        unique_keys(table),
        0 <= i < table.len(),
    ensures
        find(table, table[i].0) == Some(i),
{
    lemma_find(table, table[i].0);
}

proof fn lemma_removals_none(node: NodeId, old: AttrSeq, new: AttrSeq)
    requires
        forall|i: int| 0 <= i < old.len() ==> find(new, #[trigger] old[i].0) is Some,
    ensures
        removals(node, old, new) == Seq::<MutationView>::empty(),
    decreases old.len(),
{
    if old.len() > 0 {
        assert(old.last() == old[old.len() - 1]);
        assert forall|i: int| 0 <= i < old.drop_last().len() implies find(
            new,
            #[trigger] old.drop_last()[i].0,
        ) is Some by {
            assert(old.drop_last()[i] == old[i]);
        }
        lemma_removals_none(node, old.drop_last(), new);
    }
}

proof fn lemma_updates_none(node: NodeId, old: AttrSeq, new: AttrSeq)
    requires
        forall|i: int| 0 <= i < new.len() ==> lookup(old, #[trigger] new[i].0) == Some(new[i].1),
    ensures
        updates(node, old, new) == Seq::<MutationView>::empty(),
    decreases new.len(),
{
    if new.len() > 0 {
        assert(new.last() == new[new.len() - 1]);
        assert forall|i: int| 0 <= i < new.drop_last().len() implies lookup(
            old,
            #[trigger] new.drop_last()[i].0,
        ) == Some(new.drop_last()[i].1) by {
            assert(new.drop_last()[i] == new[i]);
        }
        lemma_updates_none(node, old, new.drop_last());
    }
}

/// Nothing has to change to take a table without repeats to itself.
pub proof fn lemma_diff_same(node: NodeId, table: AttrSeq)
    requires
        unique_keys(table),
    ensures
        diff(node, table, table) == Seq::<MutationView>::empty(),
{
    assert forall|i: int| 0 <= i < table.len() implies find(table, #[trigger] table[i].0)
        is Some by {
        lemma_unique_find(table, i);
    }
    assert forall|i: int| 0 <= i < table.len() implies lookup(table, #[trigger] table[i].0)
        == Some(table[i].1) by {
        lemma_unique_find(table, i);
    }
    lemma_removals_none(node, table, table);
    lemma_updates_none(node, table, table);
}

/// The attributes that a live element carries: each name once, with its
/// value, in the order in which the names were first set.
pub struct AttributeTable {
    entries: Vec<(String, String)>,
}

impl View for AttributeTable {
    type V = AttrSeq;

    closed spec fn view(&self) -> AttrSeq {
        attr_view(self.entries@)
    }
}

impl AttributeTable {
    /// The table without attributes.
    pub fn new() -> (table: AttributeTable)
        ensures
            table@ == Seq::<(Seq<char>, Seq<char>)>::empty(),
    {
        let table = AttributeTable { entries: Vec::new() };
        assert(table@ =~= Seq::empty());
        table
    }

    /// How many attributes the table holds.
    pub fn len(&self) -> (n: usize)
        ensures
            n == self@.len(),
    {
        self.entries.len()
    }

    /// The name in place `i`.
    pub fn name_at(&self, i: usize) -> (name: &String)
        requires
            i < self@.len(),
        ensures
            name@ == self@[i as int].0,
    {
        &self.entries[i].0
    }

    /// The value in place `i`.
    pub fn value_at(&self, i: usize) -> (value: &String)
        requires
            i < self@.len(),
        ensures
            value@ == self@[i as int].1,
    {
        &self.entries[i].1
    }

    /// The first place that holds the name `key`, if one does.
    pub fn position(&self, key: &String) -> (place: Option<usize>)
        ensures
            match place {
                Some(i) => find(self@, key@) == Some(i as int),
                None => find(self@, key@) is None,
            },
    {
        let mut i: usize = 0;
        while i < self.entries.len()
            invariant
                i <= self.entries.len(),
                forall|j: int| 0 <= j < i ==> self@[j].0 != key@,
            decreases self.entries.len() - i,
        {
            if self.entries[i].0 == *key {
                proof {
                    lemma_find_is(self@, key@, i as int);
                }
                return Some(i);
            }
            i = i + 1;
        }
        proof {
            lemma_find(self@, key@);
        }
        None
    }

    /// The value of the attribute `key`, if the table holds it.
    pub fn get(&self, key: &String) -> (value: Option<&String>)
        ensures
            match value {
                Some(v) => lookup(self@, key@) == Some(v@),
                None => lookup(self@, key@) is None,
            },
    {
        match self.position(key) {
            Some(i) => {
                proof {
                    lemma_find(self@, key@);
                }
                Some(&self.entries[i].1)
            },
            None => None,
        }
    }

    /// Sets the attribute `key` to `value`: in its place if the table holds
    /// the name, at the end if not.
    pub fn insert(&mut self, key: String, value: String)
        ensures
            final(self)@ == put(old(self)@, key@, value@),
    {
        match self.position(&key) {
            Some(i) => {
                proof {
                    lemma_find(self@, key@);
                }
                self.entries[i] = (key, value);
                assert(self@ =~= put(old(self)@, key@, value@));
            },
            None => {
                self.entries.push((key, value));
                assert(self@ =~= put(old(self)@, key@, value@));
            },
        }
    }

    /// The table that `declared` describes. Where a name is declared more
    /// than once, the last declaration counts.
    pub fn from_declared(declared: &Vec<(String, String)>) -> (table: AttributeTable)
        ensures
            table@ == normalize(attr_view(declared@)),
    {
        let mut table = AttributeTable::new();
        let mut i: usize = 0;
        while i < declared.len()
            invariant
                i <= declared.len(),
                table@ == normalize(attr_view(declared@).take(i as int)),
            decreases declared.len() - i,
        {
            let key = declared[i].0.clone();
            let value = declared[i].1.clone();
            proof {
                let all = attr_view(declared@);
                assert(all.take(i + 1).drop_last() =~= all.take(i as int));
                assert(all.take(i + 1).last() == all[i as int]);
            }
            table.insert(key, value);
            i = i + 1;
        }
        assert(attr_view(declared@).take(declared.len() as int) =~= attr_view(declared@));
        table
    }
}

/// Brings the attributes of the live element `node` in line with `declared`.
///
/// `table` holds the attributes that `node` carries. The mutations that take
/// the node from there to what `declared` describes are recorded in `cx`, and
/// `table` becomes that description. The result says whether anything had to
/// change.
pub fn apply_attribute_changes(
    cx: &mut Cx,
    node: NodeId,
    table: &mut AttributeTable,
    declared: &Vec<(String, String)>,
) -> (changed: ChangeFlags)
    ensures
        final(table)@ == normalize(attr_view(declared@)),
        final(cx)@ == old(cx)@.emit_all(diff(node, old(table)@, final(table)@)),
        changed == diff_flags(diff(node, old(table)@, final(table)@)),
{
    let new_table = AttributeTable::from_declared(declared);
    let ghost before = table@;
    let ghost after = new_table@;
    let mut changed = ChangeFlags::empty();
    let mut i: usize = 0;
    while i < table.len()
        invariant
            i <= table@.len(),
            table@ == before,
            new_table@ == after,
            cx@ == old(cx)@.emit_all(removals(node, before.take(i as int), after)),
            changed == diff_flags(removals(node, before.take(i as int), after)),
        decreases table@.len() - i,
    {
        proof {
            assert(before.take(i + 1).drop_last() =~= before.take(i as int));
            assert(before.take(i + 1).last() == before[i as int]);
        }
        if new_table.position(table.name_at(i)).is_none() {
            cx.emit(Mutation::RemoveAttribute { node, name: table.name_at(i).clone() });
            changed = ChangeFlags::other_change();
            assert(cx@.log =~= old(cx)@.log + removals(node, before.take(i + 1), after));
        }
        i = i + 1;
    }
    assert(before.take(table@.len() as int) =~= before);
    let ghost removed = removals(node, before, after);
    let mut k: usize = 0;
    while k < new_table.len()
        invariant
            k <= new_table@.len(),
            table@ == before,
            new_table@ == after,
            cx@ == old(cx)@.emit_all(removed + updates(node, before, after.take(k as int))),
            changed == diff_flags(removed + updates(node, before, after.take(k as int))),
        decreases new_table@.len() - k,
    {
        proof {
            assert(after.take(k + 1).drop_last() =~= after.take(k as int));
            assert(after.take(k + 1).last() == after[k as int]);
        }
        let same = match table.get(new_table.name_at(k)) {
            Some(v) => *v == *new_table.value_at(k),
            None => false,
        };
        if !same {
            cx.emit(
                Mutation::SetAttribute {
                    node,
                    name: new_table.name_at(k).clone(),
                    value: new_table.value_at(k).clone(),
                },
            );
            changed = ChangeFlags::other_change();
            assert(cx@.log =~= old(cx)@.log + (removed + updates(node, before, after.take(k + 1))));
        }
        k = k + 1;
    }
    assert(after.take(new_table@.len() as int) =~= after);
    *table = new_table;
    changed
}

} // verus!
