//! The children of a variable, in the order of their place in the file.

use vstd::prelude::*;

use crate::variable::{self, OmVariable};

verus! {

/// A child of a variable: its number, and where its metadata is.
#[derive(Debug, Clone, Copy, PartialEq, Eq, Structural)]
pub struct ChildEntry {
    pub index: u32,
    pub offset: u64,
    pub size: u64,
}

impl ChildEntry {
    /// The position right after the metadata of the child.
    pub open spec fn end(self) -> int {
        self.offset + self.size
    }
}

/// Child number `index` of the variable with the metadata `block`.
pub open spec fn child_entry(block: Seq<u8>, index: int) -> ChildEntry {
    let location = variable::block_child(block, index);
    ChildEntry { index: index as u32, offset: location.offset, size: location.size }
}

/// All children of the variable, by number.
pub open spec fn all_children(block: Seq<u8>) -> Seq<ChildEntry> {
    Seq::new(variable::block_children_count(block), |i: int| child_entry(block, i))
}

/// The metadata of every child ends at a position that 64 bits can hold.
pub open spec fn children_fit(children: Seq<ChildEntry>) -> bool {
    forall|i: int| 0 <= i < children.len() ==> (#[trigger] children[i]).end() <= u64::MAX
}

/// The order by place in the file; of two children at the same place, the one with the lower
/// number comes first.
pub open spec fn in_order(a: ChildEntry, b: ChildEntry) -> bool {
    a.offset < b.offset || (a.offset == b.offset && a.index <= b.index)
}

/// The children are in order.
pub open spec fn is_ordered(children: Seq<ChildEntry>) -> bool {
    forall|i: int, j: int|
        0 <= i < j < children.len() ==> in_order(#[trigger] children[i], #[trigger] children[j])
}

/// Lists all children of a variable, by number.
pub fn collect_children(parent: &OmVariable) -> (children: Vec<ChildEntry>)
    ensures
        children@ == all_children(parent@),
{
    let count: u32 = parent.number_of_children();
    let mut children: Vec<ChildEntry> = Vec::with_capacity(count as usize);
    let mut index: u32 = 0;
    while index < count
        invariant
            index <= count,
            count == variable::block_children_count(parent@),
            children@ =~= all_children(parent@).take(index as int),
        decreases count - index,
    {
        if let Some(location) = parent.child(index) {
            children.push(
                ChildEntry { index, offset: location.offset, size: location.size },
            );
        }
        index = index + 1;
    }
    children
}

/// Whether the metadata of every child ends at a position that 64 bits can hold.
pub fn check_children_fit(children: &Vec<ChildEntry>) -> (fit: bool)
    ensures
        fit == children_fit(children@),
{
    let mut at: usize = 0;
    while at < children.len()
        invariant
            at <= children@.len(),
            forall|i: int| 0 <= i < at ==> (#[trigger] children@[i]).end() <= u64::MAX,
        decreases children@.len() - at,
    {
        let child = children[at];
        if child.size > u64::MAX - child.offset {
            assert(children@[at as int].end() > u64::MAX);
            return false;
        }
        at = at + 1;
    }
    true
}

/// Merges two ordered lists into one.
fn merge(left: &Vec<ChildEntry>, right: &Vec<ChildEntry>) -> (merged: Vec<ChildEntry>)
    requires
        is_ordered(left@),
        is_ordered(right@),
    ensures
        is_ordered(merged@),
        merged@.to_multiset() == left@.to_multiset().add(right@.to_multiset()),
{
    let mut merged: Vec<ChildEntry> = Vec::new();
    let mut i: usize = 0;
    let mut j: usize = 0;
    proof {
        let none = Seq::<ChildEntry>::empty();
        none.to_multiset_ensures();
        assert forall|a: ChildEntry| none.to_multiset().count(a) == 0 by {
            assert(!none.contains(a));
        }
        assert(left@.take(0) =~= Seq::<ChildEntry>::empty());
        assert(right@.take(0) =~= Seq::<ChildEntry>::empty());
        assert(merged@.to_multiset() =~= left@.take(0).to_multiset().add(
            right@.take(0).to_multiset(),
        ));
    }
    while i < left.len() || j < right.len()
        invariant
            i <= left@.len(),
            j <= right@.len(),
            is_ordered(left@),
            is_ordered(right@),
            is_ordered(merged@),
            merged@.to_multiset() == left@.take(i as int).to_multiset().add(
                right@.take(j as int).to_multiset(),
            ),
            forall|a: int, b: int|
                0 <= a < merged@.len() && i <= b < left@.len() ==> in_order(
                    #[trigger] merged@[a],
                    #[trigger] left@[b],
                ),
            forall|a: int, b: int|
                0 <= a < merged@.len() && j <= b < right@.len() ==> in_order(
                    #[trigger] merged@[a],
                    #[trigger] right@[b],
                ),
        decreases left@.len() - i + right@.len() - j,
    {
        let from_left = if i == left.len() {
            false
        } else if j == right.len() {
            true
        } else {
            let a = left[i];
            let b = right[j];
            a.offset < b.offset || (a.offset == b.offset && a.index <= b.index)
        };
        let ghost before = merged@;
        if from_left {
            merged.push(left[i]);
            proof {
                before.to_multiset_ensures();
                left@.take(i as int).to_multiset_ensures();
                assert(left@.take(i + 1) =~= left@.take(i as int).push(left@[i as int]));
                assert(merged@.to_multiset() =~= left@.take(i + 1).to_multiset().add(
                    right@.take(j as int).to_multiset(),
                ));
            }
            i = i + 1;
        } else {
            merged.push(right[j]);
            proof {
                before.to_multiset_ensures();
                right@.take(j as int).to_multiset_ensures();
                assert(right@.take(j + 1) =~= right@.take(j as int).push(right@[j as int]));
                assert(merged@.to_multiset() =~= left@.take(i as int).to_multiset().add(
                    right@.take(j + 1).to_multiset(),
                ));
            }
            j = j + 1;
        }
    }
    proof {
        assert(left@.take(i as int) =~= left@);
        assert(right@.take(j as int) =~= right@);
    }
    merged
}

/// Orders children by their place in the file, those at the same place by number.
pub fn sort_by_offset(children: Vec<ChildEntry>) -> (sorted: Vec<ChildEntry>)
    ensures
        is_ordered(sorted@),
        sorted@.to_multiset() == children@.to_multiset(),
    decreases children@.len(),
{
    if children.len() <= 1 {
        return children;
    }
    let ghost all = children@;
    let mut left = children;
    let middle: usize = left.len() / 2;
    let right = left.split_off(middle);
    proof {
        assert(all =~= left@ + right@);
        vstd::seq_lib::lemma_multiset_commutative(left@, right@);
    }
    let left_sorted = sort_by_offset(left);
    let right_sorted = sort_by_offset(right);
    merge(&left_sorted, &right_sorted)
}

} // verus!
