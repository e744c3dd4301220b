use vstd::prelude::*;

use crate::item::{CustomItem, ItemView};

verus! {

/// A rank as values: its fields, lower is better.
pub open spec fn rank_view(r: Option<[i32; 4]>) -> Option<Seq<i32>> {
    match r {
        Some(a) => Some(a@),
        None => None,
    }
}

/// Lexicographic order on ranks: `a` ranks strictly before `b`.
pub open spec fn rank_lt(a: Seq<i32>, b: Seq<i32>) -> bool {
    ||| a[0] < b[0]
    ||| a[0] == b[0] && a[1] < b[1]
    ||| a[0] == b[0] && a[1] == b[1] && a[2] < b[2]
    ||| a[0] == b[0] && a[1] == b[1] && a[2] == b[2] && a[3] < b[3]
}

/// Adding `group` to the first field of `d` stays within `i32`.
pub open spec fn shift_fits(d: Seq<i32>, group: nat) -> bool {
    d[0] + group <= i32::MAX
}

/// The rank of an item, given what the delegate engine returned for its
/// text: a separator always matches with rank `[group, 0, 0, 0]`; any other
/// item matches exactly when the delegate does, with `group` added to the
/// delegate's first field and the other fields kept.
pub open spec fn composite_rank(item: ItemView, delegate: Option<Seq<i32>>) -> Option<Seq<i32>> {
    if item.persist {
        Some(seq![item.group as i32, 0i32, 0i32, 0i32])
    } else {
        match delegate {
            Some(d) => Some(d.update(0, (d[0] + item.group) as i32)),
            None => None,
        }
    }
}

/// Whether the delegate engine is consulted for this item: separators are
/// ranked without it.
pub fn needs_delegate(item: &CustomItem) -> (r: bool)
    ensures
        r == !item@.persist,
{
    !item.persist
}

/// The rank of `item` under the current query, where `delegate` is the
/// delegate engine's result for the item's text (ignored for separators).
pub fn rank_item(item: &CustomItem, delegate: Option<[i32; 4]>) -> (r: Option<[i32; 4]>)
    requires
        !item@.persist && delegate is Some ==> shift_fits(delegate->0@, item@.group),
    ensures
        rank_view(r) == composite_rank(item@, rank_view(delegate)),
{
    if item.persist {
        let r: [i32; 4] = [item.group as i32, 0, 0, 0];
        assert(r@ =~= seq![item.group as i32, 0i32, 0i32, 0i32]);
        Some(r)
    } else {
        match delegate {
            None => None,
            Some(d) => {
                let r: [i32; 4] = [d[0] + item.group as i32, d[1], d[2], d[3]];
                assert(r@ =~= d@.update(0, (d@[0] + item@.group) as i32));
                Some(r)
            },
        }
    }
}

} // verus!
