use vstd::prelude::*;

use crate::item::ItemView;
use crate::ranking::{composite_rank, rank_lt, shift_fits};
use crate::session::{output_text, selection_of, SessionEnd};
use crate::producer::{block, emission, emission_prefix, segment};

verus! {

/// The number of separators in a sequence of items.
pub open spec fn separator_count(s: Seq<ItemView>) -> nat
    decreases s.len(),
{
    if s.len() == 0 {
        0
    } else {
        separator_count(s.drop_last()) + if s.last().persist {
            1nat
        } else {
            0nat
        }
    }
}

/// Groups never decrease along a sequence of items.
pub open spec fn groups_sorted(s: Seq<ItemView>) -> bool {
    forall|j: int, k: int| 0 <= j <= k < s.len() ==> #[trigger] s[j].group <= #[trigger] s[k].group
}

proof fn lemma_count_concat(a: Seq<ItemView>, b: Seq<ItemView>)
    ensures
        separator_count(a + b) == separator_count(a) + separator_count(b),
    decreases b.len(),
{
    if b.len() > 0 {
        assert((a + b).drop_last() =~= a + b.drop_last());
        lemma_count_concat(a, b.drop_last());
    } else {
        assert(a + b =~= a);
    }
}

proof fn lemma_block_count(lines: Seq<Seq<char>>, group: nat)
    ensures
        separator_count(block(lines, group)) == 0,
    decreases lines.len(),
{
    if lines.len() > 0 {
        assert(block(lines, group).drop_last() =~= block(lines.drop_last(), group));
        lemma_block_count(lines.drop_last(), group);
    }
}

proof fn lemma_prefix_count(
    sources: Seq<Seq<Seq<char>>>,
    k: nat,
    group_score: nat,
    separator: Seq<char>,
)
    requires
        k <= sources.len(),
        sources.len() > 0,
    ensures
        separator_count(emission_prefix(sources, k, group_score, separator)) == if k
            < sources.len() {
            k
        } else {
            (k - 1) as nat
        },
    decreases k,
{
    if k > 0 {
        let i = (k - 1) as nat;
        lemma_prefix_count(sources, i, group_score, separator);
        let b = block(sources[i as int], i * group_score);
        lemma_block_count(sources[i as int], i * group_score);
        let tail = if i + 1 < sources.len() {
            seq![crate::item::separator_view(i * group_score, separator)]
        } else {
            Seq::<ItemView>::empty()
        };
        lemma_count_concat(b, tail);
        assert(separator_count(tail) == if i + 1 < sources.len() {
            1nat
        } else {
            0nat
        }) by {
            reveal_with_fuel(separator_count, 2);
            if i + 1 < sources.len() {
                assert(tail.drop_last() =~= Seq::<ItemView>::empty());
            }
        }
        assert(segment(sources, i, group_score, separator) == b + tail);
        lemma_count_concat(
            emission_prefix(sources, i, group_score, separator),
            segment(sources, i, group_score, separator),
        );
    }
}

/// A non-empty list of sources yields exactly one separator fewer than it
/// has sources: one between each two adjacent sources.
pub proof fn lemma_separator_count(
    sources: Seq<Seq<Seq<char>>>,
    group_score: nat,
    separator: Seq<char>,
)
    requires
        sources.len() > 0,
    ensures
        separator_count(emission(sources, group_score, separator)) == sources.len() - 1,
{
    lemma_prefix_count(sources, sources.len(), group_score, separator);
}

/// Every item that source `i` contributes, its separator included, is in
/// group `i * group_score`.
pub proof fn lemma_segment_groups(
    sources: Seq<Seq<Seq<char>>>,
    i: nat,
    group_score: nat,
    separator: Seq<char>,
)
    requires
        i < sources.len(),
    ensures
        forall|x: int|
            0 <= x < segment(sources, i, group_score, separator).len() ==> #[trigger] segment(
                sources,
                i,
                group_score,
                separator,
            )[x].group == i * group_score,
{
}

proof fn lemma_prefix_sorted(
    sources: Seq<Seq<Seq<char>>>,
    k: nat,
    group_score: nat,
    separator: Seq<char>,
)
    requires
        k <= sources.len(),
    ensures
        groups_sorted(emission_prefix(sources, k, group_score, separator)),
        forall|x: int|
            0 <= x < emission_prefix(sources, k, group_score, separator).len()
                ==> #[trigger] emission_prefix(sources, k, group_score, separator)[x].group <= k
                * group_score,
    decreases k,
{
    if k > 0 {
        let i = (k - 1) as nat;
        lemma_prefix_sorted(sources, i, group_score, separator);
        lemma_segment_groups(sources, i, group_score, separator);
        let p = emission_prefix(sources, i, group_score, separator);
        let s = segment(sources, i, group_score, separator);
        let e = emission_prefix(sources, k, group_score, separator);
        assert(e == p + s);
        assert(i * group_score <= k * group_score) by (nonlinear_arith)
            requires
                i <= k,
        ;
        assert forall|j: int, l: int| 0 <= j <= l < e.len() implies #[trigger] e[j].group
            <= #[trigger] e[l].group by {
            if l < p.len() {
                assert(e[j] == p[j] && e[l] == p[l]);
            } else if j < p.len() {
                assert(e[j] == p[j] && e[l] == s[l - p.len()]);
            } else {
                assert(e[j] == s[j - p.len()] && e[l] == s[l - p.len()]);
            }
        }
        assert forall|x: int| 0 <= x < e.len() implies #[trigger] e[x].group <= k
            * group_score by {
            if x < p.len() {
                assert(e[x] == p[x]);
            } else {
                assert(e[x] == s[x - p.len()]);
            }
        }
    }
}

/// Groups never decrease along the emission, every item of source `i` is in
/// group `i * group_score`, and with a positive group score the groups rise
/// strictly from each source to the next.
pub proof fn lemma_groups_ordered(
    sources: Seq<Seq<Seq<char>>>,
    group_score: nat,
    separator: Seq<char>,
)
    requires
        group_score > 0,
    ensures
        groups_sorted(emission(sources, group_score, separator)),
        forall|i: nat, x: int|
            i < sources.len() && 0 <= x < segment(sources, i, group_score, separator).len()
                ==> #[trigger] segment(sources, i, group_score, separator)[x].group == i
                * group_score,
        forall|i: nat, x: int, y: int|
            i + 1 < sources.len() && 0 <= x < segment(sources, i, group_score, separator).len()
                && 0 <= y < segment(sources, i + 1, group_score, separator).len() ==> #[trigger] segment(
                sources,
                i,
                group_score,
                separator,
            )[x].group < #[trigger] segment(sources, i + 1, group_score, separator)[y].group,
{
    lemma_prefix_sorted(sources, sources.len(), group_score, separator);
    assert forall|i: nat, x: int|
        i < sources.len() && 0 <= x < segment(sources, i, group_score, separator).len() implies #[trigger] segment(
        sources,
        i,
        group_score,
        separator,
    )[x].group == i * group_score by {
        lemma_segment_groups(sources, i, group_score, separator);
    }
    assert forall|i: nat, x: int, y: int|
        i + 1 < sources.len() && 0 <= x < segment(sources, i, group_score, separator).len() && 0
            <= y < segment(sources, i + 1, group_score, separator).len() implies #[trigger] segment(
        sources,
        i,
        group_score,
        separator,
    )[x].group < #[trigger] segment(sources, i + 1, group_score, separator)[y].group by {
        lemma_segment_groups(sources, i, group_score, separator);
        lemma_segment_groups(sources, i + 1, group_score, separator);
        assert(i * group_score < (i + 1) * group_score) by (nonlinear_arith)
            requires
                group_score > 0,
        ;
    }
}

/// Within one group, the composite order of two matched items is the
/// delegate's own order for their texts: one ranks before the other exactly
/// when it does so under the delegate, and they tie exactly when the
/// delegate ties them.
pub proof fn lemma_same_group_keeps_order(
    a: ItemView,
    b: ItemView,
    da: Seq<i32>,
    db: Seq<i32>,
)
    requires
        !a.persist,
        !b.persist,
        a.group == b.group,
        da.len() == 4,
        db.len() == 4,
        shift_fits(da, a.group),
        shift_fits(db, b.group),
    ensures
        composite_rank(a, Some(da)) is Some,
        composite_rank(b, Some(db)) is Some,
        rank_lt(composite_rank(a, Some(da))->0, composite_rank(b, Some(db))->0) <==> rank_lt(
            da,
            db,
        ),
        composite_rank(a, Some(da)) == composite_rank(b, Some(db)) <==> da == db,
{
    let ra = composite_rank(a, Some(da))->0;
    let rb = composite_rank(b, Some(db))->0;
    if ra == rb {
        assert(ra[0] == da[0] + a.group && rb[0] == db[0] + b.group);
        assert(ra[1] == da[1] && ra[2] == da[2] && ra[3] == da[3]);
        assert(rb[1] == db[1] && rb[2] == db[2] && rb[3] == db[3]);
        assert(da =~= db);
    }
}

/// The first field of an item's composite rank before its group is added:
/// zero for a separator, the delegate's first field otherwise.
pub open spec fn base_score(item: ItemView, delegate: Option<Seq<i32>>) -> int {
    if item.persist {
        0
    } else {
        delegate->0[0] as int
    }
}

/// When the gap between two groups is at least the width `span` of the
/// window that holds every base score, the item of the lower group ranks
/// strictly before the item of the higher group, whatever the query.
pub proof fn lemma_lower_group_ranks_first(
    a: ItemView,
    b: ItemView,
    da: Option<Seq<i32>>,
    db: Option<Seq<i32>>,
    lo: int,
    span: int,
)
    requires
        a.group < b.group,
        b.group - a.group >= span,
        composite_rank(a, da) is Some,
        composite_rank(b, db) is Some,
        !a.persist ==> da->0.len() == 4 && shift_fits(da->0, a.group),
        !b.persist ==> db->0.len() == 4 && shift_fits(db->0, b.group),
        a.group <= u16::MAX,
        b.group <= u16::MAX,
        lo <= base_score(a, da) < lo + span,
        lo <= base_score(b, db) < lo + span,
    ensures
        rank_lt(composite_rank(a, da)->0, composite_rank(b, db)->0),
{
    let ra = composite_rank(a, da)->0;
    let rb = composite_rank(b, db)->0;
    assert(ra[0] == base_score(a, da) + a.group);
    assert(rb[0] == base_score(b, db) + b.group);
}

/// A separator matches under every query, and its rank is the same whatever
/// the delegate engine returns.
pub proof fn lemma_separator_rank_fixed(
    item: ItemView,
    d1: Option<Seq<i32>>,
    d2: Option<Seq<i32>>,
)
    requires
        item.persist,
    ensures
        composite_rank(item, d1) is Some,
        composite_rank(item, d1) == composite_rank(item, d2),
{
}

/// An aborted or failed session selects nothing, so nothing is written,
/// whatever the items are and however they are shown.
pub proof fn lemma_abort_writes_nothing<T>(end: SessionEnd<T>, shown: spec_fn(T) -> Seq<char>)
    requires
        !(end is Accepted),
    ensures
        selection_of(end).len() == 0,
        output_text(selection_of(end).map_values(shown)) == Seq::<char>::empty(),
{
    assert(selection_of(end).map_values(shown).len() == 0);
}

} // verus!
