use vstd::prelude::*;

use crate::item::{line_view, separator_view, CustomItem, ItemView};

verus! {

/// Why a list of sources cannot be turned into items.
#[derive(Debug, Clone, Copy, PartialEq, Eq, Structural)]
pub enum ConfigError {
    /// The list of sources is empty.
    NoSources,
    /// The group score is zero, so groups would not tell sources apart.
    ZeroGroupScore,
    /// The group of the last source does not fit in a `u16`.
    GroupOverflow,
}

/// One step of the production: all lines of one source, or the separator
/// that follows a source.
#[derive(Debug, Clone, Copy, PartialEq, Eq, Structural)]
pub enum Step {
    /// Emit every line of source `index`, each with group `group`.
    Source { index: usize, group: u16 },
    /// Emit one separator item with group `group`.
    Separator { group: u16 },
}

/// The number of steps for `n` sources: one per source and one per boundary.
pub open spec fn step_count(n: nat) -> nat {
    if n == 0 { 0 } else { (2 * n - 1) as nat }
}

/// A configuration under which every group fits in a `u16`.
pub open spec fn valid_config(n: nat, group_score: nat) -> bool {
    &&& n > 0
    &&& group_score > 0
    &&& (n - 1) * group_score <= u16::MAX
}

/// The step at position `t`: even positions read source `t / 2`, odd ones
/// emit the separator closing source `t / 2`; both carry that source's group.
pub open spec fn step_at(t: int, group_score: nat) -> Step {
    let i = t / 2;
    if t % 2 == 0 {
        Step::Source { index: i as usize, group: (i * group_score) as u16 }
    } else {
        Step::Separator { group: (i * group_score) as u16 }
    }
}

/// The steps for `n` sources under `group_score`.
pub open spec fn plan_spec(n: nat, group_score: nat) -> Seq<Step> {
    Seq::new(step_count(n), |t: int| step_at(t, group_score))
}

/// Relies on itertools::intersperse: the items of the iterator in order, with
/// a clone of the given element between each two of them.
#[verifier::external_body]
fn interspersed_positions(n: usize) -> (r: Vec<Option<usize>>)
    ensures
        r@.len() == step_count(n as nat),
        forall|t: int|
            0 <= t < r@.len() ==> #[trigger] r@[t] == (if t % 2 == 0 {
                Some((t / 2) as usize)
            } else {
                None
            }),
{
    itertools::intersperse((0..n).map(Some), None).collect()
}

/// Checks a configuration of `n` sources and a group score.
pub fn check_config(n: usize, group_score: u16) -> (r: Result<(), ConfigError>)
    ensures
        n == 0 ==> r == Err::<(), ConfigError>(ConfigError::NoSources),
        n > 0 && group_score == 0 ==> r == Err::<(), ConfigError>(ConfigError::ZeroGroupScore),
        n > 0 && group_score > 0 && (n - 1) * group_score > u16::MAX ==> r == Err::<
            (),
            ConfigError,
        >(ConfigError::GroupOverflow),
        r is Ok <==> valid_config(n as nat, group_score as nat),
{
    if n == 0 {
        return Err(ConfigError::NoSources);
    }
    if group_score == 0 {
        return Err(ConfigError::ZeroGroupScore);
    }
    let last: usize = n - 1;
    if last > 65535 {
        assert(last * group_score >= last) by (nonlinear_arith)
            requires group_score >= 1;
        return Err(ConfigError::GroupOverflow);
    }
    let l: u32 = last as u32;
    let g: u32 = group_score as u32;
    assert(l * g <= 65535 * 65535) by (nonlinear_arith)
        requires
            l <= 65535,
            g <= 65535,
    ;
    let top: u32 = l * g;
    if top > 65535 {
        Err(ConfigError::GroupOverflow)
    } else {
        Ok(())
    }
}

/// The group of source `index`: `index * group_score`.
fn group_of(index: usize, n: usize, group_score: u16) -> (r: u16)
    requires
        index < n,
        valid_config(n as nat, group_score as nat),
    ensures
        r == index * group_score,
{
    let ghost top = (n - 1) * group_score;
    assert(index * group_score <= 65535) by (nonlinear_arith)
        requires
            0 <= index <= n - 1,
            top == (n - 1) * group_score,
            top <= 65535,
            group_score >= 0,
    ;
    assert(index <= 65535) by (nonlinear_arith)
        requires
            index * group_score <= 65535,
            group_score >= 1,
    ;
    let i: u32 = index as u32;
    let g: u32 = group_score as u32;
    (i * g) as u16
}

/// The steps that produce the items of `n` sources: source `i` with group
/// `i * group_score`, and after every source but the last a separator with
/// that same group.
pub fn plan_sources(n: usize, group_score: u16) -> (r: Result<Vec<Step>, ConfigError>)
    ensures
        n == 0 ==> r == Err::<Vec<Step>, ConfigError>(ConfigError::NoSources),
        n > 0 && group_score == 0 ==> r == Err::<Vec<Step>, ConfigError>(
            ConfigError::ZeroGroupScore,
        ),
        n > 0 && group_score > 0 && (n - 1) * group_score > u16::MAX ==> r == Err::<
            Vec<Step>,
            ConfigError,
        >(ConfigError::GroupOverflow),
        r is Ok <==> valid_config(n as nat, group_score as nat),
        r matches Ok(steps) ==> steps@ == plan_spec(n as nat, group_score as nat),
{
    match check_config(n, group_score) {
        Err(e) => { return Err(e); },
        Ok(()) => {},
    }
    let positions = interspersed_positions(n);
    let mut steps: Vec<Step> = Vec::new();
    let mut last: usize = 0;
    let len = positions.len();
    for t in 0..len
        invariant
            len == positions@.len(),
            len == step_count(n as nat),
            valid_config(n as nat, group_score as nat),
            forall|u: int|
                0 <= u < positions@.len() ==> #[trigger] positions@[u] == (if u % 2 == 0 {
                    Some((u / 2) as usize)
                } else {
                    None
                }),
            t > 0 ==> last as int == (t - 1) / 2,
            last < n,
            steps@ == plan_spec(n as nat, group_score as nat).take(t as int),
    {
        let step = match positions[t] {
            Some(i) => {
                last = i;
                Step::Source { index: i, group: group_of(i, n, group_score) }
            },
            None => Step::Separator { group: group_of(last, n, group_score) },
        };
        steps.push(step);
        assert(steps@ =~= plan_spec(n as nat, group_score as nat).take(t + 1));
    }
    assert(steps@ =~= plan_spec(n as nat, group_score as nat));
    Ok(steps)
}

/// The lines of each source, as text.
pub open spec fn sources_view(sources: Seq<Vec<String>>) -> Seq<Seq<Seq<char>>> {
    sources.map_values(|lines: Vec<String>| lines@.map_values(|l: String| l@))
}

/// The items of a vector, as values.
pub open spec fn items_view(items: Seq<CustomItem>) -> Seq<ItemView> {
    items.map_values(|x: CustomItem| x@)
}

/// The items made of `lines`, all in group `group`, in line order.
pub open spec fn block(lines: Seq<Seq<char>>, group: nat) -> Seq<ItemView> {
    lines.map_values(|l: Seq<char>| line_view(group, l))
}

/// What source `i` contributes: its lines in group `i * group_score`, then,
/// unless it is the last source, a separator in that same group.
pub open spec fn segment(
    sources: Seq<Seq<Seq<char>>>,
    i: nat,
    group_score: nat,
    separator: Seq<char>,
) -> Seq<ItemView> {
    block(sources[i as int], i * group_score) + if i + 1 < sources.len() {
        seq![separator_view(i * group_score, separator)]
    } else {
        Seq::<ItemView>::empty()
    }
}

/// What the first `k` sources contribute, in order.
pub open spec fn emission_prefix(
    sources: Seq<Seq<Seq<char>>>,
    k: nat,
    group_score: nat,
    separator: Seq<char>,
) -> Seq<ItemView>
    decreases k,
{
    if k == 0 {
        Seq::<ItemView>::empty()
    } else {
        emission_prefix(sources, (k - 1) as nat, group_score, separator) + segment(
            sources,
            (k - 1) as nat,
            group_score,
            separator,
        )
    }
}

/// The whole sequence of items emitted for `sources`.
pub open spec fn emission(
    sources: Seq<Seq<Seq<char>>>,
    group_score: nat,
    separator: Seq<char>,
) -> Seq<ItemView> {
    emission_prefix(sources, sources.len(), group_score, separator)
}

/// What the first `t` steps of the plan have emitted.
pub open spec fn emitted_after(
    sources: Seq<Seq<Seq<char>>>,
    t: nat,
    group_score: nat,
    separator: Seq<char>,
) -> Seq<ItemView> {
    let k = t / 2;
    if t % 2 == 0 {
        emission_prefix(sources, k, group_score, separator)
    } else {
        emission_prefix(sources, k, group_score, separator) + block(
            sources[k as int],
            k * group_score,
        )
    }
}

/// The group of every step of a valid plan fits in a `u16`.
proof fn lemma_step_group_fits(t: int, n: nat, group_score: nat)
    requires
        0 <= t < step_count(n),
        valid_config(n, group_score),
    ensures
        (t / 2) * group_score <= u16::MAX,
        t % 2 == 1 ==> t / 2 + 1 < n,
{
    let top = (n - 1) * group_score;
    assert((t / 2) * group_score <= top) by (nonlinear_arith)
        requires
            0 <= t / 2 <= n - 1,
            top == (n - 1) * group_score,
            group_score >= 0,
    ;
}

/// Appends one item per line of `lines`, each in group `group`.
fn push_lines(out: &mut Vec<CustomItem>, lines: &Vec<String>, group: u16)
    ensures
        items_view(final(out)@) == items_view(old(out)@) + block(
            lines@.map_values(|l: String| l@),
            group as nat,
        ),
{
    let ghost start = items_view(out@);
    let ghost all = lines@.map_values(|l: String| l@);
    for j in 0..lines.len()
        invariant
            items_view(out@) == start + block(all.take(j as int), group as nat),
            all == lines@.map_values(|l: String| l@),
    {
        let item = CustomItem::line(group, lines[j].clone());
        let ghost before = out@;
        out.push(item);
        assert(items_view(out@) =~= items_view(before).push(line_view(group as nat, lines@[j as int]@)));
        assert(all.take(j + 1) =~= all.take(j as int).push(lines@[j as int]@));
        assert(block(all.take(j + 1), group as nat) =~= block(all.take(j as int), group as nat).push(
            line_view(group as nat, lines@[j as int]@),
        ));
        assert(items_view(out@) =~= start + block(all.take(j + 1), group as nat));
    }
    assert(all.take(lines@.len() as int) =~= all);
}

/// All items of `sources` in emission order: the lines of source `i` in
/// group `i * group_score`, with a separator carrying the text `separator`
/// and the group of the source before it between each two sources.
pub fn produce_items(sources: &Vec<Vec<String>>, group_score: u16, separator: &str) -> (r: Result<
    Vec<CustomItem>,
    ConfigError,
>)
    ensures
        sources@.len() == 0 ==> r == Err::<Vec<CustomItem>, ConfigError>(ConfigError::NoSources),
        sources@.len() > 0 && group_score == 0 ==> r == Err::<Vec<CustomItem>, ConfigError>(
            ConfigError::ZeroGroupScore,
        ),
        sources@.len() > 0 && group_score > 0 && (sources@.len() - 1) * group_score > u16::MAX
            ==> r == Err::<Vec<CustomItem>, ConfigError>(ConfigError::GroupOverflow),
        r is Ok <==> valid_config(sources@.len(), group_score as nat),
        r matches Ok(items) ==> items_view(items@) == emission(
            sources_view(sources@),
            group_score as nat,
            separator@,
        ),
{
    let n = sources.len();
    let steps = match plan_sources(n, group_score) {
        Err(e) => { return Err(e); },
        Ok(steps) => steps,
    };
    let ghost srcs = sources_view(sources@);
    let ghost gs = group_score as nat;
    let mut out: Vec<CustomItem> = Vec::new();
    assert(items_view(out@) =~= Seq::<ItemView>::empty());
    let len = steps.len();
    for t in 0..len
        invariant
            len == steps@.len(),
            steps@ == plan_spec(n as nat, gs),
            n == sources@.len(),
            n > 0,
            valid_config(n as nat, gs),
            srcs == sources_view(sources@),
            gs == group_score as nat,
            items_view(out@) == emitted_after(srcs, t as nat, gs, separator@),
    {
        let ghost k = (t / 2) as nat;
        proof {
            lemma_step_group_fits(t as int, n as nat, gs);
        }
        match steps[t] {
            Step::Source { index, group } => {
                assert(srcs[index as int] == sources@[index as int]@.map_values(|l: String| l@));
                push_lines(&mut out, &sources[index], group);
                assert(items_view(out@) =~= emitted_after(srcs, (t + 1) as nat, gs, separator@));
            },
            Step::Separator { group } => {
                let text = separator.to_owned();
                let ghost before = out@;
                out.push(CustomItem::separator(group, text));
                assert(items_view(out@) =~= items_view(before).push(
                    separator_view(k * gs, separator@),
                ));
                assert(k + 1 < n);
                assert(segment(srcs, k, gs, separator@) =~= block(srcs[k as int], k * gs).push(
                    separator_view(k * gs, separator@),
                ));
                assert(items_view(out@) =~= emitted_after(srcs, (t + 1) as nat, gs, separator@));
            },
        }
    }
    assert(segment(srcs, (n - 1) as nat, gs, separator@) =~= block(
        srcs[n - 1],
        ((n - 1) as nat) * gs,
    ));
    assert(items_view(out@) =~= emission(srcs, gs, separator@));
    Ok(out)
}

} // verus!
