use vstd::prelude::*;
use crate::errors::StatsError;
use crate::group::{AggregatedData, Group, GroupDataView, StatsModel};
use crate::group::groups_view;
use crate::text::str_eq;

verus! {

/// The metric the groups can be ordered by.
#[derive(Clone, Copy, Debug, PartialEq, Eq, Structural)]
pub enum SortSpotifyDataBy {
    AutoPlayPct,
    ClickPct,
    PlayCount,
    ShufflePct,
    SkipPct,
    TotalListenTime,
}

/// The numerator of a percentage fraction, under the convention that a zero
/// denominator means a zero percentage.
pub open spec fn frac_num(count: int, valid: int) -> int {
    if valid <= 0 {
        0
    } else {
        count
    }
}

/// The (always positive) denominator of a percentage fraction.
pub open spec fn frac_den(count: int, valid: int) -> int {
    if valid <= 0 {
        1
    } else {
        valid
    }
}

/// Exact ordering of two percentage fractions, by cross-multiplication:
/// `count1/valid1 <= count2/valid2`, with a zero denominator read as a zero
/// percentage. This is a total order; no rounding is involved.
pub open spec fn frac_le(count1: int, valid1: int, count2: int, valid2: int) -> bool {
    frac_num(count1, valid1) * frac_den(count2, valid2) <= frac_num(count2, valid2) * frac_den(
        count1,
        valid1,
    )
}

/// The ascending order the metric puts on group statistics.
pub open spec fn metric_le(sort_by: SortSpotifyDataBy, a: StatsModel, b: StatsModel) -> bool {
    match sort_by {
        SortSpotifyDataBy::TotalListenTime => a.ms_played <= b.ms_played,
        SortSpotifyDataBy::PlayCount => a.play_count <= b.play_count,
        SortSpotifyDataBy::ClickPct => frac_le(
            a.click_count,
            a.click_valid_plays,
            b.click_count,
            b.click_valid_plays,
        ),
        SortSpotifyDataBy::ShufflePct => frac_le(
            a.shuffle_count,
            a.shuffle_valid_plays,
            b.shuffle_count,
            b.shuffle_valid_plays,
        ),
        SortSpotifyDataBy::SkipPct => frac_le(
            a.skip_count,
            a.skip_valid_plays,
            b.skip_count,
            b.skip_valid_plays,
        ),
        SortSpotifyDataBy::AutoPlayPct => frac_le(
            a.autoplay_count,
            a.autoplay_valid_plays,
            b.autoplay_count,
            b.autoplay_valid_plays,
        ),
    }
}

/// The order on groups: the metric order on their statistics, flipped when
/// sorting descending.
pub open spec fn group_le(
    sort_by: SortSpotifyDataBy,
    descending: bool,
    a: GroupDataView,
    b: GroupDataView,
) -> bool {
    if descending {
        metric_le(sort_by, b.aggregated_data, a.aggregated_data)
    } else {
        metric_le(sort_by, a.aggregated_data, b.aggregated_data)
    }
}

/// The metric order is total.
pub proof fn lemma_metric_le_total(sort_by: SortSpotifyDataBy, a: StatsModel, b: StatsModel)
    ensures
        metric_le(sort_by, a, b) || metric_le(sort_by, b, a),
{
}

/// Fraction ordering is transitive (the denominators are positive).
proof fn lemma_frac_le_trans(
    count1: int,
    valid1: int,
    count2: int,
    valid2: int,
    count3: int,
    valid3: int,
)
    requires
        frac_le(count1, valid1, count2, valid2),
        frac_le(count2, valid2, count3, valid3),
    ensures
        frac_le(count1, valid1, count3, valid3),
{
    let n1 = frac_num(count1, valid1);
    let d1 = frac_den(count1, valid1);
    let n2 = frac_num(count2, valid2);
    let d2 = frac_den(count2, valid2);
    let n3 = frac_num(count3, valid3);
    let d3 = frac_den(count3, valid3);
    assert(n1 * d3 <= n3 * d1) by (nonlinear_arith)
        requires
            n1 * d2 <= n2 * d1,
            n2 * d3 <= n3 * d2,
            d1 >= 1,
            d2 >= 1,
            d3 >= 1,
    ;
}

/// The metric order is transitive.
pub proof fn lemma_metric_le_trans(
    sort_by: SortSpotifyDataBy,
    a: StatsModel,
    b: StatsModel,
    c: StatsModel,
)
    requires
        metric_le(sort_by, a, b),
        metric_le(sort_by, b, c),
    ensures
        metric_le(sort_by, a, c),
{
    match sort_by {
        SortSpotifyDataBy::TotalListenTime => {},
        SortSpotifyDataBy::PlayCount => {},
        SortSpotifyDataBy::ClickPct => {
            lemma_frac_le_trans(
                a.click_count,
                a.click_valid_plays,
                b.click_count,
                b.click_valid_plays,
                c.click_count,
                c.click_valid_plays,
            );
        },
        SortSpotifyDataBy::ShufflePct => {
            lemma_frac_le_trans(
                a.shuffle_count,
                a.shuffle_valid_plays,
                b.shuffle_count,
                b.shuffle_valid_plays,
                c.shuffle_count,
                c.shuffle_valid_plays,
            );
        },
        SortSpotifyDataBy::SkipPct => {
            lemma_frac_le_trans(
                a.skip_count,
                a.skip_valid_plays,
                b.skip_count,
                b.skip_valid_plays,
                c.skip_count,
                c.skip_valid_plays,
            );
        },
        SortSpotifyDataBy::AutoPlayPct => {
            lemma_frac_le_trans(
                a.autoplay_count,
                a.autoplay_valid_plays,
                b.autoplay_count,
                b.autoplay_valid_plays,
                c.autoplay_count,
                c.autoplay_valid_plays,
            );
        },
    }
}

/// Sortedness under the chosen metric and direction.
pub open spec fn sorted_by_metric(
    sort_by: SortSpotifyDataBy,
    descending: bool,
    s: Seq<GroupDataView>,
) -> bool {
    forall|i: int, j: int|
        0 <= i <= j < s.len() ==> group_le(sort_by, descending, #[trigger] s[i], #[trigger] s[j])
}

/// Stable insertion of one group into a sorted run: the new group lands
/// after every group whose key is less than or equal to its own, so equal
/// keys keep their arrival order.
pub open spec fn insert_sorted_spec(
    sort_by: SortSpotifyDataBy,
    descending: bool,
    g: GroupDataView,
    s: Seq<GroupDataView>,
) -> Seq<GroupDataView>
    decreases s.len(),
{
    if s.len() == 0 {
        seq![g]
    } else if group_le(sort_by, descending, s.last(), g) {
        s.push(g)
    } else {
        insert_sorted_spec(sort_by, descending, g, s.drop_last()).push(s.last())
    }
}

/// The stable sort of a group sequence by the chosen metric and direction:
/// groups are inserted in arrival order, each after all keys less than or
/// equal to its own.
pub open spec fn sort_by_metric(
    sort_by: SortSpotifyDataBy,
    descending: bool,
    s: Seq<GroupDataView>,
) -> Seq<GroupDataView>
    decreases s.len(),
{
    if s.len() == 0 {
        Seq::empty()
    } else {
        insert_sorted_spec(
            sort_by,
            descending,
            s.last(),
            sort_by_metric(sort_by, descending, s.drop_last()),
        )
    }
}

/// Inserting into a sorted run keeps it sorted and adds exactly the new
/// group.
pub proof fn lemma_insert_sorted_spec_ensures(
    sort_by: SortSpotifyDataBy,
    descending: bool,
    g: GroupDataView,
    s: Seq<GroupDataView>,
)
    requires
        sorted_by_metric(sort_by, descending, s),
    ensures
        ({
            let t = insert_sorted_spec(sort_by, descending, g, s);
            &&& sorted_by_metric(sort_by, descending, t)
            &&& t.len() == s.len() + 1
            &&& t.to_multiset() == s.to_multiset().insert(g)
        }),
    decreases s.len(),
{
    broadcast use vstd::seq_lib::group_to_multiset_ensures;

    let t = insert_sorted_spec(sort_by, descending, g, s);
    if s.len() == 0 {
        assert(t =~= Seq::empty().push(g));
        assert(t.to_multiset() =~= s.to_multiset().insert(g));
        assert forall|i: int, j: int| 0 <= i <= j < t.len() implies group_le(
            sort_by,
            descending,
            #[trigger] t[i],
            #[trigger] t[j],
        ) by {
            lemma_metric_le_total(sort_by, g.aggregated_data, g.aggregated_data);
        }
    } else if group_le(sort_by, descending, s.last(), g) {
        assert(t == s.push(g));
        assert forall|i: int, j: int| 0 <= i <= j < t.len() implies group_le(
            sort_by,
            descending,
            #[trigger] t[i],
            #[trigger] t[j],
        ) by {
            if j == s.len() as int {
                if i == j {
                    lemma_metric_le_total(sort_by, g.aggregated_data, g.aggregated_data);
                } else {
                    assert(group_le(sort_by, descending, s[i], s[s.len() - 1]));
                    if descending {
                        lemma_metric_le_trans(
                            sort_by,
                            g.aggregated_data,
                            s[s.len() - 1].aggregated_data,
                            s[i].aggregated_data,
                        );
                    } else {
                        lemma_metric_le_trans(
                            sort_by,
                            s[i].aggregated_data,
                            s[s.len() - 1].aggregated_data,
                            g.aggregated_data,
                        );
                    }
                }
            }
        }
    } else {
        let front = s.drop_last();
        let last = s.last();
        assert(sorted_by_metric(sort_by, descending, front));
        lemma_insert_sorted_spec_ensures(sort_by, descending, g, front);
        let t0 = insert_sorted_spec(sort_by, descending, g, front);
        assert(t == t0.push(last));
        lemma_metric_le_total(
            sort_by,
            last.aggregated_data,
            g.aggregated_data,
        );
        assert(group_le(sort_by, descending, g, last));
        // every element of t0 is either from front or is g; all precede last
        assert forall|i: int, j: int| 0 <= i <= j < t.len() implies group_le(
            sort_by,
            descending,
            #[trigger] t[i],
            #[trigger] t[j],
        ) by {
            if j == t.len() - 1 {
                if i < j {
                    assert(t[i] == t0[i]);
                    assert(t0.to_multiset().count(t0[i]) > 0);
                    assert(t0.contains(t0[i]));
                    if front.to_multiset().count(t0[i]) > 0 {
                        let w = choose|w: int| 0 <= w < front.len() && front[w] == t0[i];
                        assert(group_le(sort_by, descending, front[w], s[s.len() - 1]));
                    } else {
                        assert(t0.to_multiset() == front.to_multiset().insert(g));
                        assert(t0[i] == g);
                    }
                } else {
                    lemma_metric_le_total(sort_by, last.aggregated_data, last.aggregated_data);
                }
            }
        }
        assert(s =~= front.push(last));
        assert(s.to_multiset() == front.to_multiset().insert(last));
        assert(t.to_multiset() == t0.to_multiset().insert(last));
        assert(t0.to_multiset() == front.to_multiset().insert(g));
        assert(front.to_multiset().insert(g).insert(last) =~= front.to_multiset().insert(
            last,
        ).insert(g));
    }
}

/// What the stable sort produces: a sorted permutation of its input.
pub proof fn lemma_sort_by_metric_ensures(
    sort_by: SortSpotifyDataBy,
    descending: bool,
    s: Seq<GroupDataView>,
)
    ensures
        ({
            let t = sort_by_metric(sort_by, descending, s);
            &&& sorted_by_metric(sort_by, descending, t)
            &&& t.len() == s.len()
            &&& t.to_multiset() == s.to_multiset()
        }),
    decreases s.len(),
{
    broadcast use vstd::seq_lib::group_to_multiset_ensures;

    if s.len() > 0 {
        lemma_sort_by_metric_ensures(sort_by, descending, s.drop_last());
        let front_sorted = sort_by_metric(sort_by, descending, s.drop_last());
        lemma_insert_sorted_spec_ensures(sort_by, descending, s.last(), front_sorted);
        assert(s.drop_last().push(s.last()) =~= s);
        assert(s.drop_last().to_multiset().insert(s.last()) == s.to_multiset());
    }
}

/// Where the stable insertion places the new group: right after the last
/// element whose key is less than or equal to the new one.
proof fn lemma_insert_position(
    sort_by: SortSpotifyDataBy,
    descending: bool,
    g: GroupDataView,
    s: Seq<GroupDataView>,
    pos: int,
)
    requires
        0 <= pos <= s.len(),
        pos == 0 || group_le(sort_by, descending, s[pos - 1], g),
        forall|k: int| pos <= k < s.len() ==> !group_le(sort_by, descending, #[trigger] s[k], g),
    ensures
        insert_sorted_spec(sort_by, descending, g, s) == s.subrange(0, pos) + seq![g]
            + s.subrange(pos, s.len() as int),
    decreases s.len(),
{
    if pos == s.len() {
        if s.len() == 0 {
            assert(s.subrange(0, 0) + seq![g] + s.subrange(0, 0) =~= seq![g]);
        } else {
            assert(group_le(sort_by, descending, s.last(), g));
            assert(s.subrange(0, pos) + seq![g] + s.subrange(pos, s.len() as int) =~= s.push(g));
        }
    } else {
        assert(!group_le(sort_by, descending, s.last(), g));
        let front = s.drop_last();
        lemma_insert_position(sort_by, descending, g, front, pos);
        assert(front.subrange(0, pos) =~= s.subrange(0, pos));
        assert(front.subrange(pos, front.len() as int) =~= s.subrange(pos, s.len() as int).drop_last());
        assert((front.subrange(0, pos) + seq![g] + front.subrange(pos, front.len() as int)).push(
            s.last(),
        ) =~= s.subrange(0, pos) + seq![g] + s.subrange(pos, s.len() as int));
    }
}

/// The position the stable insertion chooses, by the recursion it is
/// defined with.
proof fn lemma_insert_position_exists(
    sort_by: SortSpotifyDataBy,
    descending: bool,
    g: GroupDataView,
    s: Seq<GroupDataView>,
) -> (pos: int)
    ensures
        0 <= pos <= s.len(),
        pos == 0 || group_le(sort_by, descending, s[pos - 1], g),
        forall|k: int| pos <= k < s.len() ==> !group_le(sort_by, descending, #[trigger] s[k], g),
    decreases s.len(),
{
    if s.len() == 0 {
        0
    } else if group_le(sort_by, descending, s.last(), g) {
        s.len() as int
    } else {
        let front = s.drop_last();
        let p = lemma_insert_position_exists(sort_by, descending, g, front);
        assert forall|k: int| p <= k < s.len() implies !group_le(
            sort_by,
            descending,
            #[trigger] s[k],
            g,
        ) by {
            if k < s.len() - 1 {
                assert(s[k] == front[k]);
            }
        }
        p
    }
}

/// Inserting ascending and reversing is inserting descending into the
/// reversed run, provided the run is sorted and nothing in it ties with
/// the new group.
proof fn lemma_insert_reverse(sort_by: SortSpotifyDataBy, g: GroupDataView, s: Seq<GroupDataView>)
    requires
        sorted_by_metric(sort_by, false, s),
        forall|k: int|
            0 <= k < s.len() ==> !(group_le(sort_by, false, #[trigger] s[k], g) && group_le(
                sort_by,
                false,
                g,
                s[k],
            )),
    ensures
        insert_sorted_spec(sort_by, false, g, s).reverse() == insert_sorted_spec(
            sort_by,
            true,
            g,
            s.reverse(),
        ),
{
    let len = s.len() as int;
    let p = lemma_insert_position_exists(sort_by, false, g, s);
    lemma_insert_position(sort_by, false, g, s, p);
    let r = s.reverse();
    let q = len - p;
    if q > 0 {
        assert(r[q - 1] == s[p]);
        assert(!group_le(sort_by, false, s[p], g));
        lemma_metric_le_total(sort_by, s[p].aggregated_data, g.aggregated_data);
        assert(group_le(sort_by, true, r[q - 1], g));
    }
    assert forall|k: int| q <= k < len implies !group_le(sort_by, true, #[trigger] r[k], g) by {
        let j = len - 1 - k;
        assert(r[k] == s[j]);
        assert(0 <= j < p);
        assert(group_le(sort_by, false, s[p - 1], g));
        assert(group_le(sort_by, false, s[j], s[p - 1]));
        lemma_metric_le_trans(
            sort_by,
            s[j].aggregated_data,
            s[p - 1].aggregated_data,
            g.aggregated_data,
        );
        assert(group_le(sort_by, false, s[j], g));
        assert(!(group_le(sort_by, false, s[j], g) && group_le(sort_by, false, g, s[j])));
    }
    lemma_insert_position(sort_by, true, g, r, q);
    let asc_ins = insert_sorted_spec(sort_by, false, g, s);
    let desc_ins = insert_sorted_spec(sort_by, true, g, r);
    assert(asc_ins == s.subrange(0, p) + seq![g] + s.subrange(p, len));
    assert(desc_ins == r.subrange(0, q) + seq![g] + r.subrange(q, len));
    assert forall|i: int| 0 <= i < asc_ins.reverse().len() implies asc_ins.reverse()[i]
        == desc_ins[i] by {
        assert(asc_ins.reverse()[i] == asc_ins[len - i]);
        if i < q {
            assert(desc_ins[i] == r[i]);
            assert(r[i] == s[len - 1 - i]);
            assert(asc_ins[len - i] == s.subrange(p, len)[len - i - p - 1]);
        } else if i == q {
            assert(asc_ins[len - i] == g);
        } else {
            assert(desc_ins[i] == r.subrange(q, len)[i - q - 1]);
            assert(r[i - 1] == s[len - i]);
            assert(asc_ins[len - i] == s.subrange(0, p)[len - i]);
        }
    }
    assert(asc_ins.reverse() =~= desc_ins);
}

/// Sort/reverse equivalence: sorting ascending and reversing equals
/// sorting descending directly, whenever no two groups of the input tie on
/// the metric (with ties, the reversal also reverses the tied groups'
/// relative order, so the two stable orders differ exactly there).
pub proof fn lemma_sort_reverse_equivalence(sort_by: SortSpotifyDataBy, s: Seq<GroupDataView>)
    requires
        forall|i: int, j: int|
            0 <= i < j < s.len() ==> !(group_le(sort_by, false, #[trigger] s[i], #[trigger] s[j])
                && group_le(sort_by, false, s[j], s[i])),
    ensures
        sort_by_metric(sort_by, false, s).reverse() == sort_by_metric(sort_by, true, s),
    decreases s.len(),
{
    broadcast use vstd::seq_lib::group_to_multiset_ensures;

    if s.len() == 0 {
        assert(sort_by_metric(sort_by, false, s).reverse() =~= sort_by_metric(sort_by, true, s));
    } else {
        let front = s.drop_last();
        let x = s.last();
        let len = s.len() as int;
        assert(forall|i: int| 0 <= i < front.len() ==> #[trigger] front[i] == s[i]);
        lemma_sort_reverse_equivalence(sort_by, front);
        lemma_sort_by_metric_ensures(sort_by, false, front);
        let asc_front = sort_by_metric(sort_by, false, front);
        assert forall|k: int| 0 <= k < asc_front.len() implies !(group_le(
            sort_by,
            false,
            #[trigger] asc_front[k],
            x,
        ) && group_le(sort_by, false, x, asc_front[k])) by {
            assert(asc_front.contains(asc_front[k]));
            assert(asc_front.to_multiset().count(asc_front[k]) > 0);
            assert(front.to_multiset().count(asc_front[k]) > 0);
            assert(front.contains(asc_front[k]));
            let w = choose|w: int| 0 <= w < front.len() && front[w] == asc_front[k];
            assert(s[w] == asc_front[k]);
            assert(!(group_le(sort_by, false, s[w], s[len - 1]) && group_le(
                sort_by,
                false,
                s[len - 1],
                s[w],
            )));
        }
        lemma_insert_reverse(sort_by, x, asc_front);
        assert(asc_front.reverse() == sort_by_metric(sort_by, true, front));
    }
}

/// Exact comparison of two percentage fractions, by cross-multiplication
/// in 64 bits (the products of two 32-bit counts cannot overflow).
fn frac_le_exec(count1: u32, valid1: u32, count2: u32, valid2: u32) -> (r: bool)
    ensures
        r == frac_le(count1 as int, valid1 as int, count2 as int, valid2 as int),
{
    let n1: u64 = if valid1 == 0 { 0 } else { count1 as u64 };
    let d1: u64 = if valid1 == 0 { 1 } else { valid1 as u64 };
    let n2: u64 = if valid2 == 0 { 0 } else { count2 as u64 };
    let d2: u64 = if valid2 == 0 { 1 } else { valid2 as u64 };
    proof {
        assert(n1 * d2 <= u64::MAX && n2 * d1 <= u64::MAX) by (nonlinear_arith)
            requires
                n1 <= u32::MAX,
                d1 <= u32::MAX,
                n2 <= u32::MAX,
                d2 <= u32::MAX,
        ;
    }
    n1 * d2 <= n2 * d1
}

/// Compare two groups' statistics under the chosen metric.
fn metric_le_exec(sort_by: &SortSpotifyDataBy, a: &AggregatedData, b: &AggregatedData) -> (r: bool)
    ensures
        r == metric_le(*sort_by, a@, b@),
{
    match *sort_by {
        SortSpotifyDataBy::TotalListenTime => a.ms_played <= b.ms_played,
        SortSpotifyDataBy::PlayCount => a.play_count <= b.play_count,
        SortSpotifyDataBy::ClickPct => frac_le_exec(
            a.click_count,
            a.click_valid_plays,
            b.click_count,
            b.click_valid_plays,
        ),
        SortSpotifyDataBy::ShufflePct => frac_le_exec(
            a.shuffle_count,
            a.shuffle_valid_plays,
            b.shuffle_count,
            b.shuffle_valid_plays,
        ),
        SortSpotifyDataBy::SkipPct => frac_le_exec(
            a.skip_count,
            a.skip_valid_plays,
            b.skip_count,
            b.skip_valid_plays,
        ),
        SortSpotifyDataBy::AutoPlayPct => frac_le_exec(
            a.autoplay_count,
            a.autoplay_valid_plays,
            b.autoplay_count,
            b.autoplay_valid_plays,
        ),
    }
}

/// Compare two groups under the chosen metric and direction.
fn group_le_exec(sort_by: &SortSpotifyDataBy, descending: bool, a: &Group, b: &Group) -> (r: bool)
    ensures
        r == group_le(*sort_by, descending, a@, b@),
{
    if descending {
        metric_le_exec(sort_by, b.get_aggregated_data(), a.get_aggregated_data())
    } else {
        metric_le_exec(sort_by, a.get_aggregated_data(), b.get_aggregated_data())
    }
}

/// Insert one group into an already sorted run, keeping it sorted and
/// placing the new group after every key less than or equal to its own.
fn insert_sorted(
    sort_by: &SortSpotifyDataBy,
    descending: bool,
    groups: &mut Vec<Group>,
    new_group: Group,
)
    ensures
        groups_view(final(groups)@) == insert_sorted_spec(
            *sort_by,
            descending,
            new_group@,
            groups_view(old(groups)@),
        ),
{
    let ghost s = groups_view(old(groups)@);
    let mut pos: usize = groups.len();
    loop
        invariant
            groups@ == old(groups)@,
            s == groups_view(groups@),
            pos <= groups@.len(),
            forall|k: int|
                pos <= k < groups@.len() ==> !group_le(
                    *sort_by,
                    descending,
                    #[trigger] s[k],
                    new_group@,
                ),
        ensures
            groups@ == old(groups)@,
            pos <= groups@.len(),
            pos == 0 || group_le(*sort_by, descending, s[pos - 1], new_group@),
            forall|k: int|
                pos <= k < groups@.len() ==> !group_le(
                    *sort_by,
                    descending,
                    #[trigger] s[k],
                    new_group@,
                ),
        decreases pos,
    {
        if pos == 0 {
            break;
        }
        proof {
            assert(s[pos - 1] == groups@[pos - 1]@);
        }
        if group_le_exec(sort_by, descending, &groups[pos - 1], &new_group) {
            break;
        }
        pos = pos - 1;
    }
    proof {
        lemma_insert_position(*sort_by, descending, new_group@, s, pos as int);
    }
    let ghost pre = groups@;
    groups.insert(pos, new_group);
    proof {
        pre.insert_ensures(pos as int, new_group);
        let expected = s.subrange(0, pos as int) + seq![new_group@] + s.subrange(
            pos as int,
            s.len() as int,
        );
        assert forall|j: int| 0 <= j < groups@.len() implies #[trigger] groups_view(groups@)[j]
            == expected[j] by {
            assert(groups_view(groups@)[j] == groups@[j]@);
            if j < pos as int {
                assert(groups@[j] == pre[j]);
                assert(s[j] == pre[j]@);
            } else if j == pos as int {
                assert(groups@[j] == new_group);
            } else {
                assert(groups@[j] == pre[j - 1]);
                assert(s[j - 1] == pre[j - 1]@);
            }
        }
        assert(groups_view(groups@) =~= expected);
    }
}

/// Stable-sort the groups ascending by the chosen metric; when
/// `descending` is set, reverse the fully sorted sequence (a reversal of a
/// stable ascending sort, which is how a descending order is produced
/// here).
pub fn sort_grouped_data(
    grouped_data: &mut Vec<Group>,
    sort_by: SortSpotifyDataBy,
    descending: bool,
)
    ensures
        groups_view(final(grouped_data)@) == ({
            let ascending = sort_by_metric(sort_by, false, groups_view(old(grouped_data)@));
            if descending {
                ascending.reverse()
            } else {
                ascending
            }
        }),
{
    let ghost orig = groups_view(old(grouped_data)@);
    let mut sorted_data: Vec<Group> = Vec::new();
    let n = grouped_data.len();
    for idx in 0..n
        invariant
            grouped_data@ == old(grouped_data)@,
            n == grouped_data@.len(),
            orig == groups_view(grouped_data@),
            groups_view(sorted_data@) == sort_by_metric(sort_by, false, orig.take(idx as int)),
    {
        proof {
            assert(orig[idx as int] == grouped_data@[idx as int]@);
            assert(orig.take(idx as int + 1).drop_last() =~= orig.take(idx as int));
            assert(orig.take(idx as int + 1).last() == orig[idx as int]);
        }
        let g = grouped_data[idx].clone();
        insert_sorted(&sort_by, false, &mut sorted_data, g);
    }
    proof {
        assert(orig.take(n as int) =~= orig);
    }
    if descending {
        let ghost asc = sorted_data@;
        let mut reversed_data: Vec<Group> = Vec::new();
        while sorted_data.len() > 0
            invariant
                reversed_data@.len() <= asc.len(),
                sorted_data@ == asc.take(asc.len() - reversed_data@.len()),
                reversed_data@ == asc.skip(asc.len() - reversed_data@.len()).reverse(),
            decreases sorted_data@.len(),
        {
            let ghost m = asc.len() - reversed_data@.len();
            let g = sorted_data.pop().unwrap();
            reversed_data.push(g);
            proof {
                assert(g == asc[m - 1]);
                assert(asc.take(m).drop_last() =~= asc.take(m - 1));
                assert(reversed_data@ =~= asc.skip(m - 1).reverse());
            }
        }
        proof {
            assert(reversed_data@ =~= asc.reverse());
            assert forall|j: int| 0 <= j < reversed_data@.len() implies #[trigger] groups_view(
                reversed_data@,
            )[j] == groups_view(asc).reverse()[j] by {
                assert(groups_view(reversed_data@)[j] == reversed_data@[j]@);
                assert(reversed_data@[j] == asc[asc.len() - 1 - j]);
                assert(groups_view(asc)[asc.len() - 1 - j] == asc[asc.len() - 1 - j]@);
            }
            assert(groups_view(reversed_data@) =~= groups_view(asc).reverse());
        }
        *grouped_data = reversed_data;
    } else {
        *grouped_data = sorted_data;
    }
}

/// The sort metric named by a caller-supplied identifier, or the error for
/// an unrecognized one.
pub open spec fn parsed_sort_by(name: Seq<char>) -> Result<SortSpotifyDataBy, StatsError> {
    if name == "auto_play_pct"@ {
        Ok(SortSpotifyDataBy::AutoPlayPct)
    } else if name == "click_pct"@ {
        Ok(SortSpotifyDataBy::ClickPct)
    } else if name == "play_count"@ {
        Ok(SortSpotifyDataBy::PlayCount)
    } else if name == "shuffle_pct"@ {
        Ok(SortSpotifyDataBy::ShufflePct)
    } else if name == "skip_pct"@ {
        Ok(SortSpotifyDataBy::SkipPct)
    } else if name == "total_listening_time"@ {
        Ok(SortSpotifyDataBy::TotalListenTime)
    } else {
        Err(StatsError::InvalidSortMetric)
    }
}

impl SortSpotifyDataBy {
    /// The sort metric a caller-supplied identifier names. An unrecognized
    /// identifier is rejected, never coerced to a default.
    pub fn from_identifier(name: &str) -> (r: Result<SortSpotifyDataBy, StatsError>)
        ensures
            r == parsed_sort_by(name@),
    {
        if str_eq(name, "auto_play_pct") {
            Ok(SortSpotifyDataBy::AutoPlayPct)
        } else if str_eq(name, "click_pct") {
            Ok(SortSpotifyDataBy::ClickPct)
        } else if str_eq(name, "play_count") {
            Ok(SortSpotifyDataBy::PlayCount)
        } else if str_eq(name, "shuffle_pct") {
            Ok(SortSpotifyDataBy::ShufflePct)
        } else if str_eq(name, "skip_pct") {
            Ok(SortSpotifyDataBy::SkipPct)
        } else if str_eq(name, "total_listening_time") {
            Ok(SortSpotifyDataBy::TotalListenTime)
        } else {
            Err(StatsError::InvalidSortMetric)
        }
    }
}

} // verus!
