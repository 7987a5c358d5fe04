//! Reordering the texts of a batch changes no text's model input: each text
//! lands in a sub-batch of the same width, so its row of padded token ids,
//! mask and type ids is the same whatever the order of the batch.
use vstd::prelude::*;

use crate::batching::{
    group_max, is_length_order, is_plan_for, is_sub_batching, join, lemma_join_position, lens_of,
    padded_row, precedes, views, BatchPlan, TokenEncoding,
};

verus! {

/// `s` taken at the indices of `a`, in the order of `a`.
pub open spec fn compose(s: Seq<usize>, a: Seq<usize>) -> Seq<usize> {
    Seq::new(a.len(), |i: int| s[a[i] as int])
}

/// `p` lists each of the indices `0..p.len()` exactly once.
pub open spec fn is_index_permutation(p: Seq<usize>) -> bool {
    &&& forall|i: int| 0 <= i < p.len() ==> #[trigger] p[i] < p.len()
    &&& forall|a: int, b: int| 0 <= a < p.len() && 0 <= b < p.len() && a != b ==> #[trigger] p[a] != #[trigger] p[b]
}

/// Position of the first entry of the sub-batch that holds position `q` of
/// the ordered token counts `s`: a sub-batch starts where a count exceeds
/// twice the count at the start of the previous one.
pub open spec fn leader_pos(s: Seq<usize>, q: int) -> int
    decreases q,
{
    if q <= 0 {
        0
    } else {
        let l = leader_pos(s, q - 1);
        if s[q] > 2 * s[l] {
            q
        } else {
            l
        }
    }
}

/// Position of the last entry of the sub-batch that holds position `q`.
pub open spec fn group_last(s: Seq<usize>, q: int) -> int
    decreases s.len() - q,
{
    if 0 <= q && q + 1 < s.len() && leader_pos(s, q + 1) == leader_pos(s, q) {
        group_last(s, q + 1)
    } else {
        q
    }
}

proof fn lemma_distinct_covers(s: Seq<usize>, k: int)
    requires
        is_index_permutation(s),
        0 <= k < s.len(),
    ensures
        exists|i: int| 0 <= i < s.len() && s[i] == k,
{
    let t = s.map_values(|x: usize| x as int);
    assert forall|a: int, b: int| 0 <= a < t.len() && 0 <= b < t.len() && a != b implies t[a]
        != t[b] by {
        assert(s[a] != s[b]);
    }
    t.unique_seq_to_set();
    let range = vstd::set_lib::set_int_range(0, s.len() as int);
    vstd::set_lib::lemma_int_range(0, s.len() as int);
    assert forall|x: int| t.to_set().contains(x) implies range.contains(x) by {
        let i = choose|i: int| 0 <= i < t.len() && t[i] == x;
        assert(s[i] < s.len());
    }
    vstd::seq_lib::seq_to_set_is_finite(t);
    vstd::set_lib::lemma_subset_equality(t.to_set(), range);
    assert(range.contains(k));
    assert(t.to_set().contains(k));
    let i = choose|i: int| 0 <= i < t.len() && t[i] == k;
    assert(s[i] == k);
}

/// Taking a sequence in the order of an index permutation keeps its elements.
pub proof fn lemma_compose_same_elements(s: Seq<usize>, a: Seq<usize>)
    requires
        is_index_permutation(a),
        a.len() == s.len(),
    ensures
        compose(s, a).to_multiset() == s.to_multiset(),
    decreases s.len(),
{
    broadcast use vstd::seq_lib::group_to_multiset_ensures;
    broadcast use vstd::multiset::group_multiset_axioms;

    let n = s.len() as int;
    if n == 0 {
        assert(compose(s, a) =~= s);
        return;
    }
    lemma_distinct_covers(a, n - 1);
    let j = choose|j: int| 0 <= j < a.len() && a[j] == n - 1;
    let a2 = a.remove(j);
    let s2 = s.drop_last();
    assert forall|i: int| 0 <= i < a2.len() implies #[trigger] a2[i] < a2.len() by {
        if i < j {
            assert(a[i] != a[j]);
        } else {
            assert(a[i + 1] != a[j]);
        }
    }
    assert forall|x: int, y: int|
        0 <= x < a2.len() && 0 <= y < a2.len() && x != y implies #[trigger] a2[x] != #[trigger] a2[y] by {
        let x1 = if x < j { x } else { x + 1 };
        let y1 = if y < j { y } else { y + 1 };
        assert(a[x1] != a[y1]);
    }
    lemma_compose_same_elements(s2, a2);
    let c = compose(s, a);
    assert(c.remove(j) =~= compose(s2, a2));
    assert(c[j] == s[n - 1]);
    assert(c.remove(j).to_multiset() == c.to_multiset().remove(c[j]));
    assert(c.to_multiset().count(c[j]) > 0) by {
        assert(c.contains(c[j]));
    }
    assert(c.to_multiset() =~= c.to_multiset().remove(c[j]).insert(c[j]));
    assert(s =~= s2.push(s[n - 1]));
    assert(s.to_multiset() =~= s2.to_multiset().insert(s[n - 1]));
}

/// Token counts in the order of a plan.
pub open spec fn ordered_lens(lens: Seq<usize>, order: Seq<usize>) -> Seq<usize> {
    compose(lens, order)
}

/// `s` never decreases.
pub open spec fn nondecreasing(s: Seq<usize>) -> bool {
    forall|x: int, y: int| 0 <= x <= y < s.len() ==> s[x] <= s[y]
}

proof fn lemma_ordered_lens_nondecreasing(lens: Seq<usize>, order: Seq<usize>)
    requires
        is_length_order(lens, order),
    ensures
        nondecreasing(ordered_lens(lens, order)),
{
    assert forall|x: int, y: int| 0 <= x <= y < order.len() implies ordered_lens(lens, order)[x]
        <= ordered_lens(lens, order)[y] by {
        if x < y {
            assert(precedes(lens, order[x], order[y]));
        }
    }
}

proof fn lemma_leader_bounds(s: Seq<usize>, q: int)
    requires
        0 <= q < s.len(),
    ensures
        0 <= leader_pos(s, q) <= q,
        s[q] <= 2 * s[leader_pos(s, q)],
    decreases q,
{
    if q > 0 {
        lemma_leader_bounds(s, q - 1);
    }
}

/// In a sub-batching of a length order, every position's sub-batch starts
/// at `leader_pos`.
proof fn lemma_leader_is_start(
    lens: Seq<usize>,
    order: Seq<usize>,
    groups: Seq<Seq<usize>>,
    b: int,
    j: int,
)
    requires
        is_length_order(lens, order),
        is_sub_batching(order, lens, groups),
        0 <= b < groups.len(),
        0 <= j < groups[b].len(),
    ensures
        leader_pos(ordered_lens(lens, order), join(groups.take(b)).len() + j) == join(
            groups.take(b),
        ).len(),
    decreases join(groups.take(b)).len() + j,
{
    let s = ordered_lens(lens, order);
    let st = join(groups.take(b)).len() as int;
    lemma_join_position(groups, b, j);
    lemma_join_position(groups, b, 0);
    assert(s[st + j] == lens[groups[b][j] as int]);
    assert(s[st] == lens[groups[b][0] as int]);
    if j > 0 {
        lemma_leader_is_start(lens, order, groups, b, j - 1);
    } else if b > 0 {
        let prev = groups[b - 1].len() - 1;
        assert(groups.take(b).drop_last() =~= groups.take(b - 1));
        assert(groups.take(b).last() == groups[b - 1]);
        let st1 = join(groups.take(b - 1)).len() as int;
        assert(st == st1 + groups[b - 1].len());
        lemma_leader_is_start(lens, order, groups, b - 1, prev);
        lemma_join_position(groups, b - 1, 0);
        assert(s[st1] == lens[groups[b - 1][0] as int]);
        assert(lens[groups[b][0] as int] > 2 * lens[groups[b - 1][0] as int]);
    } else {
        assert(groups.take(0) =~= Seq::<Seq<usize>>::empty());
    }
}

/// In a sub-batching of a length order, every position's sub-batch ends at
/// `group_last`.
proof fn lemma_group_last_is_end(
    lens: Seq<usize>,
    order: Seq<usize>,
    groups: Seq<Seq<usize>>,
    b: int,
    j: int,
)
    requires
        is_length_order(lens, order),
        is_sub_batching(order, lens, groups),
        0 <= b < groups.len(),
        0 <= j < groups[b].len(),
    ensures
        group_last(ordered_lens(lens, order), join(groups.take(b)).len() + j) == join(
            groups.take(b),
        ).len() + groups[b].len() - 1,
    decreases groups[b].len() - j,
{
    let s = ordered_lens(lens, order);
    let st = join(groups.take(b)).len() as int;
    let q = st + j;
    lemma_join_position(groups, b, j);
    lemma_leader_is_start(lens, order, groups, b, j);
    if j + 1 < groups[b].len() {
        lemma_join_position(groups, b, j + 1);
        lemma_leader_is_start(lens, order, groups, b, j + 1);
        lemma_group_last_is_end(lens, order, groups, b, j + 1);
    } else if b + 1 < groups.len() {
        assert(groups.take(b + 1).drop_last() =~= groups.take(b));
        assert(groups.take(b + 1).last() == groups[b]);
        assert(join(groups.take(b + 1)).len() == q + 1);
        lemma_join_position(groups, b + 1, 0);
        lemma_leader_is_start(lens, order, groups, b + 1, 0);
    } else {
        assert(groups.take(b + 1) =~= groups);
        assert(groups.take(b + 1).drop_last() =~= groups.take(b));
        assert(join(groups).len() == q + 1);
    }
}

proof fn lemma_group_max_of_sorted(lens: Seq<usize>, m: Seq<usize>)
    requires
        m.len() > 0,
        forall|x: int, y: int| 0 <= x <= y < m.len() ==> lens[m[x] as int] <= lens[m[y] as int],
    ensures
        group_max(lens, m) == lens[m.last() as int],
    decreases m.len(),
{
    if m.len() > 1 {
        let r = m.drop_last();
        assert forall|x: int, y: int| 0 <= x <= y < r.len() implies lens[r[x] as int] <= lens[r[y] as int] by {
            assert(r[x] == m[x] && r[y] == m[y]);
        }
        lemma_group_max_of_sorted(lens, r);
        assert(r.last() == m[m.len() - 2]);
        assert(lens[m[m.len() - 2] as int] <= lens[m[m.len() - 1] as int]);
        assert(m.last() == m[m.len() - 1]);
    } else {
        assert(m.drop_last().len() == 0);
        assert(group_max(lens, m.drop_last()) == 0);
    }
}

/// The width of a sub-batch is the token count at its last position.
proof fn lemma_width_is_last(
    lens: Seq<usize>,
    order: Seq<usize>,
    groups: Seq<Seq<usize>>,
    b: int,
)
    requires
        is_length_order(lens, order),
        is_sub_batching(order, lens, groups),
        0 <= b < groups.len(),
    ensures
        group_max(lens, groups[b]) == ordered_lens(lens, order)[join(groups.take(b)).len()
            + groups[b].len() - 1],
{
    let m = groups[b];
    let st = join(groups.take(b)).len() as int;
    assert forall|x: int, y: int| 0 <= x <= y < m.len() implies lens[m[x] as int] <= lens[m[y] as int] by {
        lemma_join_position(groups, b, x);
        lemma_join_position(groups, b, y);
        if x < y {
            assert(precedes(lens, order[st + x], order[st + y]));
        }
    }
    lemma_group_max_of_sorted(lens, m);
    lemma_join_position(groups, b, m.len() - 1);
}

/// Positions holding equal counts of a non-decreasing sequence share their
/// sub-batch's end.
proof fn lemma_equal_counts_same_end(s: Seq<usize>, q1: int, q2: int)
    requires
        nondecreasing(s),
        0 <= q1 <= q2 < s.len(),
        s[q1] == s[q2],
    ensures
        leader_pos(s, q2) == leader_pos(s, q1),
        group_last(s, q1) == group_last(s, q2),
    decreases q2 - q1,
{
    if q1 < q2 {
        lemma_leader_bounds(s, q1);
        assert(s[q1] <= s[q1 + 1] && s[q1 + 1] <= s[q2]);
        assert(leader_pos(s, q1 + 1) == leader_pos(s, q1));
        lemma_equal_counts_same_end(s, q1 + 1, q2);
    }
}

proof fn lemma_length_order_is_permutation(lens: Seq<usize>, order: Seq<usize>)
    requires
        is_length_order(lens, order),
    ensures
        is_index_permutation(order),
{
    assert forall|a: int, b: int|
        0 <= a < order.len() && 0 <= b < order.len() && a != b implies #[trigger] order[a]
        != #[trigger] order[b] by {
        if a < b {
            assert(precedes(lens, order[a], order[b]));
        } else {
            assert(precedes(lens, order[b], order[a]));
        }
    }
}

/// The token counts of a batch in plan order are the same for any reordering
/// of the batch.
proof fn lemma_reordered_same_ordered_lens(
    lens1: Seq<usize>,
    order1: Seq<usize>,
    lens2: Seq<usize>,
    order2: Seq<usize>,
    p: Seq<usize>,
)
    requires
        is_index_permutation(p),
        lens1.len() == p.len(),
        lens2 == compose(lens1, p),
        is_length_order(lens1, order1),
        is_length_order(lens2, order2),
    ensures
        ordered_lens(lens1, order1) == ordered_lens(lens2, order2),
{
    let s1 = ordered_lens(lens1, order1);
    let s2 = ordered_lens(lens2, order2);
    lemma_length_order_is_permutation(lens1, order1);
    lemma_length_order_is_permutation(lens2, order2);
    lemma_compose_same_elements(lens1, order1);
    lemma_compose_same_elements(lens2, order2);
    lemma_compose_same_elements(lens1, p);
    lemma_ordered_lens_nondecreasing(lens1, order1);
    lemma_ordered_lens_nondecreasing(lens2, order2);
    let leq = |x: usize, y: usize| x <= y;
    assert(vstd::relations::total_ordering(leq)) by {
        assert(vstd::relations::reflexive(leq));
        assert(vstd::relations::antisymmetric(leq));
        assert(vstd::relations::transitive(leq));
        assert(vstd::relations::strongly_connected(leq));
    }
    assert(vstd::relations::sorted_by(s1, leq)) by {
        assert forall|i: int, j: int| 0 <= i < j < s1.len() implies #[trigger] leq(s1[i], s1[j]) by {
        }
    }
    assert(vstd::relations::sorted_by(s2, leq)) by {
        assert forall|i: int, j: int| 0 <= i < j < s2.len() implies #[trigger] leq(s2[i], s2[j]) by {
        }
    }
    vstd::seq_lib::lemma_sorted_unique(s1, s2, leq);
}

/// Reordering a batch keeps each text's sub-batch width. When `lens2` is
/// `lens1` taken in the order of the permutation `p` (text `k` of the second
/// batch is text `p[k]` of the first), the sub-batch that holds text `k` in
/// a plan of the second batch is exactly as wide as the one that holds text
/// `p[k]` in a plan of the first: each text is padded to the same length, so
/// the model sees the same input row for it in both.
pub proof fn lemma_reordered_batch_same_width(
    lens1: Seq<usize>,
    order1: Seq<usize>,
    groups1: Seq<Seq<usize>>,
    lens2: Seq<usize>,
    order2: Seq<usize>,
    groups2: Seq<Seq<usize>>,
    p: Seq<usize>,
    b1: int,
    j1: int,
    b2: int,
    j2: int,
)
    requires
        is_index_permutation(p),
        lens1.len() == p.len(),
        lens2 == compose(lens1, p),
        is_length_order(lens1, order1),
        is_sub_batching(order1, lens1, groups1),
        is_length_order(lens2, order2),
        is_sub_batching(order2, lens2, groups2),
        0 <= b1 < groups1.len(),
        0 <= j1 < groups1[b1].len(),
        0 <= b2 < groups2.len(),
        0 <= j2 < groups2[b2].len(),
        groups1[b1][j1] == p[groups2[b2][j2] as int],
    ensures
        group_max(lens2, groups2[b2]) == group_max(lens1, groups1[b1]),
{
    lemma_reordered_same_ordered_lens(lens1, order1, lens2, order2, p);
    let s = ordered_lens(lens1, order1);
    assert(s == ordered_lens(lens2, order2));
    let st1 = join(groups1.take(b1)).len() as int;
    let st2 = join(groups2.take(b2)).len() as int;
    lemma_join_position(groups1, b1, j1);
    lemma_join_position(groups2, b2, j2);
    let k = groups2[b2][j2] as int;
    crate::batching::lemma_plan_positions(lens2, order2, groups2);
    assert(s[st2 + j2] == lens2[k]);
    assert(s[st1 + j1] == lens1[p[k] as int]);
    lemma_ordered_lens_nondecreasing(lens1, order1);
    if st1 + j1 <= st2 + j2 {
        lemma_equal_counts_same_end(s, st1 + j1, st2 + j2);
    } else {
        lemma_equal_counts_same_end(s, st2 + j2, st1 + j1);
    }
    lemma_group_last_is_end(lens1, order1, groups1, b1, j1);
    lemma_group_last_is_end(lens2, order2, groups2, b2, j2);
    lemma_width_is_last(lens1, order1, groups1, b1);
    lemma_width_is_last(lens2, order2, groups2, b2);
}

/// Row `r` of a row-major table whose rows have `w` columns.
pub open spec fn table_row(cells: Seq<i64>, r: int, w: int) -> Seq<i64> {
    cells.subrange(r * w, r * w + w)
}

proof fn lemma_join_rows(rows: Seq<Seq<i64>>, w: int, r: int)
    requires
        w >= 0,
        forall|i: int| 0 <= i < rows.len() ==> #[trigger] rows[i].len() == w,
        0 <= r < rows.len(),
    ensures
        join(rows).len() == rows.len() * w,
        table_row(join(rows), r, w) == rows[r],
    decreases rows.len(),
{
    let m = rows.len() as int;
    let front = rows.drop_last();
    assert(front.len() == m - 1);
    if m > 1 {
        lemma_join_rows(front, w, 0);
        assert(join(front).len() == front.len() * w);
    } else {
        assert(front.len() == 0);
        assert(join(front) =~= Seq::<i64>::empty());
        assert((m - 1) * w == 0) by (nonlinear_arith)
            requires
                m == 1,
        ;
    }
    assert(join(front).len() == (m - 1) * w);
    assert(rows.last().len() == w);
    assert(join(rows).len() == (m - 1) * w + w);
    assert((m - 1) * w + w == m * w) by (nonlinear_arith);
    if r < m - 1 {
        lemma_join_rows(front, w, r);
        assert(r * w + w <= (m - 1) * w) by (nonlinear_arith)
            requires
                r < m - 1,
                w >= 0,
        ;
        assert(0 <= r * w) by (nonlinear_arith)
            requires
                r >= 0,
                w >= 0,
        ;
        assert(table_row(join(rows), r, w) =~= table_row(join(front), r, w));
    } else {
        assert(table_row(join(rows), r, w) =~= rows.last());
    }
}

/// Reordering a batch changes no text's model input. When the encodings
/// `encs2` are `encs1` taken in the order of the permutation `p` (text `k` of
/// the second batch is text `p[k]` of the first), then in plans of the two
/// batches text `k` and text `p[k]` sit in sub-batches of the same width, and
/// their rows of padded token ids, attention mask and token type ids are the
/// same.
pub proof fn lemma_reordered_batch_same_inputs(
    encs1: Seq<TokenEncoding>,
    encs2: Seq<TokenEncoding>,
    p: Seq<usize>,
    plan1: BatchPlan,
    plan2: BatchPlan,
    b1: int,
    j1: int,
    b2: int,
    j2: int,
)
    requires
        is_index_permutation(p),
        encs1.len() == p.len(),
        encs2.len() == p.len(),
        forall|k: int| 0 <= k < p.len() ==> #[trigger] encs2[k] == encs1[p[k] as int],
        is_plan_for(encs1, plan1),
        is_plan_for(encs2, plan2),
        0 <= b1 < plan1.sub_batches@.len(),
        0 <= j1 < plan1.sub_batches@[b1]@.len(),
        0 <= b2 < plan2.sub_batches@.len(),
        0 <= j2 < plan2.sub_batches@[b2]@.len(),
        plan1.sub_batches@[b1]@[j1] == p[plan2.sub_batches@[b2]@[j2] as int],
    ensures
        plan2.inputs@[b2].max_len == plan1.inputs@[b1].max_len,
        ({
            let w = plan1.inputs@[b1].max_len as int;
            &&& table_row(plan2.inputs@[b2].input_ids@, j2, w) == table_row(
                plan1.inputs@[b1].input_ids@,
                j1,
                w,
            )
            &&& table_row(plan2.inputs@[b2].attention_mask@, j2, w) == table_row(
                plan1.inputs@[b1].attention_mask@,
                j1,
                w,
            )
            &&& table_row(plan2.inputs@[b2].token_type_ids@, j2, w) == table_row(
                plan1.inputs@[b1].token_type_ids@,
                j1,
                w,
            )
        }),
{
    let lens1 = lens_of(encs1);
    let lens2 = lens_of(encs2);
    assert(lens2 =~= compose(lens1, p));
    let g1 = views(plan1.sub_batches@);
    let g2 = views(plan2.sub_batches@);
    assert(g1[b1] == plan1.sub_batches@[b1]@);
    assert(g2[b2] == plan2.sub_batches@[b2]@);
    lemma_reordered_batch_same_width(
        lens1,
        plan1.order@,
        g1,
        lens2,
        plan2.order@,
        g2,
        p,
        b1,
        j1,
        b2,
        j2,
    );
    let w = group_max(lens1, g1[b1]) as int;
    let m1 = g1[b1];
    let m2 = g2[b2];
    crate::batching::lemma_plan_positions(lens1, plan1.order@, g1);
    crate::batching::lemma_plan_positions(lens2, plan2.order@, g2);
    let k = m2[j2] as int;
    assert(encs2[k] == encs1[m1[j1] as int]);
    let ids1 = Seq::new(
        m1.len(),
        |r: int| padded_row(encs1[m1[r] as int].ids@, encs1[m1[r] as int].ids@.len() as int, w),
    );
    let ids2 = Seq::new(
        m2.len(),
        |r: int| padded_row(encs2[m2[r] as int].ids@, encs2[m2[r] as int].ids@.len() as int, w),
    );
    let masks1 = Seq::new(
        m1.len(),
        |r: int|
            padded_row(encs1[m1[r] as int].attention_mask@, encs1[m1[r] as int].ids@.len() as int, w),
    );
    let masks2 = Seq::new(
        m2.len(),
        |r: int|
            padded_row(encs2[m2[r] as int].attention_mask@, encs2[m2[r] as int].ids@.len() as int, w),
    );
    let types1 = Seq::new(
        m1.len(),
        |r: int|
            padded_row(encs1[m1[r] as int].type_ids@, encs1[m1[r] as int].ids@.len() as int, w),
    );
    let types2 = Seq::new(
        m2.len(),
        |r: int|
            padded_row(encs2[m2[r] as int].type_ids@, encs2[m2[r] as int].ids@.len() as int, w),
    );
    lemma_join_rows(ids1, w, j1);
    lemma_join_rows(ids2, w, j2);
    lemma_join_rows(masks1, w, j1);
    lemma_join_rows(masks2, w, j2);
    lemma_join_rows(types1, w, j1);
    lemma_join_rows(types2, w, j2);
}

} // verus!
