//! Planning of a batch embedding: texts are ordered by token count, split into
//! sub-batches whose longest member is at most twice as long as the shortest,
//! turned into padded model inputs, and the model's outputs are put back in the
//! order of the texts.
use vstd::prelude::*;

use crate::text::string_views;

verus! {

/// Concatenation of a sequence of sequences.
pub open spec fn join<A>(s: Seq<Seq<A>>) -> Seq<A>
    decreases s.len(),
{
    if s.len() == 0 {
        Seq::empty()
    } else {
        join(s.drop_last()) + s.last()
    }
}

/// Views of a vector of vectors.
pub open spec fn views<A>(v: Seq<Vec<A>>) -> Seq<Seq<A>> {
    v.map_values(|x: Vec<A>| x@)
}

/// Text `x` comes before text `y` in length order: fewer tokens first, and
/// among texts of equal length the earlier one first.
pub open spec fn precedes(lens: Seq<usize>, x: usize, y: usize) -> bool {
    lens[x as int] < lens[y as int] || (lens[x as int] == lens[y as int] && x < y)
}

/// `order` lists every text index exactly once, ordered by token count and,
/// among equal counts, by position (a stable sort by length).
pub open spec fn is_length_order(lens: Seq<usize>, order: Seq<usize>) -> bool {
    &&& order.len() == lens.len()
    &&& forall|k: int| 0 <= k < order.len() ==> #[trigger] order[k] < lens.len()
    &&& forall|a: int, b: int|
        0 <= a < b < order.len() ==> precedes(lens, #[trigger] order[a], #[trigger] order[b])
}

/// `groups` splits `sorted` into consecutive non-empty sub-batches, starting a
/// new one exactly where a text has more than twice the tokens of the first
/// text of the current sub-batch.
pub open spec fn is_sub_batching(
    sorted: Seq<usize>,
    lens: Seq<usize>,
    groups: Seq<Seq<usize>>,
) -> bool {
    &&& join(groups) == sorted
    &&& forall|b: int| 0 <= b < groups.len() ==> #[trigger] groups[b].len() > 0
    &&& forall|b: int, j: int|
        0 <= b < groups.len() && 1 <= j < groups[b].len() ==> lens[#[trigger] groups[b][j] as int]
            <= 2 * lens[groups[b][0] as int]
    &&& forall|a: int, b: int|
        0 <= a && b == a + 1 && b < groups.len() ==> lens[#[trigger] groups[b][0] as int] > 2
            * lens[#[trigger] groups[a][0] as int]
}

proof fn lemma_join_push<A>(s: Seq<Seq<A>>, x: Seq<A>)
    ensures
        join(s.push(x)) == join(s) + x,
{
    assert(s.push(x).drop_last() =~= s);
}

/// The number of tokens of each encoding.
pub fn token_lengths(encodings: &Vec<TokenEncoding>) -> (lens: Vec<usize>)
    ensures
        lens@.len() == encodings@.len(),
        forall|i: int| 0 <= i < lens@.len() ==> #[trigger] lens@[i] == encodings@[i].ids@.len(),
{
    let mut lens: Vec<usize> = Vec::new();
    for i in 0..encodings.len()
        invariant
            lens@.len() == i,
            forall|k: int| 0 <= k < i ==> #[trigger] lens@[k] == encodings@[k].ids@.len(),
    {
        lens.push(encodings[i].ids.len());
    }
    lens
}

/// Indices of the texts ordered by token count, keeping the input order
/// among texts of equal length.
pub fn sort_indices_by_length(lens: &Vec<usize>) -> (order: Vec<usize>)
    ensures
        is_length_order(lens@, order@),
{
    let n = lens.len();
    let mut order: Vec<usize> = Vec::new();
    for i in 0..n
        invariant
            n == lens.len(),
            order@.len() == i,
            forall|k: int| 0 <= k < order@.len() ==> #[trigger] order@[k] < i,
            forall|a: int, b: int|
                0 <= a < b < order@.len() ==> precedes(
                    lens@,
                    #[trigger] order@[a],
                    #[trigger] order@[b],
                ),
    {
        let mut p: usize = 0;
        while p < order.len() && lens[order[p]] <= lens[i]
            invariant
                n == lens.len(),
                i < n,
                order@.len() == i,
                forall|k: int| 0 <= k < order@.len() ==> #[trigger] order@[k] < i,
                p <= order@.len(),
                forall|k: int| 0 <= k < p ==> lens@[#[trigger] order@[k] as int] <= lens@[i as int],
            decreases order@.len() - p,
        {
            p = p + 1;
        }
        let ghost old_order = order@;
        proof {
            // every text after position `p` is longer than text `i`
            assert forall|k: int| p <= k < old_order.len() implies lens@[#[trigger] old_order[k] as int]
                > lens@[i as int] by {
                if k > p {
                    assert(precedes(lens@, old_order[p as int], old_order[k]));
                }
            }
        }
        order.insert(p, i);
        proof {
            assert forall|a: int, b: int| 0 <= a < b < order@.len() implies precedes(
                lens@,
                #[trigger] order@[a],
                #[trigger] order@[b],
            ) by {
                if b < p {
                    assert(precedes(lens@, old_order[a], old_order[b]));
                } else if a > p {
                    assert(precedes(lens@, old_order[a - 1], old_order[b - 1]));
                } else if a < p && b > p {
                    assert(precedes(lens@, old_order[a], old_order[b - 1]));
                } else if a == p {
                    assert(lens@[old_order[b - 1] as int] > lens@[i as int]);
                } else {
                    assert(lens@[old_order[a] as int] <= lens@[i as int]);
                    assert(old_order[a] < i);
                }
            }
        }
    }
    order
}

/// Groups the ordered indices into sub-batches: a new sub-batch starts when a
/// text has more than twice the tokens of the first text of the current one.
pub fn build_sub_batches(sorted_indices: &Vec<usize>, lens: &Vec<usize>) -> (groups: Vec<
    Vec<usize>,
>)
    requires
        forall|k: int| 0 <= k < sorted_indices@.len() ==> #[trigger] sorted_indices@[k] < lens@.len(),
    ensures
        is_sub_batching(sorted_indices@, lens@, views(groups@)),
{
    let mut groups: Vec<Vec<usize>> = Vec::new();
    if sorted_indices.len() == 0 {
        assert(views(groups@) =~= Seq::<Seq<usize>>::empty());
        assert(sorted_indices@ =~= Seq::<usize>::empty());
        return groups;
    }
    let mut current: Vec<usize> = Vec::new();
    current.push(sorted_indices[0]);
    let mut current_min = lens[sorted_indices[0]];
    let n = sorted_indices.len();
    assert(sorted_indices@.take(1) =~= join(views(groups@)) + current@);
    for k in 1..n
        invariant
            n == sorted_indices@.len(),
            forall|k: int| 0 <= k < sorted_indices@.len() ==> #[trigger] sorted_indices@[k]
                < lens@.len(),
            join(views(groups@)) + current@ == sorted_indices@.take(k as int),
            current@.len() > 0,
            current_min == lens@[current@[0] as int],
            forall|j: int| 1 <= j < current@.len() ==> lens@[#[trigger] current@[j] as int] <= 2
                * current_min,
            forall|b: int| 0 <= b < groups@.len() ==> #[trigger] groups@[b]@.len() > 0,
            forall|b: int, j: int|
                0 <= b < groups@.len() && 1 <= j < groups@[b]@.len() ==> lens@[#[trigger] groups@[b]@[j] as int]
                    <= 2 * lens@[groups@[b]@[0] as int],
            forall|a: int, b: int|
                0 <= a && b == a + 1 && b < groups@.len() ==> lens@[#[trigger] groups@[b]@[0] as int]
                    > 2 * lens@[#[trigger] groups@[a]@[0] as int],
            groups@.len() > 0 ==> lens@[current@[0] as int] > 2 * lens@[groups@.last()@[0] as int],
    {
        let idx = sorted_indices[k];
        let len = lens[idx];
        let ghost old_groups = groups@;
        let ghost old_current = current@;
        if len > current_min && len - current_min > current_min {
            let mut finished: Vec<usize> = Vec::new();
            std::mem::swap(&mut finished, &mut current);
            groups.push(finished);
            proof {
                assert(views(groups@) =~= views(old_groups).push(old_current));
                lemma_join_push(views(old_groups), old_current);
                assert forall|a: int, b: int|
                    0 <= a && b == a + 1 && b < groups@.len() implies lens@[#[trigger] groups@[b]@[0] as int]
                    > 2 * lens@[#[trigger] groups@[a]@[0] as int] by {
                    if b == groups@.len() - 1 {
                        assert(groups@[a] == old_groups.last());
                    } else {
                        assert(groups@[a] == old_groups[a]);
                        assert(groups@[b] == old_groups[b]);
                    }
                }
            }
            current_min = len;
        }
        current.push(idx);
        assert(sorted_indices@.take(k + 1) =~= sorted_indices@.take(k as int).push(idx));
        assert(join(views(groups@)) + current@ =~= sorted_indices@.take(k + 1));
    }
    let ghost old_groups = groups@;
    let ghost last = current@;
    groups.push(current);
    proof {
        assert(views(groups@) =~= views(old_groups).push(last));
        lemma_join_push(views(old_groups), last);
        assert(sorted_indices@.take(n as int) =~= sorted_indices@);
        assert forall|a: int, b: int|
            0 <= a && b == a + 1 && b < groups@.len() implies lens@[#[trigger] views(groups@)[b][0] as int]
            > 2 * lens@[#[trigger] views(groups@)[a][0] as int] by {
            if b == groups@.len() - 1 {
                assert(groups@[a] == old_groups.last());
            } else {
                assert(groups@[a] == old_groups[a]);
                assert(groups@[b] == old_groups[b]);
            }
        }
    }
    groups
}

/// Within each sub-batch of a length-ordered list, the longest text has at most
/// twice the tokens of the shortest, which is the sub-batch's first text.
pub proof fn lemma_sub_batch_padding_bound(
    lens: Seq<usize>,
    order: Seq<usize>,
    groups: Seq<Seq<usize>>,
    b: int,
    j: int,
)
    requires
        is_length_order(lens, order),
        is_sub_batching(order, lens, groups),
        0 <= b < groups.len(),
        0 <= j < groups[b].len(),
    ensures
        lens[groups[b][0] as int] <= lens[groups[b][j] as int],
        lens[groups[b][j] as int] <= 2 * lens[groups[b][0] as int],
{
    lemma_join_position(groups, b, 0);
    lemma_join_position(groups, b, j);
    let p0 = join(groups.take(b)).len() as int;
    if j > 0 {
        assert(precedes(lens, order[p0], order[p0 + j]));
    }
}

/// Element `j` of group `b` sits in the concatenation right after the
/// elements of the groups before `b`.
pub proof fn lemma_join_position<A>(groups: Seq<Seq<A>>, b: int, j: int)
    requires
        0 <= b < groups.len(),
        0 <= j < groups[b].len(),
    ensures
        join(groups.take(b)).len() + j < join(groups).len(),
        join(groups)[join(groups.take(b)).len() + j] == groups[b][j],
    decreases groups.len(),
{
    if b == groups.len() - 1 {
        assert(groups.take(b) =~= groups.drop_last());
    } else {
        assert(groups.drop_last().take(b) =~= groups.take(b));
        lemma_join_position(groups.drop_last(), b, j);
    }
}

/// A text's token ids, attention mask and token type ids.
#[derive(Debug, Clone, PartialEq, Eq)]
pub struct TokenEncoding {
    pub ids: Vec<u32>,
    pub attention_mask: Vec<u32>,
    pub type_ids: Vec<u32>,
}

/// One row of a padded input: the first `len` values of `vals` widened to
/// `i64`, then zeros up to `max_len` columns.
pub open spec fn padded_row(vals: Seq<u32>, len: int, max_len: int) -> Seq<i64> {
    Seq::new(max_len as nat, |c: int| if c < len { vals[c] as i64 } else { 0i64 })
}

/// Row-major padded token ids of the `members` of a sub-batch.
pub open spec fn padded_ids(encs: Seq<TokenEncoding>, members: Seq<usize>, max_len: int) -> Seq<i64> {
    join(
        Seq::new(
            members.len(),
            |r: int|
                padded_row(
                    encs[members[r] as int].ids@,
                    encs[members[r] as int].ids@.len() as int,
                    max_len,
                ),
        ),
    )
}

/// Row-major padded attention masks of the `members` of a sub-batch.
pub open spec fn padded_masks(encs: Seq<TokenEncoding>, members: Seq<usize>, max_len: int) -> Seq<
    i64,
> {
    join(
        Seq::new(
            members.len(),
            |r: int|
                padded_row(
                    encs[members[r] as int].attention_mask@,
                    encs[members[r] as int].ids@.len() as int,
                    max_len,
                ),
        ),
    )
}

/// Row-major padded token type ids of the `members` of a sub-batch.
pub open spec fn padded_types(encs: Seq<TokenEncoding>, members: Seq<usize>, max_len: int) -> Seq<
    i64,
> {
    join(
        Seq::new(
            members.len(),
            |r: int|
                padded_row(
                    encs[members[r] as int].type_ids@,
                    encs[members[r] as int].ids@.len() as int,
                    max_len,
                ),
        ),
    )
}

/// An encoding has a mask value and a type id for each of its token ids.
pub open spec fn encoding_consistent(e: TokenEncoding) -> bool {
    e.attention_mask@.len() >= e.ids@.len() && e.type_ids@.len() >= e.ids@.len()
}

/// The padded `[batch, max_len]` model inputs of one sub-batch.
#[derive(Debug, Clone, PartialEq, Eq)]
pub struct PaddedInputs {
    pub batch_size: usize,
    pub max_len: usize,
    pub input_ids: Vec<i64>,
    pub attention_mask: Vec<i64>,
    pub token_type_ids: Vec<i64>,
}

/// `p` holds the inputs of the sub-batch `members`, padded to `max_len`.
pub open spec fn is_padding_of(
    encs: Seq<TokenEncoding>,
    members: Seq<usize>,
    max_len: int,
    p: PaddedInputs,
) -> bool {
    &&& p.batch_size == members.len()
    &&& p.max_len == max_len
    &&& p.input_ids@ == padded_ids(encs, members, max_len)
    &&& p.attention_mask@ == padded_masks(encs, members, max_len)
    &&& p.token_type_ids@ == padded_types(encs, members, max_len)
}

/// Builds the padded input tensors (token ids, attention mask, token type
/// ids) of a sub-batch, row `r` holding the encoding of `members[r]`.
pub fn build_padded_inputs(encodings: &Vec<TokenEncoding>, members: &Vec<usize>, max_len: usize) -> (p:
    PaddedInputs)
    requires
        forall|r: int| 0 <= r < members@.len() ==> #[trigger] members@[r] < encodings@.len(),
        forall|r: int|
            0 <= r < members@.len() ==> encoding_consistent(
                #[trigger] encodings@[members@[r] as int],
            ),
        members@.len() * max_len <= usize::MAX,
    ensures
        is_padding_of(encodings@, members@, max_len as int, p),
{
    let ghost encs = encodings@;
    let ghost ids_rows = Seq::new(
        members@.len(),
        |r: int|
            padded_row(
                encs[members@[r] as int].ids@,
                encs[members@[r] as int].ids@.len() as int,
                max_len as int,
            ),
    );
    let ghost mask_rows = Seq::new(
        members@.len(),
        |r: int|
            padded_row(
                encs[members@[r] as int].attention_mask@,
                encs[members@[r] as int].ids@.len() as int,
                max_len as int,
            ),
    );
    let ghost type_rows = Seq::new(
        members@.len(),
        |r: int|
            padded_row(
                encs[members@[r] as int].type_ids@,
                encs[members@[r] as int].ids@.len() as int,
                max_len as int,
            ),
    );
    let mut input_ids: Vec<i64> = Vec::new();
    let mut attention_mask: Vec<i64> = Vec::new();
    let mut token_type_ids: Vec<i64> = Vec::new();
    let batch_size = members.len();
    for r in 0..batch_size
        invariant
            batch_size == members@.len(),
            encs == encodings@,
            forall|r: int| 0 <= r < members@.len() ==> #[trigger] members@[r] < encodings@.len(),
            forall|r: int|
                0 <= r < members@.len() ==> encoding_consistent(
                    #[trigger] encodings@[members@[r] as int],
                ),
            ids_rows.len() == batch_size,
            mask_rows.len() == batch_size,
            type_rows.len() == batch_size,
            forall|r: int| 0 <= r < batch_size ==> #[trigger] ids_rows[r] == padded_row(
                encs[members@[r] as int].ids@,
                encs[members@[r] as int].ids@.len() as int,
                max_len as int,
            ),
            forall|r: int| 0 <= r < batch_size ==> #[trigger] mask_rows[r] == padded_row(
                encs[members@[r] as int].attention_mask@,
                encs[members@[r] as int].ids@.len() as int,
                max_len as int,
            ),
            forall|r: int| 0 <= r < batch_size ==> #[trigger] type_rows[r] == padded_row(
                encs[members@[r] as int].type_ids@,
                encs[members@[r] as int].ids@.len() as int,
                max_len as int,
            ),
            input_ids@ == join(ids_rows.take(r as int)),
            attention_mask@ == join(mask_rows.take(r as int)),
            token_type_ids@ == join(type_rows.take(r as int)),
    {
        let e = &encodings[members[r]];
        let len = e.ids.len();
        let ghost ids_before = input_ids@;
        let ghost mask_before = attention_mask@;
        let ghost types_before = token_type_ids@;
        for c in 0..max_len
            invariant
                e == encodings@[members@[r as int] as int],
                len == e.ids@.len(),
                encoding_consistent(*e),
                input_ids@ == ids_before + ids_rows[r as int].take(c as int),
                attention_mask@ == mask_before + mask_rows[r as int].take(c as int),
                token_type_ids@ == types_before + type_rows[r as int].take(c as int),
                ids_rows[r as int] == padded_row(e.ids@, len as int, max_len as int),
                mask_rows[r as int] == padded_row(e.attention_mask@, len as int, max_len as int),
                type_rows[r as int] == padded_row(e.type_ids@, len as int, max_len as int),
        {
            if c < len {
                input_ids.push(e.ids[c] as i64);
                attention_mask.push(e.attention_mask[c] as i64);
                token_type_ids.push(e.type_ids[c] as i64);
            } else {
                input_ids.push(0);
                attention_mask.push(0);
                token_type_ids.push(0);
            }
            assert(ids_rows[r as int].take(c + 1) =~= ids_rows[r as int].take(c as int).push(
                ids_rows[r as int][c as int],
            ));
            assert(mask_rows[r as int].take(c + 1) =~= mask_rows[r as int].take(c as int).push(
                mask_rows[r as int][c as int],
            ));
            assert(type_rows[r as int].take(c + 1) =~= type_rows[r as int].take(c as int).push(
                type_rows[r as int][c as int],
            ));
        }
        proof {
            assert(ids_rows[r as int].take(max_len as int) =~= ids_rows[r as int]);
            assert(mask_rows[r as int].take(max_len as int) =~= mask_rows[r as int]);
            assert(type_rows[r as int].take(max_len as int) =~= type_rows[r as int]);
            assert(ids_rows.take(r + 1).drop_last() =~= ids_rows.take(r as int));
            assert(mask_rows.take(r + 1).drop_last() =~= mask_rows.take(r as int));
            assert(type_rows.take(r + 1).drop_last() =~= type_rows.take(r as int));
        }
    }
    proof {
        assert(ids_rows.take(batch_size as int) =~= ids_rows);
        assert(mask_rows.take(batch_size as int) =~= mask_rows);
        assert(type_rows.take(batch_size as int) =~= type_rows);
    }
    PaddedInputs { batch_size, max_len, input_ids, attention_mask, token_type_ids }
}

/// Largest token count among `members` (0 for none).
pub open spec fn group_max(lens: Seq<usize>, members: Seq<usize>) -> usize
    decreases members.len(),
{
    if members.len() == 0 {
        0
    } else {
        let rest = group_max(lens, members.drop_last());
        let last = lens[members.last() as int];
        if last > rest {
            last
        } else {
            rest
        }
    }
}

/// Token count of each encoding.
pub open spec fn lens_of(encs: Seq<TokenEncoding>) -> Seq<usize> {
    encs.map_values(|e: TokenEncoding| e.ids@.len() as usize)
}

/// Every encoding is empty (also when there are none).
pub open spec fn all_empty(encs: Seq<TokenEncoding>) -> bool {
    forall|i: int| 0 <= i < encs.len() ==> #[trigger] encs[i].ids@.len() == 0
}

/// Every encoding has a mask value and a type id for each token id.
pub open spec fn all_consistent(encs: Seq<TokenEncoding>) -> bool {
    forall|i: int| 0 <= i < encs.len() ==> encoding_consistent(#[trigger] encs[i])
}

/// Some sub-batch of `groups` would need a padded tensor with more than
/// `usize::MAX` cells.
pub open spec fn some_group_too_large(lens: Seq<usize>, groups: Seq<Seq<usize>>) -> bool {
    exists|b: int|
        0 <= b < groups.len() && #[trigger] groups[b].len() * group_max(lens, groups[b])
            > usize::MAX
}

/// How a batch is processed: the texts ordered by length, the sub-batches of
/// that order, and the padded inputs of each sub-batch.
#[derive(Debug)]
pub struct BatchPlan {
    pub order: Vec<usize>,
    pub sub_batches: Vec<Vec<usize>>,
    pub inputs: Vec<PaddedInputs>,
}

/// `plan` is the plan of the encodings `encs`: stable length order, the
/// sub-batches of that order, and each sub-batch padded to its longest member.
pub open spec fn is_plan_for(encs: Seq<TokenEncoding>, plan: BatchPlan) -> bool {
    let lens = lens_of(encs);
    &&& is_length_order(lens, plan.order@)
    &&& is_sub_batching(plan.order@, lens, views(plan.sub_batches@))
    &&& plan.inputs@.len() == plan.sub_batches@.len()
    &&& forall|b: int|
        0 <= b < plan.inputs@.len() ==> is_padding_of(
            encs,
            plan.sub_batches@[b]@,
            group_max(lens, plan.sub_batches@[b]@) as int,
            #[trigger] plan.inputs@[b],
        )
}

/// Why a batch cannot be embedded.
#[derive(Debug, Clone, PartialEq, Eq)]
pub enum EmbedError {
    /// The tokenizer refused the input; its message.
    Tokenization(String),
    /// Every text produced an empty token sequence (or there was no text).
    EmptySequences,
    /// An encoding has fewer mask values or type ids than token ids.
    MalformedEncoding,
    /// A sub-batch's padded tensor would not fit in memory.
    TooLarge,
    /// A single-text request produced no embedding.
    NoEmbedding,
}

impl EmbedError {
    /// The error's message.
    pub fn message(&self) -> (m: String)
        ensures
            m@ == self.message_spec(),
    {
        match self {
            EmbedError::Tokenization(e) => {
                let mut m = "Tokenization failed: ".to_owned();
                m.append(e.as_str());
                m
            },
            EmbedError::EmptySequences => "All inputs produced empty token sequences".to_owned(),
            EmbedError::MalformedEncoding => "Encoding has fewer mask values or type ids than token ids".to_owned(),
            EmbedError::TooLarge => "Padded batch does not fit in memory".to_owned(),
            EmbedError::NoEmbedding => "No embedding produced".to_owned(),
        }
    }

    pub open spec fn message_spec(&self) -> Seq<char> {
        match self {
            EmbedError::Tokenization(e) => "Tokenization failed: "@ + e@,
            EmbedError::EmptySequences => "All inputs produced empty token sequences"@,
            EmbedError::MalformedEncoding => "Encoding has fewer mask values or type ids than token ids"@,
            EmbedError::TooLarge => "Padded batch does not fit in memory"@,
            EmbedError::NoEmbedding => "No embedding produced"@,
        }
    }
}

fn max_length(lens: &Vec<usize>, members: &Vec<usize>) -> (m: usize)
    requires
        forall|k: int| 0 <= k < members@.len() ==> #[trigger] members@[k] < lens@.len(),
    ensures
        m == group_max(lens@, members@),
{
    let mut m: usize = 0;
    for k in 0..members.len()
        invariant
            forall|k: int| 0 <= k < members@.len() ==> #[trigger] members@[k] < lens@.len(),
            m == group_max(lens@, members@.take(k as int)),
    {
        assert(members@.take(k + 1).drop_last() =~= members@.take(k as int));
        let l = lens[members[k]];
        if l > m {
            m = l;
        }
    }
    assert(members@.take(members@.len() as int) =~= members@);
    m
}

/// The outcome of planning the embedding of the encodings `encs`: refused as
/// empty when every encoding is empty, then as malformed when one is
/// inconsistent, then as too large when a sub-batch's padded tensor would not
/// fit; otherwise the plan of the encodings.
pub open spec fn plan_outcome(encs: Seq<TokenEncoding>, r: Result<BatchPlan, EmbedError>) -> bool {
    match r {
        Ok(plan) => !all_empty(encs) && all_consistent(encs) && is_plan_for(encs, plan),
        Err(EmbedError::EmptySequences) => all_empty(encs),
        Err(EmbedError::MalformedEncoding) => !all_empty(encs) && !all_consistent(encs),
        Err(EmbedError::TooLarge) => !all_empty(encs) && all_consistent(encs)
            && exists|order: Seq<usize>, groups: Seq<Seq<usize>>|
            is_length_order(lens_of(encs), order) && is_sub_batching(order, lens_of(encs), groups)
                && some_group_too_large(lens_of(encs), groups),
        Err(_) => false,
    }
}

/// Plans the embedding of a batch from its encodings: refuses a batch whose
/// texts are all empty, then one with an inconsistent encoding, then one whose
/// padded tensors would not fit; otherwise orders, groups and pads.
pub fn plan_batches(encodings: &Vec<TokenEncoding>) -> (r: Result<BatchPlan, EmbedError>)
    ensures
        plan_outcome(encodings@, r),
{
    let lens = token_lengths(encodings);
    assert(lens@ =~= lens_of(encodings@));
    let n = lens.len();
    let mut any_tokens = false;
    for i in 0..n
        invariant
            n == lens@.len(),
            lens@ == lens_of(encodings@),
            any_tokens == exists|k: int| 0 <= k < i && #[trigger] lens@[k] > 0,
    {
        if lens[i] > 0 {
            any_tokens = true;
        }
    }
    if !any_tokens {
        assert forall|i: int| 0 <= i < encodings@.len() implies #[trigger] encodings@[i].ids@.len()
            == 0 by {
            assert(lens@[i] == encodings@[i].ids@.len());
        }
        return Err(EmbedError::EmptySequences);
    }
    assert(!all_empty(encodings@)) by {
        let k = choose|k: int| 0 <= k < n && #[trigger] lens@[k] > 0;
        assert(lens@[k] == encodings@[k].ids@.len());
    }
    for i in 0..n
        invariant
            n == lens@.len(),
            n == encodings@.len(),
            forall|k: int| 0 <= k < i ==> encoding_consistent(#[trigger] encodings@[k]),
    {
        let e = &encodings[i];
        if e.attention_mask.len() < e.ids.len() || e.type_ids.len() < e.ids.len() {
            assert(!encoding_consistent(encodings@[i as int]));
            return Err(EmbedError::MalformedEncoding);
        }
    }
    let order = sort_indices_by_length(&lens);
    let sub_batches = build_sub_batches(&order, &lens);
    let ghost groups = views(sub_batches@);
    proof {
        assert forall|b: int, j: int|
            0 <= b < groups.len() && 0 <= j < groups[b].len() implies #[trigger] groups[b][j]
            < lens@.len() by {
            lemma_join_position(groups, b, j);
        }
    }
    let mut inputs: Vec<PaddedInputs> = Vec::new();
    for b in 0..sub_batches.len()
        invariant
            groups == views(sub_batches@),
            lens@ == lens_of(encodings@),
            all_consistent(encodings@),
            !all_empty(encodings@),
            is_length_order(lens@, order@),
            is_sub_batching(order@, lens@, groups),
            forall|b: int, j: int|
                0 <= b < groups.len() && 0 <= j < groups[b].len() ==> #[trigger] groups[b][j]
                    < lens@.len(),
            inputs@.len() == b,
            forall|k: int|
                0 <= k < b ==> is_padding_of(
                    encodings@,
                    sub_batches@[k]@,
                    group_max(lens@, sub_batches@[k]@) as int,
                    #[trigger] inputs@[k],
                ),
            forall|k: int|
                0 <= k < b ==> (#[trigger] groups[k]).len() * group_max(lens@, groups[k])
                    <= usize::MAX,
    {
        let members = &sub_batches[b];
        assert(members@ == groups[b as int]);
        let m = max_length(&lens, members);
        let size = members.len();
        if m > 0 && size > usize::MAX / m {
            proof {
                assert(size * m > usize::MAX) by (nonlinear_arith)
                    requires
                        m > 0,
                        size > usize::MAX / m,
                ;
                assert(some_group_too_large(lens@, groups));
                assert(is_length_order(lens_of(encodings@), order@) && is_sub_batching(
                    order@,
                    lens_of(encodings@),
                    groups,
                ) && some_group_too_large(lens_of(encodings@), groups));
            }
            return Err(EmbedError::TooLarge);
        }
        assert(size * m <= usize::MAX) by (nonlinear_arith)
            requires
                m == 0 || size <= usize::MAX / m,
        ;
        let p = build_padded_inputs(encodings, members, m);
        inputs.push(p);
    }
    Ok(BatchPlan { order, sub_batches, inputs })
}

/// No text index occurs twice among the sub-batches.
pub open spec fn distinct_positions(groups: Seq<Seq<usize>>) -> bool {
    forall|b1: int, j1: int, b2: int, j2: int|
        0 <= b1 < groups.len() && 0 <= j1 < groups[b1].len() && 0 <= b2 < groups.len() && 0 <= j2
            < groups[b2].len() && #[trigger] groups[b1][j1] == #[trigger] groups[b2][j2] ==> b1 == b2
            && j1 == j2
}

/// The output that the sub-batches produced for text `k`, if any.
pub open spec fn output_for<E>(groups: Seq<Seq<usize>>, outputs: Seq<Seq<E>>, k: int) -> Option<E> {
    if exists|b: int, j: int|
        0 <= b < groups.len() && 0 <= j < outputs[b].len() && #[trigger] groups[b][j] == k {
        let (b, j) = choose|b: int, j: int|
            0 <= b < groups.len() && 0 <= j < outputs[b].len() && #[trigger] groups[b][j] == k;
        Some(outputs[b][j])
    } else {
        None
    }
}

/// The values present in `s`, in order.
pub open spec fn present<E>(s: Seq<Option<E>>) -> Seq<E>
    decreases s.len(),
{
    if s.len() == 0 {
        Seq::empty()
    } else {
        let rest = present(s.drop_last());
        match s.last() {
            Some(x) => rest.push(x),
            None => rest,
        }
    }
}

/// Puts the outputs of the sub-batches back in the order of the texts:
/// `outputs[b][j]` belongs to text `sub_batches[b][j]`, and the results come
/// ordered by text index.
pub fn reassemble<E>(n: usize, sub_batches: &Vec<Vec<usize>>, outputs: Vec<Vec<E>>) -> (r: Vec<E>)
    requires
        outputs@.len() == sub_batches@.len(),
        forall|b: int|
            0 <= b < outputs@.len() ==> (#[trigger] outputs@[b])@.len() <= sub_batches@[b]@.len(),
        forall|b: int, j: int|
            0 <= b < sub_batches@.len() && 0 <= j < sub_batches@[b]@.len() ==> #[trigger] sub_batches@[b]@[j]
                < n,
        distinct_positions(views(sub_batches@)),
    ensures
        r@ == present(
            Seq::new(n as nat, |k: int| output_for(views(sub_batches@), views(outputs@), k)),
        ),
{
    let ghost groups = views(sub_batches@);
    let ghost outs = views(outputs@);
    let mut slots: Vec<Option<E>> = Vec::new();
    for k in 0..n
        invariant
            slots@.len() == k,
            forall|i: int| 0 <= i < k ==> #[trigger] slots@[i] is None,
    {
        slots.push(None);
    }
    let mut outputs = outputs;
    let mut b = outputs.len();
    while b > 0
        invariant
            groups == views(sub_batches@),
            outs.len() == groups.len(),
            forall|b: int| 0 <= b < outs.len() ==> #[trigger] outs[b].len() <= groups[b].len(),
            forall|b: int, j: int|
                0 <= b < groups.len() && 0 <= j < groups[b].len() ==> #[trigger] groups[b][j] < n,
            distinct_positions(groups),
            slots@.len() == n,
            b <= outs.len(),
            views(outputs@) == outs.take(b as int),
            forall|b2: int, j2: int|
                b <= b2 < outs.len() && 0 <= j2 < outs[b2].len() ==> slots@[#[trigger] groups[b2][j2] as int]
                    == Some(outs[b2][j2]),
            forall|k: int|
                0 <= k < n && (#[trigger] slots@[k]) is Some ==> exists|b2: int, j2: int|
                    b <= b2 < outs.len() && 0 <= j2 < outs[b2].len() && #[trigger] groups[b2][j2]
                        == k,
        decreases b,
    {
        b = b - 1;
        let ghost before = outputs@;
        assert(views(before).len() == b + 1);
        assert(views(before)[b as int] == before[b as int]@);
        assert(views(before)[b as int] == outs[b as int]);
        let popped = outputs.pop();
        assert(popped == Some(before[b as int]));
        assert(outputs@ == before.drop_last());
        let mut row = match popped {
            Some(row) => row,
            None => Vec::new(),
        };
        assert(row@ == outs[b as int]);
        assert(views(outputs@) =~= outs.take(b as int));
        let mut j = row.len();
        while j > 0
            invariant
                groups == views(sub_batches@),
                0 <= b < outs.len(),
                outs.len() == groups.len(),
                forall|b: int| 0 <= b < outs.len() ==> #[trigger] outs[b].len() <= groups[b].len(),
                forall|b: int, j: int|
                    0 <= b < groups.len() && 0 <= j < groups[b].len() ==> #[trigger] groups[b][j] < n,
                distinct_positions(groups),
                slots@.len() == n,
                j <= outs[b as int].len(),
                row@ == outs[b as int].take(j as int),
                forall|b2: int, j2: int|
                    ((b < b2 < outs.len() && 0 <= j2 < outs[b2].len()) || (b2 == b && j <= j2
                        < outs[b2].len())) ==> slots@[#[trigger] groups[b2][j2] as int] == Some(
                        outs[b2][j2],
                    ),
                forall|k: int|
                    0 <= k < n && (#[trigger] slots@[k]) is Some ==> exists|b2: int, j2: int|
                        ((b < b2 < outs.len() && 0 <= j2 < outs[b2].len()) || (b2 == b && j <= j2
                            < outs[b2].len())) && #[trigger] groups[b2][j2] == k,
            decreases j,
        {
            j = j - 1;
            let e = match row.pop() {
                Some(e) => e,
                None => {
                    assert(false);
                    return Vec::new();
                },
            };
            assert(row@ =~= outs[b as int].take(j as int));
            let k = sub_batches[b][j];
            assert(k == groups[b as int][j as int]);
            let ghost old_slots = slots@;
            slots[k] = Some(e);
            proof {
                assert forall|b2: int, j2: int|
                    ((b < b2 < outs.len() && 0 <= j2 < outs[b2].len()) || (b2 == b && j <= j2
                        < outs[b2].len())) implies slots@[#[trigger] groups[b2][j2] as int] == Some(
                    outs[b2][j2],
                ) by {
                    if b2 != b || j2 != j {
                        assert(groups[b2][j2] != groups[b as int][j as int]);
                    }
                }
                assert forall|k2: int|
                    0 <= k2 < n && (#[trigger] slots@[k2]) is Some implies exists|b2: int, j2: int|
                    ((b < b2 < outs.len() && 0 <= j2 < outs[b2].len()) || (b2 == b && j <= j2
                        < outs[b2].len())) && #[trigger] groups[b2][j2] == k2 by {
                    if k2 == k {
                        assert(groups[b as int][j as int] == k2);
                    } else {
                        assert(old_slots[k2] is Some);
                    }
                }
            }
        }
    }
    proof {
        assert forall|k: int| 0 <= k < n implies #[trigger] slots@[k] == output_for(
            groups,
            outs,
            k,
        ) by {
            if exists|b: int, j: int|
                0 <= b < groups.len() && 0 <= j < outs[b].len() && #[trigger] groups[b][j] == k {
                let (b2, j2) = choose|b: int, j: int|
                    0 <= b < groups.len() && 0 <= j < outs[b].len() && #[trigger] groups[b][j] == k;
                assert(slots@[groups[b2][j2] as int] == Some(outs[b2][j2]));
            } else {
                if slots@[k] is Some {
                    let (b2, j2) = choose|b2: int, j2: int|
                        0 <= b2 < outs.len() && 0 <= j2 < outs[b2].len() && #[trigger] groups[b2][j2]
                            == k;
                    assert(false);
                }
            }
        }
    }
    let ghost all_slots = slots@;
    let ghost wanted = Seq::new(n as nat, |k: int| output_for(groups, outs, k));
    assert(all_slots =~= wanted);
    let mut r: Vec<E> = Vec::new();
    let mut k: usize = 0;
    while k < n
        invariant
            all_slots.len() == n,
            k <= n,
            slots@ == all_slots.skip(k as int),
            r@ == present(all_slots.take(k as int)),
        decreases n - k,
    {
        let slot = slots.remove(0);
        assert(slot == all_slots[k as int]);
        assert(all_slots.take(k + 1).drop_last() =~= all_slots.take(k as int));
        match slot {
            Some(e) => {
                r.push(e);
            },
            None => {},
        }
        assert(slots@ =~= all_slots.skip(k + 1));
        k = k + 1;
    }
    assert(all_slots.take(n as int) =~= all_slots);
    r
}

proof fn lemma_join_offsets<A>(groups: Seq<Seq<A>>, b1: int, b2: int)
    requires
        0 <= b1 < b2 <= groups.len(),
    ensures
        join(groups.take(b1)).len() + groups[b1].len() <= join(groups.take(b2)).len(),
    decreases b2 - b1,
{
    assert(groups.take(b1 + 1).drop_last() =~= groups.take(b1));
    if b2 > b1 + 1 {
        lemma_join_offsets(groups, b1 + 1, b2);
    }
}

proof fn lemma_join_inverse<A>(groups: Seq<Seq<A>>, p: int) -> (bj: (int, int))
    requires
        0 <= p < join(groups).len(),
    ensures
        0 <= bj.0 < groups.len(),
        0 <= bj.1 < groups[bj.0].len(),
        join(groups.take(bj.0)).len() + bj.1 == p,
    decreases groups.len(),
{
    let last = groups.len() - 1;
    let front = join(groups.drop_last()).len() as int;
    if p < front {
        let (b, j) = lemma_join_inverse(groups.drop_last(), p);
        assert(groups.drop_last().take(b) =~= groups.take(b));
        assert(groups[b] == groups.drop_last()[b]);
        (b, j)
    } else {
        assert(groups.take(last) =~= groups.drop_last());
        (last, p - front)
    }
}

proof fn lemma_length_order_covers(lens: Seq<usize>, order: Seq<usize>, k: int)
    requires
        is_length_order(lens, order),
        0 <= k < lens.len(),
    ensures
        exists|i: int| 0 <= i < order.len() && order[i] == k,
{
    let s = order.map_values(|x: usize| x as int);
    assert forall|a: int, b: int| 0 <= a < s.len() && 0 <= b < s.len() && a != b implies s[a]
        != s[b] by {
        if a < b {
            assert(precedes(lens, order[a], order[b]));
        } else {
            assert(precedes(lens, order[b], order[a]));
        }
    }
    s.unique_seq_to_set();
    let range = vstd::set_lib::set_int_range(0, lens.len() as int);
    vstd::set_lib::lemma_int_range(0, lens.len() as int);
    assert forall|x: int| s.to_set().contains(x) implies range.contains(x) by {
        let i = choose|i: int| 0 <= i < s.len() && s[i] == x;
        assert(order[i] < lens.len());
    }
    vstd::seq_lib::seq_to_set_is_finite(s);
    vstd::set_lib::lemma_subset_equality(s.to_set(), range);
    assert(range.contains(k));
    assert(s.to_set().contains(k));
    let i = choose|i: int| 0 <= i < s.len() && s[i] == k;
    assert(order[i] == k);
}

/// Text `k` is a member of some sub-batch.
pub open spec fn in_some_group(groups: Seq<Seq<usize>>, k: int) -> bool {
    exists|b: int, j: int| 0 <= b < groups.len() && 0 <= j < groups[b].len() && #[trigger] groups[b][j] == k
}

/// The sub-batches of a length order hold every text index once: indices are
/// in range, none occurs twice, and each text is in some sub-batch.
pub proof fn lemma_plan_positions(lens: Seq<usize>, order: Seq<usize>, groups: Seq<Seq<usize>>)
    requires
        is_length_order(lens, order),
        is_sub_batching(order, lens, groups),
    ensures
        distinct_positions(groups),
        forall|b: int, j: int|
            0 <= b < groups.len() && 0 <= j < groups[b].len() ==> #[trigger] groups[b][j]
                < lens.len(),
        forall|k: int| 0 <= k < lens.len() ==> #[trigger] in_some_group(groups, k),
{
    assert forall|b: int, j: int|
        0 <= b < groups.len() && 0 <= j < groups[b].len() implies #[trigger] groups[b][j]
        < lens.len() by {
        lemma_join_position(groups, b, j);
    }
    assert forall|b1: int, j1: int, b2: int, j2: int|
        0 <= b1 < groups.len() && 0 <= j1 < groups[b1].len() && 0 <= b2 < groups.len() && 0 <= j2
            < groups[b2].len() && #[trigger] groups[b1][j1] == #[trigger] groups[b2][j2] implies b1
        == b2 && j1 == j2 by {
        lemma_join_position(groups, b1, j1);
        lemma_join_position(groups, b2, j2);
        let p1 = join(groups.take(b1)).len() + j1;
        let p2 = join(groups.take(b2)).len() + j2;
        if b1 < b2 {
            lemma_join_offsets(groups, b1, b2);
        } else if b2 < b1 {
            lemma_join_offsets(groups, b2, b1);
        }
        if p1 < p2 {
            assert(precedes(lens, order[p1], order[p2]));
        } else if p2 < p1 {
            assert(precedes(lens, order[p2], order[p1]));
        }
    }
    assert forall|k: int| 0 <= k < lens.len() implies #[trigger] in_some_group(groups, k) by {
        lemma_length_order_covers(lens, order, k);
        let i = choose|i: int| 0 <= i < order.len() && order[i] == k;
        let (b, j) = lemma_join_inverse(groups, i);
        lemma_join_position(groups, b, j);
        assert(groups[b][j] == k);
    }
}

proof fn lemma_present_all_some<E>(s: Seq<Option<E>>)
    requires
        forall|i: int| 0 <= i < s.len() ==> #[trigger] s[i] is Some,
    ensures
        present(s).len() == s.len(),
        forall|i: int| 0 <= i < s.len() ==> #[trigger] present(s)[i] == s[i]->0,
    decreases s.len(),
{
    if s.len() > 0 {
        lemma_present_all_some(s.drop_last());
        assert(s.last() is Some);
    }
}

/// Reassembly restores the order of the texts: when every sub-batch of a
/// plan yields one output per member, the result has one entry per text and
/// the entry of text `groups[b][j]` is `outputs[b][j]`.
pub proof fn lemma_reassembly_restores_order<E>(
    lens: Seq<usize>,
    order: Seq<usize>,
    groups: Seq<Seq<usize>>,
    outputs: Seq<Seq<E>>,
)
    requires
        is_length_order(lens, order),
        is_sub_batching(order, lens, groups),
        outputs.len() == groups.len(),
        forall|b: int| 0 <= b < groups.len() ==> #[trigger] outputs[b].len() == groups[b].len(),
    ensures
        ({
            let r = present(
                Seq::new(lens.len(), |k: int| output_for(groups, outputs, k)),
            );
            &&& r.len() == lens.len()
            &&& forall|b: int, j: int|
                0 <= b < groups.len() && 0 <= j < groups[b].len() ==> r[#[trigger] groups[b][j] as int]
                    == outputs[b][j]
        }),
{
    lemma_plan_positions(lens, order, groups);
    let s = Seq::new(lens.len(), |k: int| output_for(groups, outputs, k));
    assert forall|k: int| 0 <= k < s.len() implies #[trigger] s[k] is Some by {
        assert(in_some_group(groups, k));
        let (b, j) = choose|b: int, j: int|
            0 <= b < groups.len() && 0 <= j < groups[b].len() && #[trigger] groups[b][j] == k;
        assert(0 <= j < outputs[b].len() && groups[b][j] == k);
    }
    lemma_present_all_some(s);
    assert forall|b: int, j: int|
        0 <= b < groups.len() && 0 <= j < groups[b].len() implies present(s)[#[trigger] groups[b][j] as int]
        == outputs[b][j] by {
        let k = groups[b][j] as int;
        assert(0 <= j < outputs[b].len() && groups[b][j] == k);
        let (b2, j2) = choose|b2: int, j2: int|
            0 <= b2 < groups.len() && 0 <= j2 < outputs[b2].len() && #[trigger] groups[b2][j2] == k;
        assert(b2 == b && j2 == j);
    }
}

#[verifier::external_type_specification]
#[verifier::external_body]
pub struct ExTokenizer(tokenizers::Tokenizer);

/// An encoding as plain values: (token ids, attention mask, token type ids).
pub open spec fn encoding_view(e: TokenEncoding) -> (Seq<u32>, Seq<u32>, Seq<u32>) {
    (e.ids@, e.attention_mask@, e.type_ids@)
}

/// The plain values of each encoding.
pub open spec fn encodings_view(encs: Seq<TokenEncoding>) -> Seq<(Seq<u32>, Seq<u32>, Seq<u32>)> {
    encs.map_values(|e: TokenEncoding| encoding_view(e))
}

/// The truncation parameters that `tokenizers::Tokenizer::get_truncation`
/// reports, as (maximum length, stride); `None`: the tokenizer does not
/// truncate.
pub uninterp spec fn truncation_params(tokenizer: tokenizers::Tokenizer) -> Option<(usize, usize)>;

/// The number of special tokens that the tokenizer's post-processor adds to a
/// single text (`tokenizers::PostProcessor::added_tokens`; 0 without a
/// post-processor).
pub uninterp spec fn added_special_tokens(tokenizer: tokenizers::Tokenizer) -> usize;

/// Whether the tokenizer's model is set up to sample its segmentation: a BPE
/// model whose `dropout` is set, or a Unigram model whose `alpha` is set
/// (`tokenizers::models::ModelWrapper`). Only such a model can encode the same
/// text in two ways.
pub uninterp spec fn sampling_configured(tokenizer: tokenizers::Tokenizer) -> bool;

/// The (token ids, attention mask, token type ids) of each text, as
/// `tokenizers::Tokenizer::encode_batch` gives them with special tokens added
/// and the tokenizer's padding applied; `None` when it fails.
pub uninterp spec fn encoded(tokenizer: tokenizers::Tokenizer, texts: Seq<Seq<char>>) -> Option<
    Seq<(Seq<u32>, Seq<u32>, Seq<u32>)>,
>;

/// The message of the error that `tokenizers::Tokenizer::encode` gives for the
/// text alone, with special tokens added; `None` when it encodes the text.
pub uninterp spec fn encode_error(tokenizer: tokenizers::Tokenizer, text: Seq<char>) -> Option<
    Seq<char>,
>;

/// The maximum number of tokens that the tokenizer truncates each text to.
pub open spec fn truncation_length(tokenizer: tokenizers::Tokenizer) -> Option<usize> {
    match truncation_params(tokenizer) {
        Some(p) => Some(p.0),
        None => None,
    }
}

/// The tokenizer can encode any text without failing an internal check: its
/// truncation, if any, leaves room for the special tokens it adds, and its
/// stride is below the length that remains (or nothing remains).
pub open spec fn encodable(tokenizer: tokenizers::Tokenizer) -> bool {
    match truncation_params(tokenizer) {
        None => true,
        Some(p) => added_special_tokens(tokenizer) <= p.0 && (p.0 - added_special_tokens(tokenizer)
            == 0 || p.1 < p.0 - added_special_tokens(tokenizer)),
    }
}

/// Calls `tokenizers::Tokenizer::encode_batch` on the texts with special tokens
/// added, and keeps each encoding's token ids, attention mask and token type
/// ids; a failure is returned as the error's message. `encode_batch` encodes
/// each text with `encode`, fails when one of them fails (with the error of one
/// of the failing texts: which one, when several fail, depends on the order in
/// which its worker threads finish), and then pads the encodings as the
/// tokenizer is configured to. An empty batch is encoded as no encodings.
/// The requirement leaves out the tokenizers on which `post_process` would
/// subtract the added special tokens from a shorter truncation length, or
/// `Encoding::truncate` would be given a stride not below its length.
/// Left unsaid: what a tokenizer that samples its segmentation produces,
/// beyond one encoding per text.
#[verifier::external_body]
fn encode_texts(tokenizer: &tokenizers::Tokenizer, texts: &Vec<String>) -> (r: Result<
    Vec<TokenEncoding>,
    String,
>)
    requires
        encodable(*tokenizer),
    ensures
        match r {
            Ok(encs) => encs@.len() == texts@.len() && (!sampling_configured(*tokenizer) ==> encoded(
                *tokenizer,
                string_views(texts@),
            ) == Some(encodings_view(encs@))),
            Err(m) => texts@.len() > 0 && (!sampling_configured(*tokenizer) ==> {
                &&& encoded(*tokenizer, string_views(texts@)) is None
                &&& exists|i: int|
                    0 <= i < texts@.len() && encode_error(*tokenizer, #[trigger] texts@[i]@) == Some(
                        m@,
                    )
            }),
        },
{
    match tokenizer.encode_batch(texts.clone(), true) {
        Ok(encodings) => Ok(
            encodings.iter().map(
                |e| TokenEncoding {
                    ids: e.get_ids().to_vec(),
                    attention_mask: e.get_attention_mask().to_vec(),
                    type_ids: e.get_type_ids().to_vec(),
                },
            ).collect(),
        ),
        Err(e) => Err(e.to_string()),
    }
}

/// Calls `tokenizers::Tokenizer::get_truncation` and keeps the maximum length
/// and the stride of the reported truncation parameters.
#[verifier::external_body]
fn get_truncation_params(tokenizer: &tokenizers::Tokenizer) -> (r: Option<(usize, usize)>)
    ensures
        r == truncation_params(*tokenizer),
{
    tokenizer.get_truncation().map(|params| (params.max_length, params.stride))
}

/// Calls `tokenizers::PostProcessor::added_tokens` (for a single text) on the
/// tokenizer's post-processor, or gives 0 when it has none, as the tokenizer
/// itself counts the special tokens it adds.
#[verifier::external_body]
fn get_added_special_tokens(tokenizer: &tokenizers::Tokenizer) -> (r: usize)
    ensures
        r == added_special_tokens(*tokenizer),
{
    tokenizer.get_post_processor().map(|p| tokenizers::PostProcessor::added_tokens(p, false)).unwrap_or(0)
}

/// Calls `tokenizers::Tokenizer::get_model` and reports whether the model
/// samples its segmentation: for a BPE model, whether its `dropout` is set;
/// for a Unigram model, whether its `alpha` is set; no other model samples.
#[verifier::external_body]
fn get_sampling_configured(tokenizer: &tokenizers::Tokenizer) -> (r: bool)
    ensures
        r == sampling_configured(*tokenizer),
{
    match tokenizer.get_model() {
        tokenizers::models::ModelWrapper::BPE(bpe) => bpe.dropout.is_some(),
        tokenizers::models::ModelWrapper::Unigram(unigram) => unigram.alpha.is_some(),
        _ => false,
    }
}

/// Calls `tokenizers::Tokenizer::with_truncation` with a truncation to
/// `max_length` tokens and the other parameters at their defaults (stride 0).
/// That call subtracts the tokenizer's added special tokens from `max_length`,
/// which the requirement keeps from overflowing, and refuses only a stride
/// above the difference, which a stride of 0 never is; so it succeeds, having
/// stored the parameters, which `get_truncation` then reports. It leaves the
/// post-processor as it was. Left unsaid: what the setting does to later
/// encodings.
#[verifier::external_body]
fn set_truncation(tokenizer: &mut tokenizers::Tokenizer, max_length: usize) -> (r: Result<(), String>)
    requires
        added_special_tokens(*old(tokenizer)) <= max_length,
    ensures
        r is Ok,
        truncation_params(*final(tokenizer)) == Some((max_length, 0usize)),
        added_special_tokens(*final(tokenizer)) == added_special_tokens(*old(tokenizer)),
{
    let params = tokenizers::TruncationParams { max_length, ..Default::default() };
    match tokenizer.with_truncation(Some(params)) {
        Ok(_) => Ok(()),
        Err(e) => Err(e.to_string()),
    }
}

/// A truncation length that leaves no room for the special tokens that the
/// tokenizer adds to every text.
#[derive(Debug, Clone, PartialEq, Eq)]
pub struct TruncationTooShort {
    pub max_tokens: usize,
    pub special_tokens: usize,
}

impl TruncationTooShort {
    /// The error's message.
    pub fn message(&self) -> (m: String)
        ensures
            m@ == self.message_spec(),
    {
        let mut m = "truncation to ".to_owned();
        m.append(crate::text::decimal_string(self.max_tokens as u64).as_str());
        m.append(" tokens leaves no room for the ");
        m.append(crate::text::decimal_string(self.special_tokens as u64).as_str());
        m.append(" special tokens that the tokenizer adds");
        m
    }

    pub open spec fn message_spec(&self) -> Seq<char> {
        "truncation to "@ + crate::text::decimal(self.max_tokens as nat)
            + " tokens leaves no room for the "@ + crate::text::decimal(self.special_tokens as nat)
            + " special tokens that the tokenizer adds"@
    }
}

/// Makes the tokenizer truncate every text to the model's `max_tokens`,
/// special tokens included; refuses a length shorter than the special tokens
/// alone, leaving the tokenizer as it was. A tokenizer set up this way can
/// encode any text.
pub fn limit_sequence_length(tokenizer: &mut tokenizers::Tokenizer, max_tokens: usize) -> (r: Result<
    (),
    TruncationTooShort,
>)
    ensures
        match r {
            Ok(()) => {
                &&& added_special_tokens(*old(tokenizer)) <= max_tokens
                &&& truncation_params(*final(tokenizer)) == Some((max_tokens, 0usize))
                &&& added_special_tokens(*final(tokenizer)) == added_special_tokens(*old(tokenizer))
                &&& encodable(*final(tokenizer))
            },
            Err(e) => {
                &&& added_special_tokens(*old(tokenizer)) > max_tokens
                &&& e == TruncationTooShort {
                    max_tokens,
                    special_tokens: added_special_tokens(*old(tokenizer)),
                }
                &&& *final(tokenizer) == *old(tokenizer)
            },
        },
{
    let special_tokens = get_added_special_tokens(tokenizer);
    if special_tokens > max_tokens {
        return Err(TruncationTooShort { max_tokens, special_tokens });
    }
    let r = set_truncation(tokenizer, max_tokens);
    assert(r is Ok);
    Ok(())
}

/// The number of tokens that the tokenizer truncates each text to, if it
/// truncates.
pub fn truncation_limit(tokenizer: &tokenizers::Tokenizer) -> (r: Option<usize>)
    ensures
        r == truncation_length(*tokenizer),
{
    match get_truncation_params(tokenizer) {
        Some(p) => Some(p.0),
        None => None,
    }
}

/// Whether the tokenizer's model samples its segmentation, so that a text
/// may be encoded differently from one call to the next. For a tokenizer that
/// does not, the encodings of `tokenize_batch` and `plan_embedding` are
/// exactly `encoded`'s.
pub fn samples_segmentation(tokenizer: &tokenizers::Tokenizer) -> (r: bool)
    ensures
        r == sampling_configured(*tokenizer),
{
    get_sampling_configured(tokenizer)
}

/// Whether the tokenizer can encode any text (see `encodable`).
pub fn can_encode(tokenizer: &tokenizers::Tokenizer) -> (r: bool)
    ensures
        r == encodable(*tokenizer),
{
    match get_truncation_params(tokenizer) {
        None => true,
        Some(p) => {
            let added = get_added_special_tokens(tokenizer);
            added <= p.0 && (p.0 - added == 0 || p.1 < p.0 - added)
        },
    }
}

/// Tokenizes a batch of texts: the tokenizer's encoding of each text, or a
/// `Tokenization` error carrying the tokenizer's message for one of the texts
/// that it could not encode.
pub fn tokenize_batch(tokenizer: &tokenizers::Tokenizer, texts: &Vec<String>) -> (r: Result<
    Vec<TokenEncoding>,
    EmbedError,
>)
    requires
        encodable(*tokenizer),
    ensures
        texts@.len() == 0 ==> r is Ok,
        match r {
            Ok(encs) => encs@.len() == texts@.len() && (!sampling_configured(*tokenizer) ==> encoded(
                *tokenizer,
                string_views(texts@),
            ) == Some(encodings_view(encs@))),
            Err(EmbedError::Tokenization(m)) => !sampling_configured(*tokenizer) ==> {
                &&& encoded(*tokenizer, string_views(texts@)) is None
                &&& exists|i: int|
                    0 <= i < texts@.len() && encode_error(*tokenizer, #[trigger] texts@[i]@) == Some(
                        m@,
                    )
            },
            Err(_) => false,
        },
{
    match encode_texts(tokenizer, texts) {
        Ok(encs) => Ok(encs),
        Err(e) => Err(EmbedError::Tokenization(e)),
    }
}

/// Tokenizes a batch of texts and plans its embedding: the tokenizer's error
/// for one of the texts when it cannot encode them all, and otherwise the
/// outcome of `plan_batches` on the tokenizer's encodings, one per text in
/// the order of the texts. A batch without texts is refused as empty.
pub fn plan_embedding(tokenizer: &tokenizers::Tokenizer, texts: &Vec<String>) -> (r: Result<
    BatchPlan,
    EmbedError,
>)
    requires
        encodable(*tokenizer),
    ensures
        texts@.len() == 0 ==> (r matches Err(EmbedError::EmptySequences)),
        match r {
            Err(EmbedError::Tokenization(m)) => !sampling_configured(*tokenizer) ==> {
                &&& encoded(*tokenizer, string_views(texts@)) is None
                &&& exists|i: int|
                    0 <= i < texts@.len() && encode_error(*tokenizer, #[trigger] texts@[i]@) == Some(
                        m@,
                    )
            },
            _ => exists|encs: Seq<TokenEncoding>|
                {
                    &&& encs.len() == texts@.len()
                    &&& !sampling_configured(*tokenizer) ==> encoded(
                        *tokenizer,
                        string_views(texts@),
                    ) == Some(encodings_view(encs))
                    &&& #[trigger] plan_outcome(encs, r)
                },
        },
{
    let encodings = tokenize_batch(tokenizer, texts)?;
    let r = plan_batches(&encodings);
    proof {
        if texts@.len() == 0 {
            assert(all_empty(encodings@));
        }
    }
    r
}

/// `plan_embedding` where the tokenizer can encode any text; `None`, with
/// nothing tokenized, where it cannot.
pub fn try_plan_embedding(tokenizer: &tokenizers::Tokenizer, texts: &Vec<String>) -> (r: Option<
    Result<BatchPlan, EmbedError>,
>)
    ensures
        match r {
            None => !encodable(*tokenizer),
            Some(res) => encodable(*tokenizer) && (texts@.len() == 0 ==> res matches Err(
                EmbedError::EmptySequences,
            )) && match res {
                Err(EmbedError::Tokenization(m)) => !sampling_configured(*tokenizer) ==> {
                    &&& encoded(*tokenizer, string_views(texts@)) is None
                    &&& exists|i: int|
                        0 <= i < texts@.len() && encode_error(*tokenizer, #[trigger] texts@[i]@)
                            == Some(m@)
                },
                _ => exists|encs: Seq<TokenEncoding>|
                    {
                        &&& encs.len() == texts@.len()
                        &&& !sampling_configured(*tokenizer) ==> encoded(
                            *tokenizer,
                            string_views(texts@),
                        ) == Some(encodings_view(encs))
                        &&& #[trigger] plan_outcome(encs, res)
                    },
            },
        },
{
    if can_encode(tokenizer) {
        Some(plan_embedding(tokenizer, texts))
    } else {
        None
    }
}

/// The embedding of a single text from the results of a one-text batch: the
/// first result, or `NoEmbedding` when there is none.
pub fn first_embedding<E>(results: Vec<E>) -> (r: Result<E, EmbedError>)
    ensures
        match r {
            Ok(e) => results@.len() > 0 && e == results@[0],
            Err(err) => results@.len() == 0 && err == EmbedError::NoEmbedding,
        },
{
    let mut results = results;
    if results.len() == 0 {
        return Err(EmbedError::NoEmbedding);
    }
    Ok(results.remove(0))
}

/// Whether a model takes token type ids: one of its inputs is named
/// `token_type_ids` (BERT-style models do; others take only ids and mask).
pub fn expects_token_type_ids(input_names: &Vec<String>) -> (r: bool)
    ensures
        r == exists|i: int| 0 <= i < input_names@.len() && #[trigger] input_names@[i]@ == "token_type_ids"@,
{
    for i in 0..input_names.len()
        invariant
            forall|k: int| 0 <= k < i ==> #[trigger] input_names@[k]@ != "token_type_ids"@,
    {
        if crate::text::str_eq(input_names[i].as_str(), "token_type_ids") {
            return true;
        }
    }
    false
}

} // verus!
