//! Picking experts: the `k` most probable ones of a row, and their weights.

use crate::error::ModelError;
use crate::meaning::{self, entry, shape_of, total, Values};
use crate::tensor::{self, BinaryOp, Expr, Traced};
use vstd::prelude::*;

verus! {

/// The place of a number in the total order of `F32` numbers, given its bit pattern: numbers
/// without the sign bit come in the order of their patterns, numbers with it below them and the
/// other way round.
pub open spec fn order_key(word: u32) -> int {
    if word < 0x8000_0000 {
        word as int
    } else {
        0x7fff_ffff - word
    }
}

/// The place of a number in the total order of `F32` numbers, given its bit pattern.
fn key_of(word: u32) -> (r: i64)
    ensures
        r == order_key(word),
{
    if word < 0x8000_0000 {
        word as i64
    } else {
        0x7fff_ffff - word as i64
    }
}

/// The `k` picks of a row: pairwise different, the largest first, and nothing that was left is
/// larger than a pick.
pub open spec fn is_top(row: Seq<u32>, picks: Seq<usize>) -> bool {
    &&& forall|i: int| 0 <= i < picks.len() ==> #[trigger] picks[i] < row.len()
    &&& picks.no_duplicates()
    &&& forall|i: int, j: int|
        0 <= i < j < picks.len() ==> order_key(row[#[trigger] picks[j] as int]) <= order_key(
            row[#[trigger] picks[i] as int],
        )
    &&& forall|i: int, e: int|
        0 <= i < picks.len() && 0 <= e < row.len() && !picks.contains(e as usize)
            ==> order_key(#[trigger] row[e]) <= order_key(row[#[trigger] picks[i] as int])
}

/// The index of a largest entry among those that are not taken.
fn largest_free(row: &Vec<u32>, taken: &Vec<bool>) -> (r: Option<usize>)
    requires
        row@.len() == taken@.len(),
    ensures
        match r {
            Some(best) => {
                &&& best < row@.len()
                &&& !taken@[best as int]
                &&& forall|e: int|
                    0 <= e < row@.len() && !taken@[e] ==> order_key(#[trigger] row@[e])
                        <= order_key(row@[best as int])
            },
            None => forall|e: int| 0 <= e < row@.len() ==> #[trigger] taken@[e],
        },
{
    let mut best: Option<usize> = None;
    let mut e: usize = 0;
    while e < row.len()
        invariant
            e <= row@.len(),
            row@.len() == taken@.len(),
            match best {
                Some(b) => {
                    &&& b < e
                    &&& !taken@[b as int]
                    &&& forall|i: int|
                        0 <= i < e && !taken@[i] ==> order_key(#[trigger] row@[i]) <= order_key(
                            row@[b as int],
                        )
                },
                None => forall|i: int| 0 <= i < e ==> #[trigger] taken@[i],
            },
        decreases row@.len() - e,
    {
        if !taken[e] {
            let better: bool = match best {
                Some(b) => key_of(row[b]) < key_of(row[e]),
                None => true,
            };
            if better {
                best = Some(e);
            }
        }
        e = e + 1;
    }
    best
}

/// A list without duplicates of numbers below `n` that is shorter than `n` leaves one out.
proof fn lemma_one_is_left(picks: Seq<usize>, n: nat)
    requires
        picks.no_duplicates(),
        forall|i: int| 0 <= i < picks.len() ==> #[trigger] picks[i] < n,
        forall|e: int| 0 <= e < n ==> #[trigger] picks.contains(e as usize),
        n <= usize::MAX,
    ensures
        picks.len() >= n,
{
    picks.unique_seq_to_set();
    let all = picks.to_set().map(|x: usize| x as int);
    let range = vstd::set_lib::set_int_range(0, n as int);
    vstd::set_lib::lemma_int_range(0, n as int);
    assert(range.subset_of(all)) by {
        assert forall|e: int| range.contains(e) implies all.contains(e) by {
            assert(picks.contains(e as usize));
            assert(picks.to_set().contains(e as usize));
        }
    }
    vstd::set_lib::lemma_map_size_bound(picks.to_set(), all, |x: usize| x as int);
    vstd::set_lib::lemma_len_subset(range, all);
}

/// The `k` most probable experts of a row of probabilities, given as `F32` bit patterns, the most
/// probable first.
pub fn top_experts(row: &Vec<u32>, k: usize) -> (r: Vec<usize>)
    requires
        k <= row@.len(),
    ensures
        r@.len() == k,
        is_top(row@, r@),
{
    let mut taken: Vec<bool> = Vec::new();
    let mut e: usize = 0;
    while e < row.len()
        invariant
            e <= row@.len(),
            taken@.len() == e,
            forall|i: int| 0 <= i < e ==> !#[trigger] taken@[i],
        decreases row@.len() - e,
    {
        taken.push(false);
        e = e + 1;
    }
    let n: usize = row.len();
    let mut picks: Vec<usize> = Vec::new();
    while picks.len() < k
        invariant
            n == row@.len(),
            k <= row@.len(),
            picks@.len() <= k,
            taken@.len() == row@.len(),
            is_top(row@, picks@),
            forall|i: int|
                0 <= i < row@.len() ==> (#[trigger] taken@[i] <==> picks@.contains(i as usize)),
        decreases k - picks@.len(),
    {
        let free = largest_free(row, &taken);
        let ghost before = picks@;
        match free {
            Some(best) => {
                picks.push(best);
                taken.set(best, true);
                proof {
                    assert(!before.contains(best));
                    assert forall|i: int| 0 <= i < row@.len() implies (#[trigger] taken@[i]
                        <==> picks@.contains(i as usize)) by {
                        assert(i as usize as int == i);
                        if i == best {
                            assert(picks@[before.len() as int] == best);
                        } else if before.contains(i as usize) {
                            let j = choose|j: int| 0 <= j < before.len() && before[j] == i as usize;
                            assert(picks@[j] == i as usize);
                        } else if picks@.contains(i as usize) {
                            let j = choose|j: int| 0 <= j < picks@.len() && picks@[j] == i as usize;
                            if j < before.len() {
                                assert(before[j] == i as usize);
                            }
                        }
                    }
                    assert forall|i: int, e: int|
                        0 <= i < picks@.len() && 0 <= e < row@.len() && !picks@.contains(
                            e as usize,
                        ) implies order_key(#[trigger] row@[e]) <= order_key(
                        row@[#[trigger] picks@[i] as int],
                    ) by {
                        assert(!taken@[e]);
                        assert(!before.contains(e as usize));
                        if i < before.len() {
                            assert(before[i] == picks@[i]);
                        }
                    }
                    assert forall|i: int, j: int| 0 <= i < j < picks@.len() implies order_key(
                        row@[#[trigger] picks@[j] as int],
                    ) <= order_key(row@[#[trigger] picks@[i] as int]) by {
                        assert(before[i] == picks@[i]);
                        if j < before.len() {
                            assert(before[j] == picks@[j]);
                        } else {
                            assert(!before.contains(best));
                            assert(row@[best as int] == row@[picks@[j] as int]);
                        }
                    }
                    assert forall|i: int| 0 <= i < picks@.len() implies #[trigger] picks@[i]
                        < row@.len() by {
                        if i < before.len() {
                            assert(before[i] == picks@[i]);
                        }
                    }
                }
            },
            None => {
                proof {
                    assert forall|e: int| 0 <= e < row@.len() implies #[trigger] picks@.contains(
                        e as usize,
                    ) by {
                        assert(taken@[e]);
                    }
                    lemma_one_is_left(picks@, row@.len());
                }
                return picks;
            },
        }
    }
    picks
}

/// The record of a sum, added up from the left.
pub open spec fn left_sum(terms: Seq<Expr>) -> Expr
    decreases terms.len(),
{
    if terms.len() <= 1 {
        terms[0]
    } else {
        tensor::binary(BinaryOp::Add, left_sum(terms.drop_last()), terms.last())
    }
}

/// The record of the probability of expert `e` for token `n`.
pub open spec fn prob_expr(probs: Expr, n: int, e: usize) -> Expr {
    tensor::narrowed(tensor::narrowed(probs, 0, n as nat, 1), 1, e as nat, 1)
}

/// The record of the probabilities of the picked experts, added up.
pub open spec fn prob_sum(probs: Expr, n: int, picks: Seq<usize>) -> Expr {
    left_sum(picks.map_values(|e: usize| prob_expr(probs, n, e)))
}

/// The record of an expert's own scale.
pub open spec fn scale_expr(scales: Expr, e: usize) -> Expr {
    tensor::reshaped(tensor::narrowed(scales, 0, e as nat, 1), seq![1, 1])
}

/// The record of a picked expert's weight: its share of the picked probabilities, times its own
/// scale.
pub open spec fn weight_expr(
    probs: Expr,
    scales: Expr,
    n: int,
    picks: Seq<usize>,
    e: usize,
) -> Expr {
    tensor::binary(
        BinaryOp::Mul,
        tensor::binary(BinaryOp::BroadcastDiv, prob_expr(probs, n, e), prob_sum(probs, n, picks)),
        scale_expr(scales, e),
    )
}

/// The shape of a single entry.
pub open spec fn single() -> Seq<usize> {
    seq![1, 1]
}

/// The experts of a token's picks.
pub open spec fn experts_of(picks: Seq<(usize, Traced)>) -> Seq<usize> {
    picks.map_values(|p: (usize, Traced)| p.0)
}

/// Row `n` of a table with `cols` columns that is written row by row.
pub open spec fn row_of(words: Seq<u32>, cols: int, n: int) -> Seq<u32> {
    words.subrange(n * cols, n * cols + cols)
}

/// A row has as many entries as there are columns.
proof fn lemma_row_len(words: Seq<u32>, rows: int, cols: int, n: int)
    requires
        0 <= n < rows,
        0 <= cols,
        words.len() == rows * cols,
    ensures
        row_of(words, cols, n).len() == cols,
{
    assert(0 <= n * cols <= n * cols + cols <= rows * cols) by (nonlinear_arith)
        requires
            0 <= n < rows,
            0 <= cols,
    ;
}

/// The picks of token `n` are the `top_k` most probable experts, each with its weight.
pub open spec fn is_routed(
    picks: Seq<(usize, Traced)>,
    row: Seq<u32>,
    probs: Expr,
    scales: Expr,
    n: int,
    top_k: usize,
) -> bool {
    &&& picks.len() == top_k
    &&& is_top(row, experts_of(picks))
    &&& forall|j: int|
        0 <= j < picks.len() ==> (#[trigger] picks[j]).1.expr() == weight_expr(
            probs,
            scales,
            n,
            experts_of(picks),
            picks[j].0,
        ) && picks[j].1.dims() == single()
}

/// All picks are below a bound.
pub open spec fn all_below(picks: Seq<usize>, bound: int) -> bool {
    forall|i: int| 0 <= i < picks.len() ==> #[trigger] picks[i] < bound
}

/// The picked probabilities of a token, added up from the left.
fn sum_probs(probs: &Traced, n: usize, picks: &Vec<usize>) -> (r: Result<Traced, ModelError>)
    requires
        picks@.len() > 0,
        probs.dims().len() == 2,
        tensor::is_float(probs.dtype()),
    ensures
        r matches Ok(t) ==> t.expr() == prob_sum(probs.expr(), n as int, picks@) && t.dims()
            == single(),
        r matches Err(e) ==> e is Candle,
        probs.is_local() && probs.dtype() == candle_core::DType::F32 && n < probs.dims()[0]
            && all_below(picks@, probs.dims()[1] as int) ==> (r matches Ok(t) && t.is_local()
            && t.dtype() == candle_core::DType::F32),
{
    let ghost fits = probs.is_local() && probs.dtype() == candle_core::DType::F32 && n
        < probs.dims()[0] && all_below(picks@, probs.dims()[1] as int);
    let row = probs.narrow(0, n, 1)?;
    let mut sum = row.narrow(1, picks[0], 1)?;
    assert(sum.dims() =~= single());
    let ghost terms = picks@.map_values(|e: usize| prob_expr(probs.expr(), n as int, e));
    let mut j: usize = 1;
    assert(terms.take(1)[0] == prob_expr(probs.expr(), n as int, picks@[0]));
    while j < picks.len()
        invariant
            1 <= j <= picks@.len(),
            terms == picks@.map_values(|e: usize| prob_expr(probs.expr(), n as int, e)),
            row.expr() == tensor::narrowed(probs.expr(), 0, n as nat, 1),
            sum.expr() == left_sum(terms.take(j as int)),
            sum.dims() == single(),
            tensor::is_float(sum.dtype()),
            fits == (probs.is_local() && probs.dtype() == candle_core::DType::F32 && n
                < probs.dims()[0] && all_below(picks@, probs.dims()[1] as int)),
            fits ==> {
                &&& row.is_local()
                &&& row.dtype() == candle_core::DType::F32
                &&& row.dims().len() == 2
                &&& row.dims()[0] == 1
                &&& all_below(picks@, row.dims()[1] as int)
                &&& sum.is_local()
                &&& sum.dtype() == candle_core::DType::F32
            },
        decreases picks@.len() - j,
    {
        let next = row.narrow(1, picks[j], 1)?;
        assert(fits ==> next.dims() =~= single());
        sum = sum.plus(&next)?;
        assert(terms.take(j + 1).drop_last() =~= terms.take(j as int));
        assert(terms.take(j + 1).last() == next.expr());
        j = j + 1;
    }
    assert(terms.take(j as int) =~= terms);
    Ok(sum)
}

/// A table of probabilities in main memory, and a scale for each of its columns.
pub open spec fn can_route(probs: Traced, scales: Traced) -> bool {
    &&& probs.is_local()
    &&& probs.dtype() == candle_core::DType::F32
    &&& probs.dims().len() == 2
    &&& scales.is_local()
    &&& scales.dtype() == candle_core::DType::F32
    &&& scales.dims() == seq![probs.dims()[1]]
}

/// The weights of a token's picks lie in main memory and are `F32`.
pub open spec fn are_local(picks: Seq<(usize, Traced)>) -> bool {
    forall|j: int|
        0 <= j < picks.len() ==> (#[trigger] picks[j]).1.is_local() && picks[j].1.dtype()
            == candle_core::DType::F32
}

/// The weighted picks of one token.
fn route_token(
    probs: &Traced,
    scales: &Traced,
    row: &Vec<u32>,
    n: usize,
    top_k: usize,
) -> (r: Result<Vec<(usize, Traced)>, ModelError>)
    requires
        0 < top_k <= row@.len(),
        probs.dims().len() == 2,
        probs.dtype() == candle_core::DType::F32,
    ensures
        r matches Ok(picks) ==> is_routed(
            picks@,
            row@,
            probs.expr(),
            scales.expr(),
            n as int,
            top_k,
        ),
        r matches Err(e) ==> e is Candle,
        can_route(*probs, *scales) && n < probs.dims()[0] && row@.len() == probs.dims()[1] ==> (
        r matches Ok(picks) && are_local(picks@)),
{
    let ghost fits = can_route(*probs, *scales) && n < probs.dims()[0] && row@.len()
        == probs.dims()[1];
    let picks = top_experts(row, top_k);
    let sum = sum_probs(probs, n, &picks)?;
    let all = probs.narrow(0, n, 1)?;
    let mut one: Vec<usize> = Vec::new();
    one.push(1);
    one.push(1);
    assert(one@ =~= seq![1, 1]);
    proof {
        tensor::lemma_countable_2(1, 1);
    }
    let mut out: Vec<(usize, Traced)> = Vec::new();
    let mut j: usize = 0;
    while j < picks.len()
        invariant
            j <= picks@.len(),
            out@.len() == j,
            one@ == seq![1usize, 1usize],
            tensor::countable(seq![1usize, 1usize]),
            all.dims().len() == 2,
            all.dims()[0] == 1,
            all.dtype() == candle_core::DType::F32,
            sum.dims() == single(),
            fits == (can_route(*probs, *scales) && n < probs.dims()[0] && row@.len()
                == probs.dims()[1]),
            fits ==> {
                &&& all.is_local()
                &&& all.dims()[1] == row@.len()
                &&& sum.is_local()
                &&& sum.dtype() == candle_core::DType::F32
                &&& scales.is_local()
                &&& scales.dtype() == candle_core::DType::F32
                &&& scales.dims() == seq![row@.len() as usize]
                &&& are_local(out@)
            },
            all_below(picks@, row@.len() as int),
            all.expr() == tensor::narrowed(probs.expr(), 0, n as nat, 1),
            sum.expr() == prob_sum(probs.expr(), n as int, picks@),
            forall|i: int|
                0 <= i < j ==> (#[trigger] out@[i]).0 == picks@[i] && out@[i].1.expr()
                    == weight_expr(probs.expr(), scales.expr(), n as int, picks@, picks@[i])
                    && out@[i].1.dims() == single(),
        decreases picks@.len() - j,
    {
        let e: usize = picks[j];
        assert(picks@[j as int] < row@.len());
        let prob = all.narrow(1, e, 1)?;
        assert(prob.dims() =~= single());
        let share = prob.broadcast_div(&sum)?;
        assert(tensor::broadcast_dims(single(), single()) =~= single());
        proof {
            tensor::lemma_countable_2(1, 1);
            tensor::lemma_countable_1(1);
            assert(fits ==> scales.dims().update(0, 1) =~= seq![1usize]);
        }
        let scale = scales.narrow(0, e, 1)?;
        let scale = scale.reshape(&one)?;
        let weight = share.times(&scale)?;
        out.push((e, weight));
        j = j + 1;
    }
    assert(experts_of(out@) =~= picks@);
    Ok(out)
}

/// The routes follow a table of probabilities, one row per token: each token's picks are its
/// `top_k` most probable experts, each with its weight.
pub open spec fn routes_follow(
    routes: Seq<Vec<(usize, Traced)>>,
    probs: Traced,
    scales: Expr,
    top_k: usize,
) -> bool {
    &&& probs.dims().len() == 2
    &&& 0 < top_k <= probs.dims()[1]
    &&& routes.len() == probs.dims()[0]
    &&& probs.words().len() == probs.dims()[0] * probs.dims()[1]
    &&& forall|n: int|
        0 <= n < routes.len() ==> is_routed(
            (#[trigger] routes[n])@,
            row_of(probs.words(), probs.dims()[1] as int, n),
            probs.expr(),
            scales,
            n,
            top_k,
        )
}

/// `usize` cannot count the tokens or the entries of a hidden state `[batch, positions, hidden]`.
pub open spec fn tokens_too_large(dims: Seq<usize>) -> bool {
    ||| dims[0] * dims[1] > usize::MAX
    ||| !tensor::countable(seq![(dims[0] * dims[1]) as usize, dims[2]])
    ||| !tensor::countable(dims)
}

/// A token has picks, each with a single entry as its weight, all of experts below `bound`.
pub open spec fn picks_below(picks: Seq<(usize, Traced)>, bound: int) -> bool {
    picks.len() > 0 && forall|j: int|
        0 <= j < picks.len() ==> (#[trigger] picks[j]).1.dims() == single() && picks[j].0 < bound
}

/// What contracts see of a token's picks: the experts, and how their weights came about.
pub open spec fn picks_view(picks: Seq<(usize, Traced)>) -> Seq<(usize, Expr)> {
    picks.map_values(|p: (usize, Traced)| (p.0, p.1.expr()))
}

/// What contracts see of all tokens' picks.
pub open spec fn routes_view(routes: Seq<Vec<(usize, Traced)>>) -> Seq<Seq<(usize, Expr)>> {
    routes.map_values(|picks: Vec<(usize, Traced)>| picks_view(picks@))
}

/// The experts that were picked for each token.
pub open spec fn experts_picked(routes: Seq<Vec<(usize, Traced)>>) -> Seq<Seq<usize>> {
    routes.map_values(|picks: Vec<(usize, Traced)>| experts_of(picks@))
}

/// The picked experts with the weights that the probabilities and scales give them.
pub open spec fn weighted(picks: Seq<Seq<usize>>, probs: Expr, scales: Expr) -> Seq<
    Seq<(usize, Expr)>,
> {
    Seq::new(
        picks.len(),
        |n: int|
            picks[n].map_values(|e: usize| (e, weight_expr(probs, scales, n, picks[n], e))),
    )
}

/// The picks follow a table of probabilities, one row per token: each token's are its `top_k` most
/// probable experts.
pub open spec fn picks_follow(picks: Seq<Seq<usize>>, probs: Traced, top_k: usize) -> bool {
    &&& probs.dims().len() == 2
    &&& 0 < top_k <= probs.dims()[1]
    &&& picks.len() == probs.dims()[0]
    &&& probs.words().len() == probs.dims()[0] * probs.dims()[1]
    &&& forall|n: int|
        0 <= n < picks.len() ==> (#[trigger] picks[n]).len() == top_k && is_top(
            row_of(probs.words(), probs.dims()[1] as int, n),
            picks[n],
        )
}

/// Routes that follow a table of probabilities are the picked experts with the weights that the
/// table gives them.
pub proof fn lemma_routes_are_weighted(
    routes: Seq<Vec<(usize, Traced)>>,
    probs: Traced,
    scales: Expr,
    top_k: usize,
)
    requires
        routes_follow(routes, probs, scales, top_k),
    ensures
        picks_follow(experts_picked(routes), probs, top_k),
        forall|n: int|
            0 <= n < routes.len() ==> picks_below(
                (#[trigger] routes[n])@,
                probs.dims()[1] as int,
            ),
        routes_view(routes) == weighted(experts_picked(routes), probs.expr(), scales),
{
    let picks = experts_picked(routes);
    assert forall|n: int| 0 <= n < routes.len() implies routes_view(routes)[n] =~= weighted(
        picks,
        probs.expr(),
        scales,
    )[n] by {
        assert(is_routed(
            routes[n]@,
            row_of(probs.words(), probs.dims()[1] as int, n),
            probs.expr(),
            scales,
            n,
            top_k,
        ));
        assert(picks[n] == experts_of(routes[n]@));
    }
    assert(routes_view(routes) =~= weighted(picks, probs.expr(), scales));
    assert forall|n: int| 0 <= n < picks.len() implies (#[trigger] picks[n]).len() == top_k
        && is_top(row_of(probs.words(), probs.dims()[1] as int, n), picks[n]) by {
        assert(is_routed(
            routes[n]@,
            row_of(probs.words(), probs.dims()[1] as int, n),
            probs.expr(),
            scales,
            n,
            top_k,
        ));
    }
    assert forall|n: int| 0 <= n < routes.len() implies picks_below(
        (#[trigger] routes[n])@,
        probs.dims()[1] as int,
    ) by {
        let row = row_of(probs.words(), probs.dims()[1] as int, n);
        assert(is_routed(routes[n]@, row, probs.expr(), scales, n, top_k));
        assert forall|j: int| 0 <= j < routes[n]@.len() implies (#[trigger] routes[n]@[j]).1.dims()
            == single() && routes[n]@[j].0 < probs.dims()[1] by {
            assert(experts_of(routes[n]@)[j] == routes[n]@[j].0);
            lemma_row_len(probs.words(), routes.len() as int, probs.dims()[1] as int, n);
        }
    }
}

/// The weighted picks of every token, given the experts' probabilities, one row per token, and the
/// experts' own scales.
pub fn route(probs: &Traced, scales: &Traced, top_k: usize) -> (r: Result<
    Vec<Vec<(usize, Traced)>>,
    ModelError,
>)
    ensures
        if probs.dtype() != candle_core::DType::F32 {
            r == Err::<Vec<Vec<(usize, Traced)>>, ModelError>(ModelError::ElementType)
        } else if probs.dims().len() != 2 {
            r == Err::<Vec<Vec<(usize, Traced)>>, ModelError>(
                ModelError::Rank { expected: 2, got: probs.dims().len() as usize },
            )
        } else if !(0 < top_k <= probs.dims()[1]) {
            r == Err::<Vec<Vec<(usize, Traced)>>, ModelError>(
                ModelError::TopK { top_k, experts: probs.dims()[1] },
            )
        } else {
            match r {
                Ok(routes) => routes_follow(routes@, *probs, scales.expr(), top_k),
                Err(e) => e is Candle,
            }
        },
        can_route(*probs, *scales) && 0 < top_k <= probs.dims()[1] ==> (r matches Ok(routes)
            && forall|n: int| 0 <= n < routes@.len() ==> are_local((#[trigger] routes@[n])@)),
{
    match probs.element_type() {
        candle_core::DType::F32 => {},
        _ => {
            return Err(ModelError::ElementType);
        },
    }
    let (tokens, experts): (usize, usize) = probs.dims2()?;
    if top_k == 0 || top_k > experts {
        return Err(ModelError::TopK { top_k, experts });
    }
    let words = probs.to_words()?;
    let ghost cols = experts as int;
    assert(probs.dims() =~= seq![tokens, experts]);
    proof {
        reveal_with_fuel(tensor::count_of, 3);
        assert(tensor::count_of(probs.dims()) == tokens * experts) by {
            assert(1 * tokens * experts == tokens * experts) by (nonlinear_arith);
            assert(probs.dims().drop_last() =~= seq![tokens]);
        }
    }
    let len: usize = words.len();
    let mut routes: Vec<Vec<(usize, Traced)>> = Vec::new();
    let mut n: usize = 0;
    while n < tokens
        invariant
            n <= tokens,
            0 < top_k <= experts,
            probs.dtype() == candle_core::DType::F32,
            len == words@.len(),
            len == tokens * experts,
            words@ == probs.words(),
            cols == experts,
            probs.dims() == seq![tokens, experts],
            routes@.len() == n,
            can_route(*probs, *scales) ==> forall|i: int|
                0 <= i < n ==> are_local((#[trigger] routes@[i])@),
            forall|i: int|
                0 <= i < n ==> is_routed(
                    (#[trigger] routes@[i])@,
                    row_of(probs.words(), cols, i),
                    probs.expr(),
                    scales.expr(),
                    i,
                    top_k,
                ),
        decreases tokens - n,
    {
        proof {
            assert(0 <= n * experts <= n * experts + experts <= tokens * experts)
                by (nonlinear_arith)
                requires
                    0 <= n < tokens,
                    0 <= experts,
            ;
        }
        let mut row: Vec<u32> = Vec::new();
        let start: usize = n * experts;
        let mut e: usize = 0;
        while e < experts
            invariant
                e <= experts,
                start == n * experts,
                start + experts <= words@.len(),
                len == words@.len(),
                row@ == words@.subrange(start as int, start + e),
            decreases experts - e,
        {
            row.push(words[start + e]);
            e = e + 1;
            assert(row@ =~= words@.subrange(start as int, start + e));
        }
        routes.push(route_token(probs, scales, &row, n, top_k)?);
        n = n + 1;
    }
    Ok(routes)
}

/// What a sum of tensors adds up, each as often as it is added.
pub open spec fn addends(e: Expr) -> vstd::multiset::Multiset<Expr>
    decreases e,
{
    match e {
        Expr::Binary(BinaryOp::Add, a, b) => addends(*a).add(addends(*b)),
        _ => vstd::multiset::Multiset::singleton(e),
    }
}

/// No term is a sum itself.
pub open spec fn are_plain(terms: Seq<Expr>) -> bool {
    forall|i: int| 0 <= i < terms.len() ==> !((#[trigger] terms[i]) is Binary)
}

/// A sum adds up exactly its terms, each as often as it stands there.
pub proof fn law_sums_add_every_term_once(terms: Seq<Expr>)
    requires
        terms.len() > 0,
        are_plain(terms),
    ensures
        addends(left_sum(terms)) == terms.to_multiset(),
    decreases terms.len(),
{
    broadcast use vstd::seq_lib::group_to_multiset_ensures;

    if terms.len() == 1 {
        assert(terms =~= Seq::empty().push(terms[0]));
        assert(terms.to_multiset() =~= vstd::multiset::Multiset::singleton(terms[0]));
    } else {
        let rest = terms.drop_last();
        assert forall|i: int| 0 <= i < rest.len() implies !((#[trigger] rest[i]) is Binary) by {
            assert(rest[i] == terms[i]);
        }
        law_sums_add_every_term_once(rest);
        assert(terms =~= rest.push(terms.last()));
        assert(!(terms[terms.len() - 1] is Binary));
        assert(addends(terms.last()) == vstd::multiset::Multiset::singleton(terms.last()));
        assert(addends(left_sum(terms)) =~= terms.to_multiset());
    }
}

/// What a picked expert's weight divides.
pub open spec fn numerator(weight: Expr) -> Expr {
    match weight {
        Expr::Binary(BinaryOp::Mul, share, _) => match *share {
            Expr::Binary(BinaryOp::BroadcastDiv, a, _) => *a,
            _ => arbitrary(),
        },
        _ => arbitrary(),
    }
}

/// What a picked expert's weight divides by.
pub open spec fn divisor(weight: Expr) -> Expr {
    match weight {
        Expr::Binary(BinaryOp::Mul, share, _) => match *share {
            Expr::Binary(BinaryOp::BroadcastDiv, _, b) => *b,
            _ => arbitrary(),
        },
        _ => arbitrary(),
    }
}

/// Whatever the number of experts, what the weight of each of a token's picks divides by adds up what
/// the weights of all its picks divide, each exactly once, and nothing else.
pub proof fn law_weights_divide_by_all_picks(
    picks: Seq<(usize, Traced)>,
    row: Seq<u32>,
    probs: Expr,
    scales: Expr,
    n: int,
    top_k: usize,
    j: int,
)
    requires
        is_routed(picks, row, probs, scales, n, top_k),
        0 <= j < picks.len(),
    ensures
        addends(divisor(picks[j].1.expr())) == picks.map_values(
            |p: (usize, Traced)| numerator(p.1.expr()),
        ).to_multiset(),
        numerator(picks[j].1.expr()) == tensor::narrowed(
            tensor::narrowed(probs, 0, n as nat, 1),
            1,
            picks[j].0 as nat,
            1,
        ),
{
    let experts = experts_of(picks);
    let terms = experts.map_values(|e: usize| prob_expr(probs, n, e));
    assert(are_plain(terms));
    law_sums_add_every_term_once(terms);
    let tops = picks.map_values(|p: (usize, Traced)| numerator(p.1.expr()));
    assert forall|i: int| 0 <= i < picks.len() implies tops[i] == terms[i] by {
        assert(picks[i].1.expr() == weight_expr(probs, scales, n, experts, picks[i].0));
        assert(experts[i] == picks[i].0);
    }
    assert(tops =~= terms);
    assert(picks[j].1.expr() == weight_expr(probs, scales, n, experts, picks[j].0));
}

/// The place of a single entry.
pub open spec fn only() -> Seq<int> {
    seq![0, 0]
}

/// The probabilities of the picks of a token.
pub open spec fn picked(probs: Expr, n: int, picks: Seq<usize>, v: Values) -> spec_fn(int) -> real {
    |j: int| entry(probs, seq![n, picks[j] as int], v)
}

/// A sum has the entries of its terms added up.
pub proof fn lemma_left_sum(terms: Seq<Expr>, at: Seq<int>, v: Values)
    requires
        terms.len() > 0,
    ensures
        entry(left_sum(terms), at, v) == total(
            terms.len() as int,
            |j: int| entry(terms[j], at, v),
        ),
        shape_of(left_sum(terms)) == shape_of(terms[0]),
    decreases terms.len(),
{
    let f = |j: int| entry(terms[j], at, v);
    if terms.len() == 1 {
        assert(total(0, f) == 0 as real);
        assert(total(1, f) == total(0, f) + f(0));
    } else {
        let rest = terms.drop_last();
        let g = |j: int| entry(rest[j], at, v);
        lemma_left_sum(rest, at, v);
        assert forall|k: int| 0 <= k < rest.len() implies #[trigger] f(k) == g(k) by {
            assert(rest[k] == terms[k]);
        }
        meaning::lemma_total_alike(rest.len() as int, f, g);
        assert(f(terms.len() - 1) == entry(terms.last(), at, v));
    }
}

/// A probability is an entry of the table.
proof fn lemma_prob(probs: Expr, n: int, e: usize, v: Values)
    requires
        shape_of(probs).len() == 2,
        n >= 0,
    ensures
        shape_of(prob_expr(probs, n, e)) == single(),
        entry(prob_expr(probs, n, e), only(), v) == entry(probs, seq![n, e as int], v),
{
    let row = tensor::narrowed(probs, 0, n as nat, 1);
    assert(shape_of(row) == shape_of(probs).update(0, 1));
    assert(shape_of(prob_expr(probs, n, e)) =~= single());
    assert(only().update(1, 0 + e as int) =~= seq![0, e as int]);
    assert(entry(prob_expr(probs, n, e), only(), v) == entry(row, seq![0, e as int], v));
    assert(seq![0, e as int].update(0, 0 + n as int) =~= seq![n, e as int]);
}

/// The weight of a token's pick is the pick's probability, divided by the sum of those of all the
/// token's picks, times the expert's own scale.
pub proof fn law_weights_are_shares(
    probs: Expr,
    scales: Expr,
    n: int,
    picks: Seq<usize>,
    j: int,
    v: Values,
)
    requires
        shape_of(probs).len() == 2,
        shape_of(scales).len() == 1,
        n >= 0,
        0 <= j < picks.len(),
    ensures
        entry(weight_expr(probs, scales, n, picks, picks[j]), only(), v) == entry(
            probs,
            seq![n, picks[j] as int],
            v,
        ) / total(picks.len() as int, picked(probs, n, picks, v)) * entry(
            scales,
            seq![picks[j] as int],
            v,
        ),
        shape_of(weight_expr(probs, scales, n, picks, picks[j])) == single(),
{
    let e = picks[j];
    let terms = picks.map_values(|e: usize| prob_expr(probs, n, e));
    let at = only();
    let sum = prob_sum(probs, n, picks);
    lemma_left_sum(terms, at, v);
    lemma_prob(probs, n, e, v);
    lemma_prob(probs, n, picks[0], v);
    assert(terms[0] == prob_expr(probs, n, picks[0]));
    let (f, g) = (|j: int| entry(terms[j], at, v), picked(probs, n, picks, v));
    assert forall|k: int| 0 <= k < picks.len() implies #[trigger] f(k) == g(k) by {
        lemma_prob(probs, n, picks[k], v);
    }
    meaning::lemma_total_alike(picks.len() as int, f, g);
    assert(meaning::clipped(at, single()) =~= at);
    let share = tensor::binary(BinaryOp::BroadcastDiv, prob_expr(probs, n, e), sum);
    assert(entry(share, at, v) == entry(prob_expr(probs, n, e), at, v) / entry(sum, at, v));
    assert(shape_of(share) =~= single());
    let cut = tensor::narrowed(scales, 0, e as nat, 1);
    assert(shape_of(cut) =~= seq![1usize]);
    let from = seq![0int];
    meaning::lemma_flat_2(at, single());
    reveal_with_fuel(meaning::flat, 2);
    assert(meaning::flat(from, shape_of(cut)) == 0);
    meaning::lemma_reshaped(cut, single(), at, from, v);
    assert(from.update(0, 0 + e as int) =~= seq![e as int]);
    assert(entry(cut, from, v) == entry(scales, seq![e as int], v));
    assert(entry(scale_expr(scales, e), at, v) == entry(scales, seq![e as int], v));
}

/// Where the scales of a token's picks are one, the weights of its picks add up to one.
pub proof fn law_weights_sum_to_one(
    picks: Seq<(usize, Traced)>,
    row: Seq<u32>,
    probs: Expr,
    scales: Expr,
    n: int,
    top_k: usize,
    v: Values,
)
    requires
        is_routed(picks, row, probs, scales, n, top_k),
        shape_of(probs).len() == 2,
        shape_of(scales).len() == 1,
        n >= 0,
        top_k > 0,
        forall|j: int|
            0 <= j < picks.len() ==> entry(scales, seq![(#[trigger] picks[j]).0 as int], v)
                == 1 as real,
        total(
            top_k as int,
            |j: int| entry(probs, seq![n, picks[j].0 as int], v),
        ) != 0 as real,
    ensures
        total(top_k as int, |j: int| entry(picks[j].1.expr(), seq![0, 0], v)) == 1 as real,
{
    let experts = experts_of(picks);
    let f = picked(probs, n, experts, v);
    let plain = |j: int| entry(probs, seq![n, picks[j].0 as int], v);
    let g = |j: int| entry(picks[j].1.expr(), seq![0, 0], v);
    meaning::lemma_total_alike(top_k as int, f, plain);
    let d = total(top_k as int, f);
    assert forall|j: int| 0 <= j < top_k implies #[trigger] g(j) == f(j) / d by {
        assert(experts[j] == picks[j].0);
        law_weights_are_shares(probs, scales, n, experts, j, v);
        let share = f(j) / d;
        assert(share * 1 as real == share) by (nonlinear_arith);
    }
    meaning::lemma_total_of_shares(top_k as int, f, g, d);
    assert(d / d == 1 as real) by (nonlinear_arith)
        requires
            d != 0 as real,
    ;
}

/// The order of numbers is that of their bit patterns, read with their sign: of two numbers without a
/// sign the one with the larger pattern comes later, of two with a sign the one with the larger
/// pattern comes earlier, and every number with a sign comes before every one without.
pub proof fn law_order_of_patterns(a: u32, b: u32)
    ensures
        a < 0x8000_0000 && b < 0x8000_0000 ==> (order_key(a) < order_key(b) <==> a < b),
        a >= 0x8000_0000 && b >= 0x8000_0000 ==> (order_key(a) < order_key(b) <==> a > b),
        a >= 0x8000_0000 && b < 0x8000_0000 ==> order_key(a) < order_key(b),
        order_key(a) == order_key(b) ==> a == b,
{
}

/// The entries of rows that are put below each other are those of the rows.
pub proof fn lemma_rows_below(rows: Seq<Expr>, n: usize, at: Seq<int>, v: Values)
    requires
        rows.len() > 0,
        rows.len() <= usize::MAX,
        forall|i: int| 0 <= i < rows.len() ==> shape_of(#[trigger] rows[i]) == seq![1, n],
        meaning::is_index(at, seq![rows.len() as usize, n]),
    ensures
        shape_of(Expr::Cat(rows, 0)) == seq![rows.len() as usize, n],
        entry(Expr::Cat(rows, 0), at, v) == entry(rows[at[0]], seq![0, at[1]], v),
{
    let lens = meaning::extents(rows, 0);
    assert forall|k: int| 0 <= k < rows.len() implies #[trigger] lens[k] == 1 by {
        assert(shape_of(rows[k]) == seq![1, n]);
    }
    let g = |m: int| lens[m];
    meaning::lemma_count_ones(rows.len() as int, g);
    meaning::lemma_cat_shape(rows, 0, lens);
    assert(shape_of(rows[0]) == seq![1, n]);
    assert(shape_of(Expr::Cat(rows, 0)) =~= seq![rows.len() as usize, n]);
    assert(0 <= at[0] < seq![rows.len() as usize, n][0]);
    meaning::lemma_run_of_parts(lens, rows.len() as int, at[0]);
    assert(at.update(0, 0) =~= seq![0, at[1]]);
}

/// A hidden state seen with one row per token: token `b * seq_len + t` is position `t` of sequence
/// `b`.
pub proof fn lemma_tokens(x: Expr, dims: Seq<usize>, at: Seq<int>, v: Values)
    requires
        dims.len() == 3,
        shape_of(x) == dims,
        dims[0] * dims[1] <= usize::MAX,
        meaning::is_index(at, dims),
    ensures
        entry(
            tensor::reshaped(x, seq![(dims[0] * dims[1]) as usize, dims[2]]),
            seq![at[0] * dims[1] + at[1], at[2]],
            v,
        ) == entry(x, at, v),
        0 <= at[0] * dims[1] + at[1] < dims[0] * dims[1],
{
    let flat = seq![(dims[0] * dims[1]) as usize, dims[2]];
    let there = seq![at[0] * dims[1] + at[1], at[2]];
    assert(0 <= at[0] < dims[0] && 0 <= at[1] < dims[1]);
    assert(0 <= at[0] * dims[1] + at[1] < dims[0] * dims[1]) by (nonlinear_arith)
        requires
            0 <= at[0] < dims[0],
            0 <= at[1] < dims[1],
    ;
    meaning::lemma_flat_3(at, dims);
    meaning::lemma_flat_2(there, flat);
    meaning::lemma_reshaped(x, flat, there, at, v);
}

/// The other way round.
pub proof fn lemma_tokens_back(x: Expr, dims: Seq<usize>, at: Seq<int>, v: Values)
    requires
        dims.len() == 3,
        dims[0] * dims[1] <= usize::MAX,
        shape_of(x) == seq![(dims[0] * dims[1]) as usize, dims[2]],
        meaning::is_index(at, dims),
    ensures
        entry(tensor::reshaped(x, dims), at, v) == entry(
            x,
            seq![at[0] * dims[1] + at[1], at[2]],
            v,
        ),
        0 <= at[0] * dims[1] + at[1] < dims[0] * dims[1],
{
    let flat = seq![(dims[0] * dims[1]) as usize, dims[2]];
    let there = seq![at[0] * dims[1] + at[1], at[2]];
    assert(0 <= at[0] < dims[0] && 0 <= at[1] < dims[1] && 0 <= at[2] < dims[2]);
    assert(0 <= at[0] * dims[1] + at[1] < dims[0] * dims[1]) by (nonlinear_arith)
        requires
            0 <= at[0] < dims[0],
            0 <= at[1] < dims[1],
    ;
    meaning::lemma_flat_3(at, dims);
    meaning::lemma_flat_2(there, flat);
    assert(meaning::is_index(there, flat));
    meaning::lemma_reshaped(x, dims, at, there, v);
}

/// The rows of a table are its entries, row by row: nothing is skipped or read twice.
pub proof fn law_rows_are_read_in_order(words: Seq<u32>, rows: int, cols: int, n: int, e: int)
    requires
        0 <= n < rows,
        0 <= e < cols,
        words.len() == rows * cols,
    ensures
        row_of(words, cols, n).len() == cols,
        row_of(words, cols, n)[e] == words[n * cols + e],
{
    lemma_row_len(words, rows, cols, n);
    assert(0 <= n * cols <= n * cols + cols <= rows * cols) by (nonlinear_arith)
        requires
            0 <= n < rows,
            0 <= cols,
    ;
}

/// The picks of a row are the best that there are: no other choice of as many experts, none twice, has
/// a better worst one.
pub proof fn law_picks_are_the_best(row: Seq<u32>, picks: Seq<usize>, others: Seq<usize>)
    requires
        is_top(row, picks),
        picks.len() > 0,
        others.len() == picks.len(),
        others.no_duplicates(),
        forall|i: int| 0 <= i < others.len() ==> #[trigger] others[i] < row.len(),
        row.len() <= usize::MAX,
    ensures
        exists|i: int|
            0 <= i < others.len() && order_key(row[#[trigger] others[i] as int]) <= order_key(
                row[picks.last() as int],
            ),
{
    let last = picks.len() - 1;
    if others.contains(picks[last]) {
        let i = choose|i: int| 0 <= i < others.len() && others[i] == picks[last];
        assert(order_key(row[others[i] as int]) <= order_key(row[picks.last() as int]));
    } else {
        // One of the others is not among the picks.
        if forall|i: int| 0 <= i < others.len() ==> picks.contains(#[trigger] others[i]) {
            let rest = picks.drop_last();
            assert forall|i: int| 0 <= i < others.len() implies rest.contains(
                #[trigger] others[i],
            ) by {
                assert(picks.contains(others[i]));
                let j = choose|j: int| 0 <= j < picks.len() && picks[j] == others[i];
                assert(others.contains(others[i]));
                assert(j != last);
                assert(rest[j] == others[i]);
            }
            others.unique_seq_to_set();
            assert(rest.no_duplicates()) by {
                assert forall|i: int, j: int|
                    0 <= i < rest.len() && 0 <= j < rest.len() && i != j implies rest[i]
                    != rest[j] by {
                    assert(picks[i] != picks[j]);
                }
            }
            rest.unique_seq_to_set();
            assert(others.to_set().subset_of(rest.to_set())) by {
                assert forall|e: usize| others.to_set().contains(e) implies rest.to_set().contains(
                    e,
                ) by {
                    let i = choose|i: int| 0 <= i < others.len() && others[i] == e;
                    assert(rest.contains(others[i]));
                }
            }
            vstd::set_lib::lemma_len_subset(others.to_set(), rest.to_set());
        }
        let i = choose|i: int| 0 <= i < others.len() && !picks.contains(#[trigger] others[i]);
        let e = others[i] as int;
        assert(others[i] == e as usize);
        assert(picks[last] == picks.last());
        assert(order_key(row[e]) <= order_key(row[picks[last] as int]));
    }
}

} // verus!
