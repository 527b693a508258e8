//! Additive attention masks over absolute positions.
//!
//! A mask entry is `0` where a query may attend a key and negative infinity where it may not. The
//! entries are written as the bit patterns of `F32` numbers.

use crate::error::ModelError;
use crate::meaning::{self, entry, is_index, shape_of, Values};
use crate::tensor::{self, Expr, Traced};
use vstd::prelude::*;

verus! {

/// The bit pattern of `0`: the key is admitted.
pub const ADMITTED: u32 = 0;

/// The bit pattern of negative infinity: the key is masked.
pub const MASKED: u32 = 0xff80_0000;

/// Whether the query at position `q` may attend the key at position `j`: no key lies in the future,
/// and under a window `w` none lies further back than `q - w`. The window admits `w` keys and the
/// query's own.
pub open spec fn admits(q: int, j: int, window: Option<usize>) -> bool {
    j <= q && match window {
        Some(w) => q <= j + w,
        None => true,
    }
}

/// A mask entry.
pub open spec fn mask_word(q: int, j: int, window: Option<usize>) -> u32 {
    if admits(q, j, window) {
        ADMITTED
    } else {
        MASKED
    }
}

/// The entries of a mask, row by row. Row `i` is the query at position `index_pos + i`; the columns
/// are the `kv_len` positions that end at the last query.
pub open spec fn mask_words(
    tgt_len: nat,
    index_pos: nat,
    kv_len: nat,
    window: Option<usize>,
) -> Seq<u32> {
    Seq::new(
        tgt_len * kv_len,
        |n: int|
            mask_word(
                index_pos + n / kv_len as int,
                index_pos + tgt_len - kv_len + n % kv_len as int,
                window,
            ),
    )
}

/// The record of an additive causal mask.
pub open spec fn causal_mask_expr(
    b_sz: usize,
    tgt_len: usize,
    index_pos: usize,
    kv_len: usize,
    window: Option<usize>,
    device: candle_core::Device,
) -> Expr {
    Expr::Expand(
        Box::new(
            Expr::Words {
                dims: seq![tgt_len, kv_len],
                words: mask_words(tgt_len as nat, index_pos as nat, kv_len as nat, window),
                device,
            },
        ),
        seq![b_sz, 1, tgt_len, kv_len],
    )
}

/// Row and column of an entry that is counted row by row.
proof fn lemma_row_and_column(i: int, c: int, cols: int)
    requires
        0 <= i,
        0 <= c < cols,
    ensures
        (i * cols + c) / cols == i,
        (i * cols + c) % cols == c,
{
    vstd::arithmetic::div_mod::lemma_fundamental_div_mod_converse(i * cols + c, cols, i, c);
}

/// The entry of a mask in row `i` and column `c`.
pub proof fn lemma_mask_entry(
    tgt_len: nat,
    index_pos: nat,
    kv_len: nat,
    window: Option<usize>,
    i: int,
    c: int,
)
    requires
        0 <= i < tgt_len,
        0 <= c < kv_len,
    ensures
        0 <= i * kv_len + c < mask_words(tgt_len, index_pos, kv_len, window).len(),
        mask_words(tgt_len, index_pos, kv_len, window)[i * kv_len + c] == mask_word(
            index_pos + i,
            index_pos + tgt_len - kv_len + c,
            window,
        ),
{
    lemma_row_and_column(i, c, kv_len as int);
    assert(0 <= i * kv_len + c < tgt_len * kv_len) by (nonlinear_arith)
        requires
            0 <= i < tgt_len,
            0 <= c < kv_len,
    ;
}

/// Additive causal mask over absolute positions, of shape `[b_sz, 1, tgt_len, kv_len]`. The query in
/// row `i` sits at position `index_pos + i`; the `kv_len` key columns are the last `kv_len`
/// positions that end at the final query: the whole history on global layers, only the retained
/// tail on sliding layers.
pub fn causal_mask(
    b_sz: usize,
    tgt_len: usize,
    index_pos: usize,
    kv_len: usize,
    sliding_window: Option<usize>,
    device: &candle_core::Device,
) -> (r: Result<Traced, ModelError>)
    requires
        kv_len <= index_pos + tgt_len <= usize::MAX,
        4 * (tgt_len * kv_len) <= usize::MAX,
    ensures
        r matches Ok(t) ==> {
            &&& t.expr() == causal_mask_expr(
                b_sz,
                tgt_len,
                index_pos,
                kv_len,
                sliding_window,
                *device,
            )
            &&& t.dims() == seq![b_sz, 1, tgt_len, kv_len]
            &&& t.dtype() == candle_core::DType::F32
            &&& t.device() == *device
            &&& t.words().len() == tensor::count_of(seq![b_sz, 1, tgt_len, kv_len])
            &&& forall|n: int|
                0 <= n < t.words().len() ==> #[trigger] t.words()[n] == mask_words(
                    tgt_len as nat,
                    index_pos as nat,
                    kv_len as nat,
                    sliding_window,
                )[n % (tgt_len * kv_len)]
        },
        r matches Err(e) ==> e is Candle || (e is ShapeTooLarge && !tensor::countable(
            seq![b_sz, 1, tgt_len, kv_len],
        )),
        tensor::is_main_memory(*device) && tensor::countable(seq![b_sz, 1, tgt_len, kv_len])
            ==> r is Ok,
{
    let key_start: usize = index_pos + tgt_len - kv_len;
    let ghost all = mask_words(tgt_len as nat, index_pos as nat, kv_len as nat, sliding_window);
    let mut mask: Vec<u32> = Vec::new();
    let mut i: usize = 0;
    while i < tgt_len
        invariant
            i <= tgt_len,
            key_start == index_pos + tgt_len - kv_len,
            kv_len <= index_pos + tgt_len <= usize::MAX,
            all == mask_words(tgt_len as nat, index_pos as nat, kv_len as nat, sliding_window),
            mask@.len() == i * kv_len,
            mask@ == all.take(i * kv_len as int),
        decreases tgt_len - i,
    {
        let q: usize = index_pos + i;
        let mut c: usize = 0;
        while c < kv_len
            invariant
                c <= kv_len,
                i < tgt_len,
                q == index_pos + i,
                key_start == index_pos + tgt_len - kv_len,
                kv_len <= index_pos + tgt_len <= usize::MAX,
                all == mask_words(tgt_len as nat, index_pos as nat, kv_len as nat, sliding_window),
                mask@.len() == i * kv_len + c,
                mask@ == all.take(i * kv_len + c),
            decreases kv_len - c,
        {
            let j: usize = key_start + c;
            let too_old: bool = match sliding_window {
                Some(w) => w < q && j < q - w,
                None => false,
            };
            let word: u32 = if j > q || too_old {
                MASKED
            } else {
                ADMITTED
            };
            proof {
                lemma_mask_entry(
                    tgt_len as nat,
                    index_pos as nat,
                    kv_len as nat,
                    sliding_window,
                    i as int,
                    c as int,
                );
            }
            mask.push(word);
            c = c + 1;
            assert(mask@ =~= all.take(i * kv_len + c));
        }
        proof {
            assert((i + 1) * kv_len == i * kv_len + kv_len) by (nonlinear_arith);
        }
        i = i + 1;
    }
    assert(all.take(tgt_len * kv_len) =~= all);
    let mut dims: Vec<usize> = Vec::new();
    dims.push(tgt_len);
    dims.push(kv_len);
    proof {
        tensor::lemma_countable_2(tgt_len, kv_len);
        assert(dims@ =~= seq![tgt_len, kv_len]);
    }
    let flat = Traced::from_words(&mask, &dims, device)?;
    let mut stretched: Vec<usize> = Vec::new();
    stretched.push(b_sz);
    stretched.push(1);
    stretched.push(tgt_len);
    stretched.push(kv_len);
    assert(stretched@ =~= seq![b_sz, 1, tgt_len, kv_len]);
    assert(dims@.is_suffix_of(stretched@)) by {
        assert(stretched@.subrange(2, 4) =~= dims@);
    }
    flat.expand(&stretched)
}

/// The entries of the mask among the `tgt_len` positions of one chunk, row by row.
pub open spec fn chunk_words(tgt_len: nat, window: Option<usize>) -> Seq<u32> {
    Seq::new(
        tgt_len * tgt_len,
        |n: int| mask_word(n / tgt_len as int, n % tgt_len as int, window),
    )
}

/// The entries of a chunk's mask behind `seqlen_offset` columns that are all admitted, row by row.
pub open spec fn decoder_words(tgt_len: nat, seqlen_offset: nat, window: Option<usize>) -> Seq<u32> {
    Seq::new(
        tgt_len * (seqlen_offset + tgt_len),
        |n: int|
            {
                let row = n / (seqlen_offset + tgt_len) as int;
                let col = n % (seqlen_offset + tgt_len) as int;
                if col < seqlen_offset {
                    ADMITTED
                } else {
                    mask_word(row, col - seqlen_offset, window)
                }
            },
    )
}

/// The entries of a chunk's mask behind admitted columns are those of the columns and of the chunk,
/// side by side.
proof fn lemma_decoder_words(tgt_len: nat, seqlen_offset: nat, window: Option<usize>)
    ensures
        decoder_words(tgt_len, 0, window) == chunk_words(tgt_len, window),
        decoder_words(tgt_len, seqlen_offset, window) == tensor::side_by_side(
            Seq::new(tgt_len * seqlen_offset, |i: int| 0u32),
            chunk_words(tgt_len, window),
            tgt_len as int,
            seqlen_offset as int,
            tgt_len as int,
        ),
{
    assert forall|n: int| 0 <= n < tgt_len * tgt_len implies decoder_words(tgt_len, 0, window)[n]
        == chunk_words(tgt_len, window)[n] by {
        assert(0 < tgt_len) by (nonlinear_arith)
            requires
                0 <= n < tgt_len * tgt_len,
        ;
        vstd::arithmetic::div_mod::lemma_mod_bound(n, tgt_len as int);
        assert((0 + tgt_len) as int == tgt_len as int);
    }
    assert(decoder_words(tgt_len, 0, window) =~= chunk_words(tgt_len, window));
    let zeros = Seq::new(tgt_len * seqlen_offset, |i: int| 0u32);
    let chunk = chunk_words(tgt_len, window);
    let cols = (seqlen_offset + tgt_len) as int;
    let both = tensor::side_by_side(
        zeros,
        chunk,
        tgt_len as int,
        seqlen_offset as int,
        tgt_len as int,
    );
    assert forall|n: int| 0 <= n < tgt_len * cols implies decoder_words(
        tgt_len,
        seqlen_offset,
        window,
    )[n] == both[n] by {
        let (row, col) = (n / cols, n % cols);
        assert(0 < cols) by (nonlinear_arith)
            requires
                0 <= n < tgt_len * cols,
                cols >= 0,
        ;
        vstd::arithmetic::div_mod::lemma_fundamental_div_mod(n, cols);
        vstd::arithmetic::div_mod::lemma_mod_bound(n, cols);
        assert(0 <= row < tgt_len) by (nonlinear_arith)
            requires
                n == cols * row + col,
                0 <= n < tgt_len * cols,
                0 <= col < cols,
        ;
        if col < seqlen_offset {
            assert(0 <= row * seqlen_offset + col < tgt_len * seqlen_offset) by (nonlinear_arith)
                requires
                    0 <= row < tgt_len,
                    0 <= col < seqlen_offset,
            ;
        } else {
            lemma_row_and_column(row, col - seqlen_offset, tgt_len as int);
            assert(0 <= row * tgt_len + (col - seqlen_offset) < tgt_len * tgt_len)
                by (nonlinear_arith)
                requires
                    0 <= row < tgt_len,
                    0 <= col - seqlen_offset < tgt_len,
            ;
        }
    }
    assert(both =~= decoder_words(tgt_len, seqlen_offset, window));
}

/// The record of a chunk's mask behind `seqlen_offset` columns that are all admitted.
pub open spec fn decoder_mask_expr(
    b_size: usize,
    tgt_len: usize,
    seqlen_offset: usize,
    window: Option<usize>,
    dtype: candle_core::DType,
    device: candle_core::Device,
) -> Expr {
    let chunk = Expr::Words {
        dims: seq![tgt_len, tgt_len],
        words: chunk_words(tgt_len as nat, window),
        device,
    };
    let mask = if seqlen_offset > 0 {
        Expr::Cat(
            seq![
                Expr::Zeros {
                    dims: seq![tgt_len, seqlen_offset],
                    dtype: candle_core::DType::F32,
                    device,
                },
                chunk,
            ],
            1,
        )
    } else {
        chunk
    };
    tensor::cast(
        Expr::Expand(
            Box::new(mask),
            seq![b_size, 1, tgt_len, (tgt_len + seqlen_offset) as usize],
        ),
        dtype,
    )
}

/// `usize` cannot count the entries of a chunk's mask, or those of the columns before it.
pub open spec fn decoder_mask_too_large(
    b_size: usize,
    tgt_len: usize,
    seqlen_offset: usize,
) -> bool {
    ||| !tensor::countable(seq![tgt_len, seqlen_offset])
    ||| !tensor::countable(seq![b_size, 1, tgt_len, (tgt_len + seqlen_offset) as usize])
}

/// The mask of a chunk of `tgt_len` positions that follows `seqlen_offset` cached ones, of shape
/// `[b_size, 1, tgt_len, tgt_len + seqlen_offset]`. Every cached column is admitted.
pub fn prepare_decoder_attention_mask(
    b_size: usize,
    tgt_len: usize,
    seqlen_offset: usize,
    sliding_window: Option<usize>,
    dtype: candle_core::DType,
    device: &candle_core::Device,
) -> (r: Result<Traced, ModelError>)
    requires
        tgt_len + seqlen_offset <= usize::MAX,
        4 * (tgt_len * tgt_len) <= usize::MAX,
    ensures
        r matches Ok(t) ==> {
            &&& t.expr() == decoder_mask_expr(
                b_size,
                tgt_len,
                seqlen_offset,
                sliding_window,
                dtype,
                *device,
            )
            &&& t.dims() == seq![b_size, 1, tgt_len, (tgt_len + seqlen_offset) as usize]
            &&& t.dtype() == dtype
            &&& dtype == candle_core::DType::F32 ==> {
                &&& t.words().len() == tensor::count_of(t.dims())
                &&& forall|n: int|
                    0 <= n < t.words().len() ==> #[trigger] t.words()[n] == decoder_words(
                        tgt_len as nat,
                        seqlen_offset as nat,
                        sliding_window,
                    )[n % (tgt_len * (seqlen_offset + tgt_len))]
            }
        },
        r matches Err(e) ==> e is Candle || (e is ShapeTooLarge && decoder_mask_too_large(
            b_size,
            tgt_len,
            seqlen_offset,
        )),
        tensor::is_main_memory(*device) && tensor::has_products(dtype) && !decoder_mask_too_large(
            b_size,
            tgt_len,
            seqlen_offset,
        ) ==> (r matches Ok(t) && t.is_local()),
{
    let ghost all = chunk_words(tgt_len as nat, sliding_window);
    let mut words: Vec<u32> = Vec::new();
    let mut i: usize = 0;
    while i < tgt_len
        invariant
            i <= tgt_len,
            all == chunk_words(tgt_len as nat, sliding_window),
            words@.len() == i * tgt_len,
            words@ == all.take(i * tgt_len as int),
        decreases tgt_len - i,
    {
        let mut j: usize = 0;
        while j < tgt_len
            invariant
                j <= tgt_len,
                i < tgt_len,
                all == chunk_words(tgt_len as nat, sliding_window),
                words@.len() == i * tgt_len + j,
                words@ == all.take(i * tgt_len + j),
            decreases tgt_len - j,
        {
            let too_old: bool = match sliding_window {
                Some(w) => w < i && j < i - w,
                None => false,
            };
            let word: u32 = if i < j || too_old {
                MASKED
            } else {
                ADMITTED
            };
            proof {
                lemma_row_and_column(i as int, j as int, tgt_len as int);
                assert(0 <= i * tgt_len + j < tgt_len * tgt_len) by (nonlinear_arith)
                    requires
                        0 <= i < tgt_len,
                        0 <= j < tgt_len,
                ;
            }
            words.push(word);
            j = j + 1;
            assert(words@ =~= all.take(i * tgt_len + j));
        }
        proof {
            assert((i + 1) * tgt_len == i * tgt_len + tgt_len) by (nonlinear_arith);
        }
        i = i + 1;
    }
    assert(all.take(tgt_len * tgt_len) =~= all);
    let mut dims: Vec<usize> = Vec::new();
    dims.push(tgt_len);
    dims.push(tgt_len);
    proof {
        tensor::lemma_countable_2(tgt_len, tgt_len);
        assert(dims@ =~= seq![tgt_len, tgt_len]);
    }
    let chunk = Traced::from_words(&words, &dims, device)?;
    let mask = if seqlen_offset > 0 {
        let mut cached: Vec<usize> = Vec::new();
        cached.push(tgt_len);
        cached.push(seqlen_offset);
        assert(cached@ =~= seq![tgt_len, seqlen_offset]);
        let zeros = Traced::zeros(&cached, candle_core::DType::F32, device)?;
        let mut parts: Vec<Traced> = Vec::new();
        parts.push(zeros);
        parts.push(chunk);
        assert(tensor::exprs(parts@) =~= seq![zeros.expr(), chunk.expr()]);
        proof {
            reveal_with_fuel(tensor::total_dim, 3);
            assert(parts@.drop_last() =~= seq![zeros]);
            assert(parts@[0] == zeros && parts@[1] == chunk);
            assert(zeros.dims().update(1, 0) =~= chunk.dims().update(1, 0));
            assert(tensor::count_of(cached@) == tgt_len * seqlen_offset) by {
                reveal_with_fuel(tensor::count_of, 3);
                assert(cached@.drop_last() =~= seq![tgt_len]);
                assert(1 * tgt_len * seqlen_offset == tgt_len * seqlen_offset) by (nonlinear_arith);
            }
        }
        Traced::cat(&parts, 1)?
    } else {
        chunk
    };
    proof {
        lemma_decoder_words(tgt_len as nat, seqlen_offset as nat, sliding_window);
        assert(mask.dims() =~= seq![tgt_len, (tgt_len + seqlen_offset) as usize]);
        assert(mask.words() == decoder_words(
            tgt_len as nat,
            seqlen_offset as nat,
            sliding_window,
        ));
        assert(tensor::count_of(mask.dims()) == tgt_len * (seqlen_offset + tgt_len)) by {
            reveal_with_fuel(tensor::count_of, 3);
            assert(mask.dims().drop_last() =~= seq![tgt_len]);
            assert(1 * tgt_len * (tgt_len + seqlen_offset) == tgt_len * (seqlen_offset + tgt_len))
                by (nonlinear_arith);
        }
    }
    let mut stretched: Vec<usize> = Vec::new();
    stretched.push(b_size);
    stretched.push(1);
    stretched.push(tgt_len);
    stretched.push(tgt_len + seqlen_offset);
    assert(stretched@ =~= seq![b_size, 1, tgt_len, (tgt_len + seqlen_offset) as usize]);
    assert(mask.dims().is_suffix_of(stretched@)) by {
        assert(stretched@.subrange(2, 4) =~= mask.dims());
    }
    let expanded = mask.expand(&stretched)?;
    expanded.to_dtype(dtype)
}

/// For a fresh prefill, where the keys are exactly the queries' own positions, the two masks have
/// the same entries.
pub proof fn law_fresh_masks_agree(tgt_len: nat, window: Option<usize>)
    ensures
        mask_words(tgt_len, 0, tgt_len, window) == chunk_words(tgt_len, window),
{
    assert(mask_words(tgt_len, 0, tgt_len, window) =~= chunk_words(tgt_len, window));
}

/// The number of positions that a lane still holds once `consumed` of them have gone by: all of
/// them without a window, the last `w` under a window `w`.
pub open spec fn retained(consumed: int, window: Option<usize>) -> int {
    match window {
        Some(w) if w < consumed => w as int,
        _ => consumed,
    }
}

/// Retention drops nothing that a later query may attend: a key that a query at or after position
/// `consumed` admits, and that has gone by, is among the retained tail.
pub proof fn law_dropped_keys_are_masked(consumed: int, q: int, j: int, window: Option<usize>)
    requires
        0 <= j < consumed <= q,
        j < consumed - retained(consumed, window),
    ensures
        !admits(q, j, window),
{
}

/// A single-token step needs no mask: every retained key and the query's own are admitted.
pub proof fn law_single_step_admits_all(index_pos: int, c: int, window: Option<usize>)
    requires
        0 <= index_pos,
        0 <= c <= retained(index_pos, window),
    ensures
        admits(index_pos, index_pos - retained(index_pos, window) + c, window),
{
}

/// What a query attends does not depend on how the stream was cut into chunks: the columns of the
/// mask for the chunk at `index_pos`, the retained keys and the chunk's own, hold every position
/// that the query admits.
pub proof fn law_columns_cover_admitted(
    index_pos: int,
    tgt_len: int,
    i: int,
    j: int,
    window: Option<usize>,
)
    requires
        0 <= index_pos,
        0 <= i < tgt_len,
        0 <= j,
        admits(index_pos + i, j, window),
    ensures
        index_pos - retained(index_pos, window) <= j < index_pos + tgt_len,
{
}

/// The query at position `q` attends the key at position `j` in the chunk of `tgt_len` positions at
/// `index_pos`: the key is among the retained ones and the chunk's own, and the entry of its column
/// in the query's row of the chunk's mask admits it.
pub open spec fn attends(
    index_pos: nat,
    tgt_len: nat,
    q: int,
    j: int,
    window: Option<usize>,
) -> bool {
    let kept = retained(index_pos as int, window);
    let kv_len = (kept + tgt_len) as nat;
    &&& index_pos - kept <= j < index_pos + tgt_len
    &&& mask_words(tgt_len, index_pos, kv_len, window)[(q - index_pos) * kv_len + (j - (index_pos
        - kept))] == ADMITTED
}

/// What a query attends does not depend on how its stream was cut into chunks: in every chunk that
/// holds the query it attends exactly the positions that the rule admits.
pub proof fn law_chunks_attend_alike(
    a_pos: nat,
    a_len: nat,
    b_pos: nat,
    b_len: nat,
    q: int,
    j: int,
    window: Option<usize>,
)
    requires
        a_pos <= q < a_pos + a_len,
        b_pos <= q < b_pos + b_len,
        0 <= j,
    ensures
        attends(a_pos, a_len, q, j, window) == admits(q, j, window),
        attends(b_pos, b_len, q, j, window) == admits(q, j, window),
        attends(a_pos, a_len, q, j, window) == attends(b_pos, b_len, q, j, window),
{
    lemma_attends(a_pos, a_len, q, j, window);
    lemma_attends(b_pos, b_len, q, j, window);
}

/// A chunk's masks let its queries attend what the rule admits.
proof fn lemma_attends(index_pos: nat, tgt_len: nat, q: int, j: int, window: Option<usize>)
    requires
        index_pos <= q < index_pos + tgt_len,
        0 <= j,
    ensures
        attends(index_pos, tgt_len, q, j, window) == admits(q, j, window),
{
    let kept = retained(index_pos as int, window);
    let c = j - (index_pos - kept);
    if 0 <= c < kept + tgt_len {
        law_columns_are_absolute_positions(index_pos, tgt_len, window, q - index_pos, c);
    }
    if admits(q, j, window) {
        law_columns_cover_admitted(index_pos as int, tgt_len as int, q - index_pos, j, window);
    }
}

/// The window rule admits the query's own position and the `w` before it, and nothing else.
pub proof fn law_window_plus_self(q: int, j: int, w: usize)
    ensures
        admits(q, j, Some(w)) <==> q - w <= j <= q,
{
}

/// The columns of the mask, as many as there are retained keys and queries, are the positions from
/// the first retained key up to the last query, in order.
pub proof fn law_columns_are_absolute_positions(
    index_pos: nat,
    tgt_len: nat,
    window: Option<usize>,
    i: int,
    c: int,
)
    requires
        0 <= i < tgt_len,
        0 <= c < retained(index_pos as int, window) + tgt_len,
    ensures
        ({
            let kv_len = (retained(index_pos as int, window) + tgt_len) as nat;
            mask_words(tgt_len, index_pos, kv_len, window)[i * kv_len + c] == mask_word(
                index_pos + i,
                index_pos - retained(index_pos as int, window) + c,
                window,
            )
        }),
{
    let kv_len = (retained(index_pos as int, window) + tgt_len) as nat;
    lemma_mask_entry(tgt_len, index_pos, kv_len, window, i, c);
}

/// What a window keeps: as much as there is and never more than the window.
pub proof fn law_windows_are_filled(consumed: int, window: Option<usize>)
    requires
        0 <= consumed,
    ensures
        0 <= retained(consumed, window) <= consumed,
        window is None ==> retained(consumed, window) == consumed,
        window matches Some(w) ==> retained(consumed, window) <= w,
        window matches Some(w) ==> retained(consumed, window) == consumed || retained(
            consumed,
            window,
        ) == w,
{
}

/// Every sequence of a batch has the same mask: its entry in a row and a column tells whether the
/// query in that row may attend the position in that column, the last column being the position of
/// the last query.
pub proof fn law_mask_entries(
    b_sz: usize,
    tgt_len: usize,
    index_pos: usize,
    kv_len: usize,
    window: Option<usize>,
    device: candle_core::Device,
    at: Seq<int>,
    v: Values,
)
    requires
        is_index(at, seq![b_sz, 1, tgt_len, kv_len]),
        kv_len <= index_pos + tgt_len,
    ensures
        ({
            let (query, key) = (index_pos + at[2], index_pos + tgt_len - kv_len + at[3]);
            entry(causal_mask_expr(b_sz, tgt_len, index_pos, kv_len, window, device), at, v) == (
            v.word)(
                if key <= query && (window matches Some(w) ==> query <= key + w) {
                    ADMITTED
                } else {
                    MASKED
                },
            )
        }),
{
    let dims = seq![tgt_len, kv_len];
    let words = mask_words(tgt_len as nat, index_pos as nat, kv_len as nat, window);
    let table = Expr::Words { dims, words, device };
    let all = Expr::Expand(Box::new(table), seq![b_sz, 1, tgt_len, kv_len]);
    assert(0 <= at[2] < tgt_len && 0 <= at[3] < kv_len);
    let here = meaning::clipped(at, dims);
    assert(shape_of(table) == dims);
    assert(here =~= seq![at[2], at[3]]);
    meaning::lemma_flat_2(here, dims);
    lemma_mask_entry(
        tgt_len as nat,
        index_pos as nat,
        kv_len as nat,
        window,
        at[2],
        at[3],
    );
    assert(entry(all, at, v) == entry(table, here, v));
    assert(entry(table, here, v) == (v.word)(words[meaning::flat(here, dims)]));
}

/// Behind cached positions a chunk's mask admits every cached column, in every row; among the chunk's
/// own columns a query's row admits the query's own position, none behind it, and none that lies
/// further before it than the window.
pub proof fn law_decoder_mask_entries(
    b_size: usize,
    tgt_len: usize,
    seqlen_offset: usize,
    window: Option<usize>,
    dtype: candle_core::DType,
    device: candle_core::Device,
    at: Seq<int>,
    v: Values,
)
    requires
        tgt_len + seqlen_offset <= usize::MAX,
        is_index(at, seq![b_size, 1, tgt_len, (tgt_len + seqlen_offset) as usize]),
        (v.word)(ADMITTED) == 0 as real,
    ensures
        ({
            let (query, key) = (at[2], at[3] - seqlen_offset);
            entry(
                decoder_mask_expr(b_size, tgt_len, seqlen_offset, window, dtype, device),
                at,
                v,
            ) == (v.word)(
                if key < 0 || (key <= query && (window matches Some(w) ==> query <= key + w)) {
                    ADMITTED
                } else {
                    MASKED
                },
            )
        }),
{
    let dims = seq![tgt_len, tgt_len];
    let words = chunk_words(tgt_len as nat, window);
    let chunk = Expr::Words { dims, words, device };
    let zeros = Expr::Zeros {
        dims: seq![tgt_len, seqlen_offset],
        dtype: candle_core::DType::F32,
        device,
    };
    let table = if seqlen_offset > 0 {
        Expr::Cat(seq![zeros, chunk], 1)
    } else {
        chunk
    };
    let shape = seq![b_size, 1, tgt_len, (tgt_len + seqlen_offset) as usize];
    let all = Expr::Expand(Box::new(table), shape);
    assert(0 <= at[2] < shape[2] && 0 <= at[3] < shape[3]);
    let wide = seq![tgt_len, (tgt_len + seqlen_offset) as usize];
    assert(shape_of(chunk) == dims);
    assert(shape_of(zeros) == seq![tgt_len, seqlen_offset]);
    meaning::lemma_joined_shape(zeros, chunk, 1);
    assert(shape_of(table) =~= wide);
    let here = meaning::clipped(at, wide);
    assert(here =~= seq![at[2], at[3]]) by {
        if wide[1] == 1 {
            assert(at[3] == 0);
        }
        if wide[0] == 1 {
            assert(at[2] == 0);
        }
    }
    assert(entry(all, at, v) == entry(table, here, v));
    assert(entry(tensor::cast(all, dtype), at, v) == entry(all, at, v));
    meaning::lemma_joined(zeros, chunk, 1, here, v);
    let own = here.update(1, at[3] - seqlen_offset);
    if at[3] >= seqlen_offset {
        let key = at[3] - seqlen_offset;
        assert(own =~= seq![at[2], key]);
        meaning::lemma_flat_2(own, dims);
        lemma_row_and_column(at[2], key, tgt_len as int);
        assert(0 <= at[2] * tgt_len + key < tgt_len * tgt_len) by (nonlinear_arith)
            requires
                0 <= at[2] < tgt_len,
                0 <= key < tgt_len,
        ;
        assert(entry(chunk, own, v) == (v.word)(words[at[2] * tgt_len + key]));
        if seqlen_offset == 0 {
            assert(own =~= here);
        }
    } else {
        assert(entry(zeros, here, v) == 0 as real);
    }
}

} // verus!
