use candle_core::{Device, Tensor};
use gemma4::mask::{causal_mask, prepare_decoder_attention_mask};

const F: f32 = f32::NEG_INFINITY;

fn grid(mask: &Tensor) -> Vec<Vec<f32>> {
    mask.get(0)
        .unwrap()
        .get(0)
        .unwrap()
        .to_vec2::<f32>()
        .unwrap()
}

fn causal(b: usize, tgt: usize, pos: usize, kv: usize, window: Option<usize>) -> Tensor {
    match causal_mask(b, tgt, pos, kv, window, &Device::Cpu) {
        Ok(t) => t.tensor().clone(),
        Err(_) => panic!("no mask"),
    }
}

fn chunk(b: usize, tgt: usize, offset: usize, window: Option<usize>) -> Tensor {
    match prepare_decoder_attention_mask(
        b,
        tgt,
        offset,
        window,
        candle_core::DType::F32,
        &Device::Cpu,
    ) {
        Ok(t) => t.tensor().clone(),
        Err(_) => panic!("no mask"),
    }
}

#[test]
fn full_mask_fresh_prefill_is_lower_triangular() {
    let m = causal(1, 3, 0, 3, None);
    assert_eq!(
        grid(&m),
        vec![vec![0., F, F], vec![0., 0., F], vec![0., 0., 0.]]
    );
}

#[test]
fn full_mask_continued_chunk_sees_all_cached_positions() {
    // index_pos 2, two queries (q=2, q=3), full history (kv_len 4).
    let m = causal(1, 2, 2, 4, None);
    assert_eq!(grid(&m), vec![vec![0., 0., 0., F], vec![0., 0., 0., 0.]]);
}

#[test]
fn sliding_mask_admits_window_plus_self() {
    // w=2, fresh prefill of 4: query q admits absolute q-2..=q.
    let m = causal(1, 4, 0, 4, Some(2));
    assert_eq!(
        grid(&m),
        vec![
            vec![0., F, F, F],
            vec![0., 0., F, F],
            vec![0., 0., 0., F],
            vec![F, 0., 0., 0.],
        ]
    );
}

#[test]
fn sliding_mask_ring_trimmed_kv_maps_columns_to_absolute_positions() {
    // w=3, index_pos 5, two queries (q=5, q=6); ring retained 3 cached positions, so the 5
    // kv columns are absolute positions 2..=6.
    let m = causal(1, 2, 5, 5, Some(3));
    assert_eq!(
        grid(&m),
        vec![vec![0., 0., 0., 0., F], vec![F, 0., 0., 0., 0.]]
    );
}

#[test]
fn masks_repeat_over_the_batch() {
    let m = causal(3, 2, 0, 2, None);
    assert_eq!(m.dims(), &[3, 1, 2, 2]);
    for b in 0..3 {
        assert_eq!(
            m.get(b).unwrap().get(0).unwrap().to_vec2::<f32>().unwrap(),
            vec![vec![0., F], vec![0., 0.]]
        );
    }
}

#[test]
fn decoder_mask_of_a_fresh_prefill_is_the_causal_mask() {
    for window in [None, Some(0), Some(1), Some(2), Some(9)] {
        for tgt in 1..6 {
            assert_eq!(
                grid(&chunk(1, tgt, 0, window)),
                grid(&causal(1, tgt, 0, tgt, window))
            );
        }
    }
}

#[test]
fn decoder_mask_admits_every_cached_column() {
    let m = chunk(2, 2, 3, Some(1));
    assert_eq!(m.dims(), &[2, 1, 2, 5]);
    assert_eq!(
        grid(&m),
        vec![vec![0., 0., 0., 0., F], vec![0., 0., 0., 0., 0.]]
    );
}

#[test]
fn a_query_attends_the_same_keys_in_every_chunk() {
    // The query at 5 under a window of 2, in chunks that begin at 0, 3 and 5.
    let admitted = |pos: usize, len: usize| -> Vec<usize> {
        let kept = pos.min(2);
        let rows = grid(&causal(1, len, pos, kept + len, Some(2)));
        let row = &rows[5 - pos];
        (0..row.len()).filter(|c| row[*c] == 0.).map(|c| pos - kept + c).collect()
    };
    assert_eq!(admitted(0, 7), vec![3, 4, 5]);
    assert_eq!(admitted(3, 4), vec![3, 4, 5]);
    assert_eq!(admitted(5, 1), vec![3, 4, 5]);
}
