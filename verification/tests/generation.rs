use candle_core::{Device, Tensor};
use gemma4::error::{ModelError, Setting};
use gemma4::generation::{
    choose_sampling, size_unit, total_size, Generation, Sampling, SizeUnit, TensorSize, Which,
};
use gemma4::names::{block_string, decimal_string};
use gemma4::quantized_gemma4::metadata::MetaKey;
use gemma4::routing::{route, top_experts};
use gemma4::tensor::Traced;

#[test]
fn the_first_pass_takes_the_prompt_and_later_ones_the_last_token() {
    let mut g = Generation::new(vec![5, 6, 7], Some(2), 1, 106, 10);
    assert_eq!(g.tokens(), &vec![2, 5, 6, 7]);
    assert_eq!(g.next_pass(), Some((vec![2, 5, 6, 7], 0)));
    assert!(g.push(8));
    assert_eq!(g.next_pass(), Some((vec![8], 4)));
    assert!(g.push(9));
    assert_eq!(g.next_pass(), Some((vec![9], 5)));
    assert_eq!(g.generated(), 2);
    assert_eq!(g.tokens(), &vec![2, 5, 6, 7, 8, 9]);
}

#[test]
fn the_leading_token_is_not_put_there_twice() {
    let g = Generation::new(vec![2, 5], Some(2), 1, 106, 10);
    assert_eq!(g.tokens(), &vec![2, 5]);
    let g = Generation::new(vec![5], None, 1, 106, 10);
    assert_eq!(g.tokens(), &vec![5]);
    let g = Generation::new(vec![], Some(2), 1, 106, 10);
    assert_eq!(g.tokens(), &vec![2]);
}

#[test]
fn generation_stops_at_its_end_tokens_and_at_its_length() {
    for end in [1, 106] {
        let mut g = Generation::new(vec![2], None, 1, 106, 10);
        assert!(g.push(7));
        assert!(!g.push(end));
        assert_eq!(g.next_pass(), None);
        assert_eq!(g.generated(), 2);
    }
    let mut g = Generation::new(vec![2], None, 1, 106, 2);
    assert!(g.push(7));
    assert!(g.push(8));
    assert_eq!(g.next_pass(), None);
    let g = Generation::new(vec![2], None, 1, 106, 0);
    assert_eq!(g.next_pass(), None);
}

#[test]
fn recent_tokens_are_the_last_ones() {
    let g = Generation::new(vec![2, 3, 4, 5], None, 1, 106, 10);
    assert_eq!(g.recent(2), vec![4, 5]);
    assert_eq!(g.recent(4), vec![2, 3, 4, 5]);
    assert_eq!(g.recent(9), vec![2, 3, 4, 5]);
    assert_eq!(g.recent(0), Vec::<u32>::new());
}

#[test]
fn sampling_follows_temperature_and_limits() {
    assert!(choose_sampling(false, Some(3), true) == Sampling::ArgMax);
    assert!(choose_sampling(true, None, false) == Sampling::All);
    assert!(choose_sampling(true, Some(3), false) == Sampling::TopK { k: 3 });
    assert!(choose_sampling(true, None, true) == Sampling::TopP);
    assert!(choose_sampling(true, Some(3), true) == Sampling::TopKThenTopP { k: 3 });
}

#[test]
fn models_have_their_repositories() {
    let names = Which::Gemma4_26bA4b.hub_names();
    assert_eq!(names.weights_repo, "google/gemma-4-26B-A4B-it-qat-q4_0-gguf");
    assert_eq!(names.weights_file, "gemma-4-26B_q4_0-it.gguf");
    assert_eq!(names.tokenizer_repo, "google/gemma-4-26B-A4B-it");
    assert_eq!(Which::Gemma4E2b.hub_names().weights_file, "gemma-4-E2B_q4_0-it.gguf");
    assert_eq!(Which::Gemma4E4b.hub_names().weights_file, "gemma-4-E4B_q4_0-it.gguf");
    assert_eq!(Which::Gemma4_12b.hub_names().weights_file, "gemma-4-12b-it-qat-q4_0.gguf");
    assert_eq!(Which::Gemma4_31b.hub_names().tokenizer_repo, "google/gemma-4-31B-it");
}

#[test]
fn packed_sizes_add_up() {
    let sizes = vec![
        TensorSize { entries: 64, block_bytes: 18, block_entries: 32 },
        TensorSize { entries: 10, block_bytes: 4, block_entries: 1 },
    ];
    assert_eq!(total_size(&sizes), Some(76));
    assert_eq!(total_size(&vec![]), Some(0));
    let odd = vec![TensorSize { entries: 1, block_bytes: 1, block_entries: 0 }];
    assert_eq!(total_size(&odd), None);
    let huge = vec![TensorSize { entries: usize::MAX, block_bytes: 2, block_entries: 2 }];
    assert_eq!(total_size(&huge), None);
    let whole = || TensorSize { entries: usize::MAX, block_bytes: 1, block_entries: 1 };
    assert_eq!(total_size(&vec![whole()]), Some(usize::MAX));
    assert_eq!(total_size(&vec![whole(), whole()]), None);
}

#[test]
fn sizes_have_their_units() {
    assert!(size_unit(999) == SizeUnit::Bytes);
    assert!(size_unit(1_000) == SizeUnit::Kilobytes);
    assert!(size_unit(999_999) == SizeUnit::Kilobytes);
    assert!(size_unit(1_000_000) == SizeUnit::Megabytes);
    assert!(size_unit(999_999_999) == SizeUnit::Megabytes);
    assert!(size_unit(1_000_000_000) == SizeUnit::Gigabytes);
}

#[test]
fn names_count_in_decimal() {
    assert_eq!(decimal_string(0), "0");
    assert_eq!(decimal_string(9), "9");
    assert_eq!(decimal_string(10), "10");
    assert_eq!(decimal_string(usize::MAX), usize::MAX.to_string());
    assert_eq!(block_string(34, ".attn_q.weight"), "blk.34.attn_q.weight");
}

#[test]
fn errors_say_what_went_wrong() {
    let says = |e: ModelError| e.text().unwrap();
    assert_eq!(says(ModelError::MissingMetadata(MetaKey::KeyLength)), "cannot find gemma4.attention.key_length in metadata");
    assert_eq!(says(ModelError::PerLayerMismatch { layer: 12 }), "PLE state mismatch between model and layer 12");
    assert_eq!(says(ModelError::Rank { expected: 2, got: 3 }), "expected 2 dimensions, got 3");
    assert_eq!(says(ModelError::MissingSetting(Setting::TopKExperts)), "enable_moe_block requires top_k_experts");
    assert_eq!(says(ModelError::MissingTensor("a".to_string())), "cannot find tensor info for a");
    assert!(ModelError::Candle(candle_core::Error::Msg("x".to_string())).text().is_none());
}

fn words(row: &[f32]) -> Vec<u32> {
    row.iter().map(|x| x.to_bits()).collect()
}

#[test]
fn the_largest_come_first_in_the_total_order() {
    let rows: Vec<Vec<f32>> = vec![
        vec![0.1, 0.7, 0.2],
        vec![-1.0, -2.0, 3.0, -0.0, 0.0],
        vec![f32::NAN, f32::INFINITY, 1.0, f32::NEG_INFINITY, -f32::NAN],
        vec![1e-45, 0.0, -1e-45, 2.0],
    ];
    for row in rows {
        let mut order: Vec<usize> = (0..row.len()).collect();
        order.sort_by(|&a, &b| row[b].total_cmp(&row[a]));
        for k in 0..=row.len() {
            assert_eq!(top_experts(&words(&row), k), order[..k].to_vec());
        }
    }
    let tied = top_experts(&words(&[0.5, 0.5, 0.1]), 2);
    assert!(tied.contains(&0) && tied.contains(&1));
}

#[test]
fn weights_are_shares_times_scales() {
    let probs = Tensor::from_vec(vec![0.5f32, 0.1, 0.4, 0.2, 0.7, 0.1], (2, 3), &Device::Cpu).unwrap();
    let scales = Tensor::from_vec(vec![1f32, 2.0, 3.0], 3, &Device::Cpu).unwrap();
    let (probs, scales) = (Traced::given(probs), Traced::given(scales));
    let routes = match route(&probs, &scales, 2) {
        Ok(r) => r,
        Err(_) => panic!("not routed"),
    };
    let plain: Vec<Vec<(usize, f32)>> = routes
        .iter()
        .map(|picks| {
            picks
                .iter()
                .map(|(e, w)| (*e, w.tensor().flatten_all().unwrap().to_vec1::<f32>().unwrap()[0]))
                .collect()
        })
        .collect();
    let sum = [0.5f32 + 0.4, 0.7 + 0.2];
    assert_eq!(
        plain,
        vec![
            vec![(0, 0.5 / sum[0] * 1.0), (2, 0.4 / sum[0] * 3.0)],
            vec![(1, 0.7 / sum[1] * 2.0), (0, 0.2 / sum[1] * 1.0)],
        ]
    );
    assert!(matches!(route(&probs, &scales, 0), Err(ModelError::TopK { top_k: 0, experts: 3 })));
    assert!(matches!(route(&probs, &scales, 4), Err(ModelError::TopK { top_k: 4, experts: 3 })));
    let counts = Traced::given(Tensor::from_vec(vec![1u32, 2], (1, 2), &Device::Cpu).unwrap());
    assert!(matches!(route(&counts, &scales, 1), Err(ModelError::ElementType)));
    assert!(matches!(route(&scales, &scales, 1), Err(ModelError::Rank { expected: 2, got: 1 })));
}
