//! The names of the tensors that a model reads, so that no other need be fetched from its file.

use super::config::GgufConfig;
use super::loader;
use crate::names;
use vstd::prelude::*;

verus! {

/// A name is among these.
pub open spec fn is_among(all: Seq<String>, name: Seq<char>) -> bool {
    exists|k: int| 0 <= k < all.len() && (#[trigger] all[k])@ == name
}

/// Layer `i` reads the tensor of this name.
spec fn is_read_by_layer(cfg: GgufConfig, i: nat, name: Seq<char>) -> bool {
    ||| exists|suffix: Seq<char>|
        name == #[trigger] names::block_name(i, suffix) && loader::layer_needs(cfg, i, suffix)
    ||| i < cfg.first_shared() && name == names::block_name(i, ".attn_v.weight"@)
}

/// Adds a name.
fn add_name(all: &mut Vec<String>, name: String)
    ensures
        forall|n: Seq<char>| #[trigger]
            is_among(final(all)@, n) == (is_among(old(all)@, n) || n == name@),
{
    let ghost before = all@;
    all.push(name);
    proof {
        let after = all@;
        assert(after == before.push(name));
        assert forall|n: Seq<char>| #[trigger]
            is_among(after, n) == (is_among(before, n) || n == name@) by {
            if is_among(before, n) {
                let k = choose|k: int| 0 <= k < before.len() && (#[trigger] before[k])@ == n;
                assert(after[k]@ == n);
            }
            if n == name@ {
                assert(after[before.len() as int]@ == n);
            }
            if is_among(after, n) {
                let k = choose|k: int| 0 <= k < after.len() && (#[trigger] after[k])@ == n;
                if k < before.len() {
                    assert(before[k]@ == n);
                }
            }
        }
    }
}

/// Adds the names of some tensors of layer `i`, given by their ends.
fn add_block(all: &mut Vec<String>, i: usize, suffixes: &Vec<&'static str>)
    ensures
        forall|n: Seq<char>| #[trigger]
            is_among(final(all)@, n) == (is_among(old(all)@, n) || exists|k: int|
                0 <= k < suffixes@.len() && n == names::block_name(
                    i as nat,
                    (#[trigger] suffixes@[k])@,
                )),
{
    let mut k: usize = 0;
    while k < suffixes.len()
        invariant
            k <= suffixes@.len(),
            forall|n: Seq<char>| #[trigger]
                is_among(all@, n) == (is_among(old(all)@, n) || exists|j: int|
                    0 <= j < k && n == names::block_name(
                        i as nat,
                        (#[trigger] suffixes@[j])@,
                    )),
        decreases suffixes@.len() - k,
    {
        let ghost before = all@;
        add_name(all, names::block_string(i, suffixes[k]));
        proof {
            let now = all@;
            assert forall|n: Seq<char>| #[trigger]
                is_among(now, n) == (is_among(old(all)@, n) || exists|j: int|
                    0 <= j < k + 1 && n == names::block_name(
                        i as nat,
                        (#[trigger] suffixes@[j])@,
                    )) by {
                assert(is_among(now, n) == (is_among(before, n) || n == names::block_name(
                    i as nat,
                    suffixes@[k as int]@,
                )));
            }
        }
        k = k + 1;
    }
}

/// Adds the names of the tensors that layer `i` reads.
fn add_layer(all: &mut Vec<String>, cfg: &GgufConfig, i: usize)
    ensures
        forall|n: Seq<char>| #[trigger]
            is_among(final(all)@, n) == (is_among(old(all)@, n) || is_read_by_layer(
                *cfg,
                i as nat,
                n,
            )),
{
    let mut suffixes: Vec<&'static str> = vec![
        ".attn_q.weight",
        ".attn_output.weight",
        ".attn_q_norm.weight",
        ".attn_norm.weight",
        ".post_attention_norm.weight",
        ".ffn_norm.weight",
        ".post_ffw_norm.weight",
        ".ffn_gate.weight",
        ".ffn_up.weight",
        ".ffn_down.weight",
        ".layer_output_scale.weight",
    ];
    if i < cfg.first_shared_layer() {
        suffixes.push(".attn_k.weight");
        suffixes.push(".attn_k_norm.weight");
        suffixes.push(".attn_v.weight");
    }
    let ghost computed = suffixes@;
    if cfg.per_layer_input_dim > 0 {
        suffixes.push(".inp_gate.weight");
        suffixes.push(".proj.weight");
        suffixes.push(".post_norm.weight");
    }
    let ghost mixed = suffixes@;
    if cfg.num_experts.is_some() && cfg.top_k_experts.is_some() {
        suffixes.push(".ffn_gate_up_exps.weight");
        suffixes.push(".ffn_down_exps.weight");
        suffixes.push(".ffn_gate_inp.weight");
        suffixes.push(".ffn_gate_inp.scale");
        suffixes.push(".ffn_down_exps.scale");
        suffixes.push(".post_ffw_norm_1.weight");
        suffixes.push(".post_ffw_norm_2.weight");
        suffixes.push(".pre_ffw_norm_2.weight");
    }
    add_block(all, i, &suffixes);
    proof {
        let s = suffixes@;
        assert(s[0]@ == ".attn_q.weight"@ && s[1]@ == ".attn_output.weight"@ && s[2]@
            == ".attn_q_norm.weight"@ && s[3]@ == ".attn_norm.weight"@ && s[4]@
            == ".post_attention_norm.weight"@ && s[5]@ == ".ffn_norm.weight"@ && s[6]@
            == ".post_ffw_norm.weight"@ && s[7]@ == ".ffn_gate.weight"@ && s[8]@
            == ".ffn_up.weight"@ && s[9]@ == ".ffn_down.weight"@ && s[10]@
            == ".layer_output_scale.weight"@);
        if i < cfg.first_shared() {
            assert(s[11]@ == ".attn_k.weight"@ && s[12]@ == ".attn_k_norm.weight"@ && s[13]@
                == ".attn_v.weight"@);
        }
        let c = computed.len() as int;
        if cfg.per_layer_input_dim > 0 {
            assert(s[c]@ == ".inp_gate.weight"@ && s[c + 1]@ == ".proj.weight"@ && s[c + 2]@
                == ".post_norm.weight"@);
        }
        let m = mixed.len() as int;
        if loader::has_experts(*cfg) {
            assert(s[m]@ == ".ffn_gate_up_exps.weight"@ && s[m + 1]@ == ".ffn_down_exps.weight"@
                && s[m + 2]@ == ".ffn_gate_inp.weight"@ && s[m + 3]@ == ".ffn_gate_inp.scale"@
                && s[m + 4]@ == ".ffn_down_exps.scale"@ && s[m + 5]@ == ".post_ffw_norm_1.weight"@
                && s[m + 6]@ == ".post_ffw_norm_2.weight"@ && s[m + 7]@
                == ".pre_ffw_norm_2.weight"@);
        }
        let n = i as nat;
        assert forall|suffix: Seq<char>| #[trigger] loader::layer_needs(*cfg, n, suffix) implies exists|
            k: int,
        |
            0 <= k < s.len() && (#[trigger] s[k])@ == suffix by {}
        assert forall|k: int| 0 <= k < s.len() implies loader::layer_needs(
            *cfg,
            n,
            (#[trigger] s[k])@,
        ) || (n < cfg.first_shared() && s[k]@ == ".attn_v.weight"@) by {}
        assert forall|name: Seq<char>| #[trigger] is_read_by_layer(*cfg, n, name) == exists|k: int|
            0 <= k < s.len() && name == names::block_name(n, (#[trigger] s[k])@) by {
            if is_read_by_layer(*cfg, n, name) {
                if exists|suffix: Seq<char>|
                    name == #[trigger] names::block_name(n, suffix) && loader::layer_needs(
                        *cfg,
                        n,
                        suffix,
                    ) {
                    let suffix = choose|suffix: Seq<char>|
                        name == #[trigger] names::block_name(n, suffix) && loader::layer_needs(
                            *cfg,
                            n,
                            suffix,
                        );
                    let k = choose|k: int| 0 <= k < s.len() && (#[trigger] s[k])@ == suffix;
                    assert(name == names::block_name(n, s[k]@));
                } else {
                    assert(name == names::block_name(n, s[13]@));
                }
            }
        }
    }
}

/// The names of the tensors that a model of this shape reads, where the file holds them.
pub fn names_read(cfg: &GgufConfig) -> (r: Vec<String>)
    ensures
        forall|name: Seq<char>| #[trigger]
            is_among(r@, name) == loader::is_read(*cfg, name),
{
    let mut all: Vec<String> = Vec::new();
    add_name(&mut all, String::from_str("token_embd.weight"));
    add_name(&mut all, String::from_str("output_norm.weight"));
    if cfg.per_layer_input_dim > 0 {
        add_name(&mut all, String::from_str("per_layer_token_embd.weight"));
        add_name(&mut all, String::from_str("per_layer_model_proj.weight"));
        add_name(&mut all, String::from_str("per_layer_proj_norm.weight"));
    }
    let ghost first = all@;
    let mut i: usize = 0;
    while i < cfg.block_count
        invariant
            i <= cfg.block_count,
            forall|name: Seq<char>| #[trigger]
                is_among(all@, name) == (is_among(first, name) || exists|j: nat|
                    j < i && #[trigger] is_read_by_layer(*cfg, j, name)),
        decreases cfg.block_count - i,
    {
        let ghost before = all@;
        add_layer(&mut all, cfg, i);
        proof {
            let now = all@;
            assert forall|name: Seq<char>| #[trigger]
                is_among(now, name) == (is_among(first, name) || exists|j: nat|
                    j < i + 1 && #[trigger] is_read_by_layer(*cfg, j, name)) by {
                assert(is_among(now, name) == (is_among(before, name) || is_read_by_layer(
                    *cfg,
                    i as nat,
                    name,
                )));
            }
        }
        i = i + 1;
    }
    proof {
        let end = all@;
        assert forall|name: Seq<char>| #[trigger]
            is_among(end, name) == loader::is_read(*cfg, name) by {
            if exists|j: nat| j < cfg.block_count && #[trigger] is_read_by_layer(*cfg, j, name) {
                let j = choose|j: nat|
                    j < cfg.block_count && #[trigger] is_read_by_layer(*cfg, j, name);
                assert(loader::is_read(*cfg, name));
            }
            if loader::is_needed_by_layer(*cfg, name) {
                let (j, suffix) = choose|j: nat, suffix: Seq<char>|
                    name == #[trigger] names::block_name(j, suffix) && j < cfg.block_count
                        && loader::layer_needs(*cfg, j, suffix);
                assert(is_read_by_layer(*cfg, j, name));
            }
            if exists|j: nat|
                name == #[trigger] names::block_name(j, ".attn_v.weight"@) && j < cfg.first_shared()
                    && j < cfg.block_count {
                let j = choose|j: nat|
                    name == #[trigger] names::block_name(j, ".attn_v.weight"@) && j
                        < cfg.first_shared() && j < cfg.block_count;
                assert(is_read_by_layer(*cfg, j, name));
            }
        }
    }
    all
}

} // verus!
