//! The anti-phase probe: half the clusters of a launch start late.

use crate::gemm::model_shapes::{case, model_case_of, Case, Mode};
use vstd::prelude::*;

verus! {

/// Delays that are swept, in microseconds.
pub const DELAYS: [u32; 6] = [0, 4, 8, 12, 16, 20];

/// Which clusters are late.
pub const LATE_UPPER_HALF: u32 = 0;

pub const LATE_ODD: u32 = 1;

/// Products that are swept.
pub const STAGGER_CASES: usize = 6;

/// Name, `m`, `k`, `n` and mode of each product that is swept; the last is the
/// deep one that must not get slower.
pub open spec fn stagger_case_of(index: int) -> (Seq<char>, int, int, int, Mode) {
    if index == 0 {
        ("gate_up fwd"@, 6144, 3072, 8192, Mode::F32Store)
    } else if index == 1 {
        ("qkv fwd"@, 24576, 3072, 9216, Mode::F32Store)
    } else if index == 2 {
        ("bwd down dx"@, 6144, 3072, 4096, Mode::F32Store)
    } else if index == 3 {
        ("bwd down dW"@, 4096, 6144, 3072, Mode::F32AccumulateT)
    } else if index == 4 {
        ("lm_head fwd"@, 24576, 3072, 50432, Mode::Bf16Store)
    } else {
        ("bwd gate_up dx (guard)"@, 6144, 8192, 3072, Mode::F32Store)
    }
}

/// One product that is swept.
pub fn stagger_case(index: usize) -> (found: Case)
    requires
        index < STAGGER_CASES,
    ensures
        (found.name@, found.m as int, found.k as int, found.n as int, found.mode)
            == stagger_case_of(index as int),
        index == 0 ==> {
            &&& found.name@ == "gate_up fwd"@
            &&& (found.m, found.k, found.n) == (6144usize, 3072usize, 8192usize)
            &&& found.mode == Mode::F32Store
        },
        index == 1 ==> {
            &&& found.name@ == "qkv fwd"@
            &&& (found.m, found.k, found.n) == (24576usize, 3072usize, 9216usize)
            &&& found.mode == Mode::F32Store
        },
        index == 2 ==> {
            &&& found.name@ == "bwd down dx"@
            &&& (found.m, found.k, found.n) == (6144usize, 3072usize, 4096usize)
            &&& found.mode == Mode::F32Store
        },
        index == 3 ==> {
            &&& found.name@ == "bwd down dW"@
            &&& (found.m, found.k, found.n) == (4096usize, 6144usize, 3072usize)
            &&& found.mode == Mode::F32AccumulateT
        },
        index == 4 ==> {
            &&& found.name@ == "lm_head fwd"@
            &&& (found.m, found.k, found.n) == (24576usize, 3072usize, 50432usize)
            &&& found.mode == Mode::Bf16Store
        },
        index == 5 ==> {
            &&& found.name@ == "bwd gate_up dx (guard)"@
            &&& (found.m, found.k, found.n) == (6144usize, 8192usize, 3072usize)
            &&& found.mode == Mode::F32Store
        },
{
    match index {
        0 => case("gate_up fwd", 6144, 3072, 8192, Mode::F32Store),
        1 => case("qkv fwd", 24576, 3072, 9216, Mode::F32Store),
        2 => case("bwd down dx", 6144, 3072, 4096, Mode::F32Store),
        3 => case("bwd down dW", 4096, 6144, 3072, Mode::F32AccumulateT),
        4 => case("lm_head fwd", 24576, 3072, 50432, Mode::Bf16Store),
        _ => case("bwd gate_up dx (guard)", 6144, 8192, 3072, Mode::F32Store),
    }
}

/// The word that a launch takes: the delay in nanoseconds in the low 24 bits, and
/// above it which clusters are late. No delay is the word zero, whichever they are.
pub fn encode(microseconds: u32, rule: u32) -> (word: u32)
    requires
        microseconds * 1000 <= u32::MAX,
    ensures
        microseconds == 0 ==> word == 0,
        microseconds > 0 ==> word == (rule << 24u32) | ((microseconds * 1000) as u32),
        microseconds > 0 && microseconds * 1000 < 16777216 && rule < 256 ==> word == 16777216 * rule
            + microseconds * 1000,
{
    if microseconds == 0 {
        0
    } else {
        let nanoseconds: u32 = microseconds * 1000;
        proof {
            if nanoseconds < 16777216 && rule < 256 {
                assert((rule << 24u32) | nanoseconds == 16777216 * rule + nanoseconds)
                    by (bit_vector)
                    requires
                        nanoseconds < 16777216,
                        rule < 256,
                ;
            }
        }
        (rule << 24) | nanoseconds
    }
}

/// Law: the delay and the rule of a word can be told apart, so two settings with
/// a delay share a word only if they are the same setting.
pub proof fn law_delay_and_rule_are_recovered(microseconds: u32, rule: u32, word: u32)
    requires
        0 < microseconds,
        microseconds * 1000 < 16777216,
        rule < 256,
        word == 16777216 * rule + microseconds * 1000,
    ensures
        word as int / 16777216 == rule,
        (word as int % 16777216) / 1000 == microseconds,
{
}

/// Law: every product that is swept is one of the training step, at its shape and
/// in its mode.
pub proof fn law_what_is_swept_is_trained(index: int)
    requires
        0 <= index < STAGGER_CASES,
    ensures
        exists|trained: int|
            0 <= trained < 14 && ({
                let (_, m, k, n, mode) = stagger_case_of(index);
                let (_, tm, tk, tn, tmode) = #[trigger] model_case_of(trained);
                m == tm && k == tk && n == tn && mode == tmode
            }),
{
    let trained = if index == 0 {
        2int
    } else if index == 1 {
        0
    } else if index == 2 {
        6
    } else if index == 3 {
        10
    } else if index == 4 {
        11
    } else {
        5
    };
    assert(model_case_of(trained).1 == stagger_case_of(index).1);
}

} // verus!
