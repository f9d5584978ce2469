//! The size of local model to suggest for the machine's memory.

use vstd::prelude::*;

verus! {

/// The machine's memory in bytes and its number of processor cores.
#[derive(Debug, Clone, Copy)]
pub struct HardwareProfile {
    pub total_ram_bytes: u64,
    pub free_ram_bytes: u64,
    pub cpu_cores: usize,
}

/// A model to download, by the name `ollama pull` takes, with its rough
/// size in tenths of a gigabyte.
#[derive(Debug, Clone)]
pub struct ModelRecommendation {
    pub name: String,
    pub approx_size_tenths_gb: u32,
    pub description: String,
}

pub struct RecommendationView {
    pub name: Seq<char>,
    pub approx_size_tenths_gb: u32,
    pub description: Seq<char>,
}

impl View for ModelRecommendation {
    type V = RecommendationView;

    open spec fn view(&self) -> RecommendationView {
        RecommendationView {
            name: self.name@,
            approx_size_tenths_gb: self.approx_size_tenths_gb,
            description: self.description@,
        }
    }
}

pub open spec fn recommendation_views(s: Seq<ModelRecommendation>) -> Seq<RecommendationView> {
    s.map_values(|m: ModelRecommendation| m@)
}

/// The model suggested, and the others.
pub struct ModelRecommendationResult {
    pub recommended: ModelRecommendation,
    pub alternatives: Vec<ModelRecommendation>,
}

/// One gigabyte (2^30 bytes).
pub const BYTES_PER_GB: u64 = 1_073_741_824;

/// The three sizes offered, smallest first: all small enough to be a
/// reasonable first download.
pub open spec fn tiers() -> Seq<RecommendationView> {
    seq![
        RecommendationView {
            name: "qwen2.5-coder:1.5b"@,
            approx_size_tenths_gb: 10,
            description: "tiny & fast \u{2014} great for a first test on modest hardware"@,
        },
        RecommendationView {
            name: "qwen2.5-coder:3b"@,
            approx_size_tenths_gb: 19,
            description: "still small, noticeably better coding quality"@,
        },
        RecommendationView {
            name: "qwen2.5-coder:7b"@,
            approx_size_tenths_gb: 47,
            description: "the strongest of the small tiers, wants more RAM"@,
        },
    ]
}

/// The size offered for a machine with this much memory: the largest at
/// 16 GB or more, the middle one at 8 GB or more, else the smallest.
pub open spec fn tier_index(total_ram_bytes: u64) -> int {
    if total_ram_bytes >= 16 * BYTES_PER_GB {
        2
    } else if total_ram_bytes >= 8 * BYTES_PER_GB {
        1
    } else {
        0
    }
}

/// The tier at index `i`.
pub fn tier(i: usize) -> (m: ModelRecommendation)
    requires
        i < 3,
    ensures
        m@ == tiers()[i as int],
{
    if i == 0 {
        ModelRecommendation {
            name: "qwen2.5-coder:1.5b".to_owned(),
            approx_size_tenths_gb: 10,
            description: "tiny & fast \u{2014} great for a first test on modest hardware".to_owned(),
        }
    } else if i == 1 {
        ModelRecommendation {
            name: "qwen2.5-coder:3b".to_owned(),
            approx_size_tenths_gb: 19,
            description: "still small, noticeably better coding quality".to_owned(),
        }
    } else {
        ModelRecommendation {
            name: "qwen2.5-coder:7b".to_owned(),
            approx_size_tenths_gb: 47,
            description: "the strongest of the small tiers, wants more RAM".to_owned(),
        }
    }
}

/// The model suggested for the machine, and the other sizes in order.
pub fn recommend_model(hw: &HardwareProfile) -> (r: ModelRecommendationResult)
    ensures
        r.recommended@ == tiers()[tier_index(hw.total_ram_bytes)],
        recommendation_views(r.alternatives@) == tiers().remove(tier_index(hw.total_ram_bytes)),
{
    let idx: usize = if hw.total_ram_bytes >= 16 * BYTES_PER_GB {
        2
    } else if hw.total_ram_bytes >= 8 * BYTES_PER_GB {
        1
    } else {
        0
    };
    let (a, b): (usize, usize) = if idx == 0 {
        (1, 2)
    } else if idx == 1 {
        (0, 2)
    } else {
        (0, 1)
    };
    let alternatives = vec![tier(a), tier(b)];
    assert(recommendation_views(alternatives@) =~= tiers().remove(idx as int));
    ModelRecommendationResult { recommended: tier(idx), alternatives }
}

} // verus!
