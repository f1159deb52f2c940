//! The buckets of the relay's histograms. A bound is written in thousandths of
//! the metric's unit.
use vstd::prelude::*;

verus! {

/// Which metrics a rule is for.
#[derive(Debug)]
pub enum Matcher {
    /// The one of this name.
    Full(String),
    /// Those whose names end so.
    Suffix(String),
}

/// The buckets of some metrics.
#[derive(Debug)]
pub struct BucketRule {
    pub matcher: Matcher,
    pub bounds: Vec<u64>,
}

/// What a matcher is.
pub ghost enum MatcherSpec {
    Full(Seq<char>),
    Suffix(Seq<char>),
}

/// What a rule is.
#[verifier::ext_equal]
pub ghost struct RuleSpec {
    pub matcher: MatcherSpec,
    pub bounds: Seq<u64>,
}

impl View for Matcher {
    type V = MatcherSpec;

    open spec fn view(&self) -> MatcherSpec {
        match self {
            Matcher::Full(name) => MatcherSpec::Full(name@),
            Matcher::Suffix(end) => MatcherSpec::Suffix(end@),
        }
    }
}

impl View for BucketRule {
    type V = RuleSpec;

    open spec fn view(&self) -> RuleSpec {
        RuleSpec { matcher: self.matcher@, bounds: self.bounds@ }
    }
}

/// What the rules of a list are.
pub open spec fn rule_views(rules: Seq<BucketRule>) -> Seq<RuleSpec> {
    rules.map_values(|r: BucketRule| r@)
}

/// The latency of a request, whose unit is the millisecond.
pub open spec fn latency_bounds() -> Seq<u64> {
    seq![
        5_000u64, 10_000u64, 25_000u64, 50_000u64, 100_000u64, 250_000u64, 500_000u64,
        1_000_000u64, 2_500_000u64, 5_000_000u64, 10_000_000u64,
    ]
}

/// The time that internal processing takes (events, search, audit), in seconds.
pub open spec fn duration_bounds() -> Seq<u64> {
    seq![
        1u64, 5u64, 10u64, 25u64, 50u64, 100u64, 250u64, 500u64, 1_000u64, 5_000u64,
    ]
}

/// The time that Git hydration and pack streams take, in seconds.
pub open spec fn git_duration_bounds() -> Seq<u64> {
    seq![
        10u64, 50u64, 100u64, 250u64, 500u64, 1_000u64, 2_500u64, 5_000u64, 10_000u64,
        30_000u64, 60_000u64, 120_000u64, 300_000u64,
    ]
}

/// The size of hydrated repositories and of streamed clones and fetches, in bytes.
pub open spec fn git_bytes_bounds() -> Seq<u64> {
    seq![
        0u64, 65_536_000u64, 1_048_576_000u64, 10_485_760_000u64, 52_428_800_000u64,
        104_857_600_000u64, 262_144_000_000u64, 524_288_000_000u64, 1_073_741_824_000u64,
    ]
}

/// The number of packs, which the largest number of a manifest bounds.
pub open spec fn git_pack_bounds() -> Seq<u64> {
    seq![
        0u64, 1_000u64, 2_000u64, 4_000u64, 8_000u64, 16_000u64, 32_000u64, 64_000u64,
        128_000u64,
    ]
}

/// The number of recipients of a fan-out.
pub open spec fn fanout_bounds() -> Seq<u64> {
    seq![
        0u64, 1_000u64, 5_000u64, 10_000u64, 25_000u64, 50_000u64, 100_000u64, 500_000u64,
        1_000_000u64,
    ]
}

/// The rules. The rule for an ending is for what no other rule names.
pub open spec fn bucket_rules() -> Seq<RuleSpec> {
    seq![
        (RuleSpec { matcher: MatcherSpec::Full("http_request_latency_ms"@), bounds: latency_bounds() }),
        (RuleSpec { matcher: MatcherSpec::Full("buzz_git_hydrate_seconds"@), bounds: git_duration_bounds() }),
        (RuleSpec { matcher: MatcherSpec::Full("buzz_git_upload_pack_stream_seconds"@), bounds: git_duration_bounds() }),
        (RuleSpec { matcher: MatcherSpec::Full("buzz_git_pack_cache_populate_seconds"@), bounds: git_duration_bounds() }),
        (RuleSpec { matcher: MatcherSpec::Full("buzz_git_pack_cache_population_wait_seconds"@), bounds: git_duration_bounds() }),
        (RuleSpec { matcher: MatcherSpec::Full("buzz_git_pack_compaction_seconds"@), bounds: git_duration_bounds() }),
        (RuleSpec { matcher: MatcherSpec::Full("buzz_git_hydrate_bytes"@), bounds: git_bytes_bounds() }),
        (RuleSpec { matcher: MatcherSpec::Full("buzz_git_upload_pack_stream_bytes"@), bounds: git_bytes_bounds() }),
        (RuleSpec { matcher: MatcherSpec::Full("buzz_git_pack_compaction_bytes"@), bounds: git_bytes_bounds() }),
        (RuleSpec { matcher: MatcherSpec::Full("buzz_git_hydrate_packs"@), bounds: git_pack_bounds() }),
        (RuleSpec { matcher: MatcherSpec::Full("buzz_git_pack_compaction_packs_before"@), bounds: git_pack_bounds() }),
        (RuleSpec { matcher: MatcherSpec::Full("buzz_git_pack_compaction_packs_after"@), bounds: git_pack_bounds() }),
        (RuleSpec { matcher: MatcherSpec::Suffix("_seconds"@), bounds: duration_bounds() }),
        (RuleSpec { matcher: MatcherSpec::Full("buzz_fanout_recipients"@), bounds: fanout_bounds() }),
    ]
}

fn latency_buckets() -> (r: Vec<u64>)
    ensures
        r@ == latency_bounds(),
{
    vec![
        5_000u64, 10_000u64, 25_000u64, 50_000u64, 100_000u64, 250_000u64, 500_000u64,
        1_000_000u64, 2_500_000u64, 5_000_000u64, 10_000_000u64,
    ]
}

fn duration_buckets() -> (r: Vec<u64>)
    ensures
        r@ == duration_bounds(),
{
    vec![
        1u64, 5u64, 10u64, 25u64, 50u64, 100u64, 250u64, 500u64, 1_000u64, 5_000u64,
    ]
}

fn git_duration_buckets() -> (r: Vec<u64>)
    ensures
        r@ == git_duration_bounds(),
{
    vec![
        10u64, 50u64, 100u64, 250u64, 500u64, 1_000u64, 2_500u64, 5_000u64, 10_000u64,
        30_000u64, 60_000u64, 120_000u64, 300_000u64,
    ]
}

fn git_bytes_buckets() -> (r: Vec<u64>)
    ensures
        r@ == git_bytes_bounds(),
{
    vec![
        0u64, 65_536_000u64, 1_048_576_000u64, 10_485_760_000u64, 52_428_800_000u64,
        104_857_600_000u64, 262_144_000_000u64, 524_288_000_000u64, 1_073_741_824_000u64,
    ]
}

fn git_pack_buckets() -> (r: Vec<u64>)
    ensures
        r@ == git_pack_bounds(),
{
    vec![
        0u64, 1_000u64, 2_000u64, 4_000u64, 8_000u64, 16_000u64, 32_000u64, 64_000u64,
        128_000u64,
    ]
}

fn fanout_buckets() -> (r: Vec<u64>)
    ensures
        r@ == fanout_bounds(),
{
    vec![
        0u64, 1_000u64, 5_000u64, 10_000u64, 25_000u64, 50_000u64, 100_000u64, 500_000u64,
        1_000_000u64,
    ]
}

fn full(name: &str, bounds: Vec<u64>) -> (r: BucketRule)
    ensures
        r@ == (RuleSpec { matcher: MatcherSpec::Full(name@), bounds: bounds@ }),
{
    BucketRule { matcher: Matcher::Full(name.to_owned()), bounds }
}

fn suffix(end: &str, bounds: Vec<u64>) -> (r: BucketRule)
    ensures
        r@ == (RuleSpec { matcher: MatcherSpec::Suffix(end@), bounds: bounds@ }),
{
    BucketRule { matcher: Matcher::Suffix(end.to_owned()), bounds }
}

/// The rules of the relay's histograms.
pub fn histogram_rules() -> (r: Vec<BucketRule>)
    ensures
        rule_views(r@) == bucket_rules(),
        r@.len() == bucket_rules().len(),
        forall|i: int| 0 <= i < r@.len() ==> (#[trigger] r@[i])@ == bucket_rules()[i],
{
    let rules = vec![
        full("http_request_latency_ms", latency_buckets()),
        full("buzz_git_hydrate_seconds", git_duration_buckets()),
        full("buzz_git_upload_pack_stream_seconds", git_duration_buckets()),
        full("buzz_git_pack_cache_populate_seconds", git_duration_buckets()),
        full("buzz_git_pack_cache_population_wait_seconds", git_duration_buckets()),
        full("buzz_git_pack_compaction_seconds", git_duration_buckets()),
        full("buzz_git_hydrate_bytes", git_bytes_buckets()),
        full("buzz_git_upload_pack_stream_bytes", git_bytes_buckets()),
        full("buzz_git_pack_compaction_bytes", git_bytes_buckets()),
        full("buzz_git_hydrate_packs", git_pack_buckets()),
        full("buzz_git_pack_compaction_packs_before", git_pack_buckets()),
        full("buzz_git_pack_compaction_packs_after", git_pack_buckets()),
        suffix("_seconds", duration_buckets()),
        full("buzz_fanout_recipients", fanout_buckets()),
    ];
    assert(rule_views(rules@) =~= bucket_rules());
    assert forall|i: int| 0 <= i < rules@.len() implies (#[trigger] rules@[i])@
        == bucket_rules()[i] by {
        assert(rule_views(rules@)[i] == rules@[i]@);
    }
    rules
}

/// Whether bounds are fit for buckets: there is one, and each is above the one
/// before.
pub open spec fn ascends(bounds: Seq<u64>) -> bool {
    bounds.len() > 0 && forall|i: int, j: int| 0 <= i < j < bounds.len() ==> bounds[i] < bounds[j]
}

/// Every rule's bounds are fit for buckets.
pub proof fn bounds_ascend(i: int)
    requires
        0 <= i < bucket_rules().len(),
    ensures
        ascends(bucket_rules()[i].bounds),
{
}

} // verus!
