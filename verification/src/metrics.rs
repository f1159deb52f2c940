//! Metrics: what the recorder is set up with, how long a gauge lives and how
//! often it is written, and what is recorded of a request.
use vstd::prelude::*;

use crate::buckets::{bucket_rules, histogram_rules, rule_views, BucketRule};
use crate::config::Config;
use crate::decimal::{decimal, parse, parse_number, to_decimal};
use crate::header::{header_to_text, text_of_header};
use crate::text::{chars_of, has_prefix, same_text, starts_with, view_of};
use crate::text_laws::a_prefix_is_followed_by_anything;
use crate::upgrade_laws::a_value_is_text_byte_by_byte;

verus! {

/// Floor on the usage poll interval. The idle window is floored against the
/// interval, so this also sets the shortest window the relay can be given.
pub const USAGE_METRICS_MIN_INTERVAL_SECS: u64 = 5;

/// The usage poll interval where none is configured.
pub const USAGE_METRICS_DEFAULT_INTERVAL_SECS: u64 = 300;

/// The gauge lifetime where none is configured.
pub const USAGE_METRICS_DEFAULT_IDLE_SECS: u64 = 900;

/// Policy-gauge refreshes per idle window. Three leaves a whole spare refresh
/// inside the window, so one missed wakeup cannot drop a series.
pub const POLICY_GAUGE_REFRESHES_PER_WINDOW: u64 = 3;

/// The larger of two numbers.
pub open spec fn larger(a: int, b: int) -> int {
    if a < b {
        b
    } else {
        a
    }
}

/// Three poll intervals, or the largest number where that is more.
pub open spec fn three_ticks(interval_secs: u64) -> int {
    if interval_secs * 3 <= u64::MAX {
        interval_secs * 3
    } else {
        u64::MAX as int
    }
}

/// A number from a setting's text, where there is one that writes a number.
pub open spec fn setting(text: Option<Seq<char>>) -> Option<nat> {
    match text {
        Some(t) => parse(t, u64::MAX as nat),
        None => None,
    }
}

fn read_setting(text: Option<&str>) -> (r: Option<u64>)
    ensures
        match r {
            Some(n) => setting(view_of(text)) == Some(n as nat),
            None => setting(view_of(text)) is None,
        },
{
    match text {
        Some(t) => parse_number(t, u64::MAX),
        None => None,
    }
}

/// The usage poll interval for a setting's text: the number it writes, or the
/// default, with a floor that prevents a busy loop.
pub fn usage_metrics_interval_secs(configured: Option<&str>) -> (r: u64)
    ensures
        r == larger(
            match setting(view_of(configured)) {
                Some(n) => n as int,
                None => USAGE_METRICS_DEFAULT_INTERVAL_SECS as int,
            },
            USAGE_METRICS_MIN_INTERVAL_SECS as int,
        ),
        configured is None ==> r == 300,
        configured is Some && parse(configured->0@, u64::MAX as nat) is None ==> r == 300,
        configured is Some && parse(configured->0@, u64::MAX as nat) is Some ==> {
            let n = parse(configured->0@, u64::MAX as nat)->0;
            &&& n >= 5 ==> r == n
            &&& n < 5 ==> r == 5
        },
{
    let secs: u64 = match read_setting(configured) {
        Some(n) => n,
        None => USAGE_METRICS_DEFAULT_INTERVAL_SECS,
    };
    if secs < USAGE_METRICS_MIN_INTERVAL_SECS {
        USAGE_METRICS_MIN_INTERVAL_SECS
    } else {
        secs
    }
}

/// The gauge lifetime for a setting's text: one that always outlives several
/// usage-poller ticks, so that the poller's own gauges survive between them.
pub fn usage_metrics_idle_timeout_secs(configured: Option<&str>, interval_secs: u64) -> (r: u64)
    ensures
        r == larger(
            match setting(view_of(configured)) {
                Some(n) => n as int,
                None => USAGE_METRICS_DEFAULT_IDLE_SECS as int,
            },
            three_ticks(interval_secs),
        ),
        r >= 3 * interval_secs || r == u64::MAX,
        configured is Some && parse(configured->0@, u64::MAX as nat) is Some ==> {
            let n = parse(configured->0@, u64::MAX as nat)->0;
            r >= n && (r == n || r == 3 * interval_secs || r == u64::MAX && 3 * interval_secs
                > u64::MAX)
        },
        configured is None || parse(configured->0@, u64::MAX as nat) is None ==> r >= 900 && (r
            == 900 || r == 3 * interval_secs || r == u64::MAX && 3 * interval_secs > u64::MAX),
{
    idle_timeout_secs(read_setting(configured), interval_secs)
}

/// The gauge lifetime: what is configured, or the default, and never less than
/// three poll intervals.
pub fn idle_timeout_secs(configured: Option<u64>, interval_secs: u64) -> (r: u64)
    ensures
        r == larger(
            match configured {
                Some(n) => n as int,
                None => USAGE_METRICS_DEFAULT_IDLE_SECS as int,
            },
            three_ticks(interval_secs),
        ),
        r >= 3 * interval_secs || r == u64::MAX,
        configured is Some ==> r >= configured->0 && (r == configured->0 || r == 3 * interval_secs
            || r == u64::MAX && 3 * interval_secs > u64::MAX),
        configured is None ==> r >= 900 && (r == 900 || r == 3 * interval_secs || r == u64::MAX && 3
            * interval_secs > u64::MAX),
{
    let secs: u64 = match configured {
        Some(n) => n,
        None => USAGE_METRICS_DEFAULT_IDLE_SECS,
    };
    let floor: u64 = match interval_secs.checked_mul(3) {
        Some(n) => n,
        None => u64::MAX,
    };
    if secs < floor {
        floor
    } else {
        secs
    }
}

/// The refresh period for a gauge idle window, in whole seconds and never
/// nothing: a timer with a zero period is an error.
pub open spec fn refresh_period(window: int) -> int {
    larger(window / POLICY_GAUGE_REFRESHES_PER_WINDOW as int, 1)
}

/// The policy-gauge refresh period for a gauge idle window.
pub fn policy_gauge_refresh_secs(gauge_idle_timeout_secs: u64) -> (r: u64)
    ensures
        r == refresh_period(gauge_idle_timeout_secs as int),
        r >= 1,
        gauge_idle_timeout_secs >= 3 ==> 3 * r <= gauge_idle_timeout_secs < 3 * r + 3,
        gauge_idle_timeout_secs < 3 ==> r == 1,
{
    let secs: u64 = gauge_idle_timeout_secs / POLICY_GAUGE_REFRESHES_PER_WINDOW;
    if secs < 1 {
        1
    } else {
        secs
    }
}

/// Every idle window that the relay can be given outlives three usage-poller
/// ticks, and holds the refresh period as often as it should.
pub proof fn refresh_fits_every_window(configured: Option<u64>, interval_secs: u64)
    requires
        interval_secs >= USAGE_METRICS_MIN_INTERVAL_SECS,
    ensures
        ({
            let window = larger(
                match configured {
                    Some(n) => n as int,
                    None => USAGE_METRICS_DEFAULT_IDLE_SECS as int,
                },
                three_ticks(interval_secs),
            );
            &&& window >= three_ticks(interval_secs)
            &&& refresh_period(window) >= 1
            &&& refresh_period(window) * POLICY_GAUGE_REFRESHES_PER_WINDOW <= window
        }),
{
}

/// One value to write to a gauge.
#[derive(Debug)]
pub struct GaugeWrite {
    pub name: String,
    pub value: u32,
}

/// What each write of a list says: the gauge's name and its value.
pub open spec fn write_views(writes: Seq<GaugeWrite>) -> Seq<(Seq<char>, u32)> {
    Seq::new(writes.len(), |i: int| (writes[i].name@, writes[i].value))
}

/// A flag as a gauge's value.
pub open spec fn flag_value(flag: bool) -> u32 {
    if flag {
        1
    } else {
        0
    }
}

/// The relay's static policy gauges.
///
/// A gauge that goes idle is evicted, and nothing else ever writes these two
/// series, so they are written again within every idle window.
pub fn emit_policy_gauges(config: &Config) -> (r: Vec<GaugeWrite>)
    ensures
        write_views(r@) == seq![
            ("buzz_audit_enabled"@, flag_value(config.audit_enabled)),
            ("buzz_permessage_deflate_enabled"@, flag_value(config.permessage_deflate_enabled)),
        ],
        r@.len() == 2,
        r@[0].name@ == "buzz_audit_enabled"@,
        config.audit_enabled ==> r@[0].value == 1,
        !config.audit_enabled ==> r@[0].value == 0,
        r@[1].name@ == "buzz_permessage_deflate_enabled"@,
        config.permessage_deflate_enabled ==> r@[1].value == 1,
        !config.permessage_deflate_enabled ==> r@[1].value == 0,
{
    let audit: u32 = if config.audit_enabled {
        1
    } else {
        0
    };
    let deflate: u32 = if config.permessage_deflate_enabled {
        1
    } else {
        0
    };
    let mut r: Vec<GaugeWrite> = Vec::new();
    r.push(GaugeWrite { name: "buzz_audit_enabled".to_owned(), value: audit });
    r.push(GaugeWrite { name: "buzz_permessage_deflate_enabled".to_owned(), value: deflate });
    assert(write_views(r@) =~= seq![
        ("buzz_audit_enabled"@, flag_value(config.audit_enabled)),
        ("buzz_permessage_deflate_enabled"@, flag_value(config.permessage_deflate_enabled)),
    ]);
    r
}

/// The longest name of a calling service that is recorded.
pub const MAX_CALLER_LEN: usize = 64;

/// The characters of a service's name.
pub open spec fn is_service_char(c: char) -> bool {
    ('a' <= c <= 'z') || ('A' <= c <= 'Z') || ('0' <= c <= '9') || c == '-' || c == '_'
}

/// Whether a text may be recorded as a service's name.
pub open spec fn is_service_name(s: Seq<char>) -> bool {
    s.len() <= MAX_CALLER_LEN && forall|i: int|
        0 <= i < s.len() ==> is_service_char(#[trigger] s[i])
}

/// The caller to record for a header: the service it names, or `unknown`.
pub open spec fn caller_of(header: Option<Vec<u8>>) -> Seq<char> {
    match text_of_header(header) {
        Some(name) => if is_service_name(name) {
            name
        } else {
            "unknown"@
        },
        None => "unknown"@,
    }
}

/// The route pattern to record, if the request is to be recorded: not for
/// health probes, the metrics endpoint, or a request that no route matches.
pub open spec fn action_of(path: Option<Seq<char>>) -> Option<Seq<char>> {
    match path {
        Some(p) => if starts_with(p, "/_"@) || p == "/health"@ || p == "/metrics"@ {
            None
        } else {
            Some(p)
        },
        None => None,
    }
}

fn names_a_service(name: &str) -> (r: bool)
    ensures
        r == is_service_name(name@),
{
    let chars = chars_of(name);
    if chars.len() > MAX_CALLER_LEN {
        return false;
    }
    let mut i: usize = 0;
    while i < chars.len()
        invariant
            chars@ == name@,
            chars@.len() <= MAX_CALLER_LEN,
            i <= chars@.len(),
            forall|k: int| 0 <= k < i ==> is_service_char(#[trigger] name@[k]),
        decreases chars@.len() - i,
    {
        let c = chars[i];
        if !(('a' <= c && c <= 'z') || ('A' <= c && c <= 'Z') || ('0' <= c && c <= '9') || c == '-'
            || c == '_') {
            assert(!is_service_char(name@[i as int]));
            return false;
        }
        i = i + 1;
    }
    true
}

/// What is recorded of a request before its response is known.
#[derive(Debug)]
pub struct TrackedRequest {
    /// The matched route pattern.
    pub action: String,
    /// The upstream service.
    pub caller: String,
}

/// Decides whether a request is recorded, and under which labels.
///
/// `path` is the route pattern, not the raw URI: falling back to that would
/// let scanners make any number of series. `caller` is the value of
/// `x-envoy-downstream-service-cluster`, which on a public listener the client
/// controls.
pub fn track_metrics(path: Option<&str>, caller: &Option<Vec<u8>>) -> (r: Option<TrackedRequest>)
    ensures
        r is Some <==> action_of(view_of(path)) is Some,
        r is Some ==> Some(r->0.action@) == action_of(view_of(path)),
        r is Some ==> r->0.caller@ == caller_of(*caller),
        path is None ==> r is None,
        path is Some ==> (r is Some <==> action_of(Some(path->0@)) is Some),
        r is Some ==> r->0.action@ == path->0@,
{
    let action: String = match path {
        Some(p) => {
            if has_prefix(p, "/_") || same_text(p, "/health") || same_text(p, "/metrics") {
                return None;
            }
            p.to_owned()
        },
        None => {
            return None;
        },
    };
    let caller: String = match header_to_text(caller) {
        Some(name) => if names_a_service(name.as_str()) {
            name
        } else {
            "unknown".to_owned()
        },
        None => "unknown".to_owned(),
    };
    Some(TrackedRequest { action, caller })
}

/// One label of a series.
#[derive(Debug)]
pub struct Label {
    pub key: String,
    pub value: String,
}

/// What each label of a list says: its key and its value.
pub open spec fn label_views(labels: Seq<Label>) -> Seq<(Seq<char>, Seq<char>)> {
    Seq::new(labels.len(), |i: int| (labels[i].key@, labels[i].value@))
}

impl TrackedRequest {
    /// The labels of a request's series, once the status of its response is
    /// known.
    pub fn labels(&self, status: u16) -> (r: Vec<Label>)
        ensures
            label_views(r@) == seq![
                ("code"@, decimal(status as nat)),
                ("caller"@, self.caller@),
                ("action"@, self.action@),
            ],
            r@.len() == 3,
            r@[0].key@ == "code"@ && r@[0].value@ == decimal(status as nat),
            r@[1].key@ == "caller"@ && r@[1].value@ == self.caller@,
            r@[2].key@ == "action"@ && r@[2].value@ == self.action@,
    {
        let mut r: Vec<Label> = Vec::new();
        r.push(Label { key: "code".to_owned(), value: to_decimal(status as u64) });
        r.push(Label { key: "caller".to_owned(), value: self.caller.clone() });
        r.push(Label { key: "action".to_owned(), value: self.action.clone() });
        assert(label_views(r@) =~= seq![
            ("code"@, decimal(status as nat)),
            ("caller"@, self.caller@),
            ("action"@, self.action@),
        ]);
        r
    }
}

/// Whatever a client sends as its caller, what is recorded is a service's
/// name.
pub proof fn caller_is_a_service_name(header: Option<Vec<u8>>)
    ensures
        is_service_name(caller_of(header)),
{
    reveal_strlit("unknown");
    let u = "unknown"@;
    assert(u =~= seq!['u', 'n', 'k', 'n', 'o', 'w', 'n']);
    assert forall|i: int| 0 <= i < u.len() implies is_service_char(#[trigger] u[i]) by {
        assert(i == 0 || i == 1 || i == 2 || i == 3 || i == 4 || i == 5 || i == 6);
    }
}

/// What a series measures.
#[derive(Clone, Copy, Debug, PartialEq, Eq, Structural)]
pub enum MetricKind {
    Counter,
    Gauge,
    Histogram,
}

/// Whether a series that is no longer written is dropped. Only gauges are: the
/// relay stops writing some of them on purpose.
pub fn ages_out(kind: MetricKind) -> (r: bool)
    ensures
        r == (kind is Gauge),
{
    match kind {
        MetricKind::Gauge => true,
        MetricKind::Counter => false,
        MetricKind::Histogram => false,
    }
}

/// What the recorder is set up with.
#[derive(Debug)]
pub struct Recorder {
    /// The address that the exporter listens on.
    pub address: [u8; 4],
    /// The port that the exporter listens on.
    pub port: u16,
    /// The seconds after which a gauge that is no longer written is dropped.
    pub gauge_idle_timeout_secs: u64,
    /// The buckets of the histograms.
    pub rules: Vec<BucketRule>,
}

/// What the recorder is set up with, for a port and a gauge lifetime. It
/// listens on every address of the machine.
pub fn install(port: u16, gauge_idle_timeout_secs: u64) -> (r: Recorder)
    ensures
        r.address@ == seq![0u8, 0u8, 0u8, 0u8],
        r.port == port,
        r.gauge_idle_timeout_secs == gauge_idle_timeout_secs,
        rule_views(r.rules@) == bucket_rules(),
{
    let address: [u8; 4] = [0, 0, 0, 0];
    assert(address@ =~= seq![0u8, 0u8, 0u8, 0u8]);
    Recorder { address, port, gauge_idle_timeout_secs, rules: histogram_rules() }
}

/// A request is recorded under its route exactly if it has one, and that is
/// neither `/health` nor `/metrics` nor one that starts with `/_`.
pub proof fn probes_and_strangers_are_not_recorded(path: Seq<char>)
    ensures
        action_of(None) is None,
        action_of(Some(path)) is None <==> {
            ||| path == "/health"@
            ||| path == "/metrics"@
            ||| exists|below: Seq<char>| path == #[trigger] ("/_"@ + below)
        },
        action_of(Some(path)) is Some ==> action_of(Some(path))->0 == path,
{
    a_prefix_is_followed_by_anything(path, "/_"@);
}

/// The recorded caller is the header's own text exactly if that is at most 64
/// ASCII letters, digits, hyphens and underscores, and `unknown` otherwise.
pub proof fn a_caller_is_recorded_as_it_names_itself(header: Option<Vec<u8>>)
    ensures
        ({
            let named = header is Some && header->0@.len() <= 64 && forall|i: int|
                0 <= i < header->0@.len() ==> {
                    let b = #[trigger] header->0@[i];
                    ||| 48 <= b <= 57
                    ||| 65 <= b <= 90
                    ||| 97 <= b <= 122
                    ||| b == 45
                    ||| b == 95
                };
            &&& named ==> caller_of(header).len() == header->0@.len() && forall|i: int|
                0 <= i < header->0@.len() ==> (#[trigger] caller_of(header)[i]) as int
                    == header->0@[i] as int
            &&& !named ==> caller_of(header) == "unknown"@
        }),
{
    if header is Some {
        let bytes = header->0@;
        a_value_is_text_byte_by_byte(bytes);
        let named = bytes.len() <= 64 && forall|i: int|
            0 <= i < bytes.len() ==> {
                let b = #[trigger] bytes[i];
                ||| 48 <= b <= 57
                ||| 65 <= b <= 90
                ||| 97 <= b <= 122
                ||| b == 45
                ||| b == 95
            };
        if named {
            assert forall|i: int| 0 <= i < bytes.len() implies 32 <= (#[trigger] bytes[i]) <= 126
                || bytes[i] == 9 by {}
            let text = text_of_header(header)->0;
            assert forall|i: int| 0 <= i < text.len() implies is_service_char(#[trigger] text[i]) by {
                assert(text[i] as int == bytes[i] as int);
            }
        } else if text_of_header(header) is Some {
            let text = text_of_header(header)->0;
            if bytes.len() <= 64 {
                let i = choose|i: int|
                    0 <= i < bytes.len() && {
                        let b = #[trigger] bytes[i];
                        !(48 <= b <= 57 || 65 <= b <= 90 || 97 <= b <= 122 || b == 45 || b == 95)
                    };
                assert(text[i] as int == bytes[i] as int);
                assert(!is_service_char(text[i]));
            }
        }
    }
}

} // verus!
