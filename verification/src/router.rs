//! What the relay's routes decide: which pages a browser gets, which limits a
//! socket has, which origins may call, and whether the relay is ready.
use vstd::prelude::*;

use crate::header::{header_value_accepts, is_header_value};
use crate::text::{chars_of, has_prefix, same_text, starts_with, views};

verus! {

/// The pages of the admin interface.
pub open spec fn admin_page(path: Seq<char>) -> bool {
    ||| path == "/"@
    ||| path == "/reports"@
    ||| starts_with(path, "/reports/"@)
    ||| path == "/feedback"@
    ||| starts_with(path, "/feedback/"@)
}

/// The page of an invite: one code, which is not empty and holds no slash.
pub open spec fn invite_page(path: Seq<char>) -> bool {
    let code = path.skip("/invite/"@.len() as int);
    starts_with(path, "/invite/"@) && code.len() > 0 && !code.contains('/')
}

/// The pages of the Git interface.
pub open spec fn git_page(path: Seq<char>) -> bool {
    path == "/"@ || path == "/repos"@ || starts_with(path, "/repos/"@)
}

/// The pages of the public web bundle: those of invites always, those of the
/// Git interface where it is served.
pub open spec fn public_page(path: Seq<char>, serve_git_web_gui: bool) -> bool {
    invite_page(path) || (serve_git_web_gui && git_page(path))
}

/// Whether a path is a page of the admin interface.
pub fn is_admin_spa_path(path: &str) -> (r: bool)
    ensures
        r == admin_page(path@),
{
    same_text(path, "/") || same_text(path, "/reports") || has_prefix(path, "/reports/")
        || same_text(path, "/feedback") || has_prefix(path, "/feedback/")
}

/// Whether a path is the landing page of an invite.
pub fn is_invite_landing_path(path: &str) -> (r: bool)
    ensures
        r == invite_page(path@),
{
    if !has_prefix(path, "/invite/") {
        return false;
    }
    let chars = chars_of(path);
    let from: usize = chars_of("/invite/").len();
    let ghost code = path@.skip(from as int);
    if from == chars.len() {
        return false;
    }
    let mut i: usize = from;
    while i < chars.len()
        invariant
            chars@ == path@,
            from == "/invite/"@.len(),
            from <= i <= chars@.len(),
            code == path@.skip(from as int),
            forall|k: int| 0 <= k < i - from ==> code[k] != '/',
        decreases chars@.len() - i,
    {
        if chars[i] == '/' {
            assert(code[i - from] == '/');
            return false;
        }
        i = i + 1;
    }
    true
}

/// Whether a path is a page of the public web bundle.
pub fn should_serve_spa(path: &str, serve_git_web_gui: bool) -> (r: bool)
    ensures
        r == public_page(path@, serve_git_web_gui),
{
    is_invite_landing_path(path) || (serve_git_web_gui && is_git_web_gui_path(path))
}

/// Whether a path is a page of the Git interface.
pub fn is_git_web_gui_path(path: &str) -> (r: bool)
    ensures
        r == git_page(path@),
{
    same_text(path, "/") || same_text(path, "/repos") || has_prefix(path, "/repos/")
}

/// What answers a request that no route matches.
#[derive(Clone, Copy, Debug, PartialEq, Eq, Structural)]
pub enum Fallback {
    /// A file of the admin bundle.
    AdminAsset,
    /// The index page of the admin bundle.
    AdminIndex,
    /// A file of the public bundle.
    WebAsset,
    /// The index page of the public bundle.
    WebIndex,
    NotFound,
}

/// Both bundles are served from one fallback. The admin host is told first, so
/// that it can never fall through to the public bundle.
pub open spec fn fallback_for(
    path: Seq<char>,
    admin_host: bool,
    admin_bundle: bool,
    web_bundle: bool,
    serve_git_web_gui: bool,
) -> Fallback {
    if admin_host {
        if admin_bundle && starts_with(path, "/assets/"@) {
            Fallback::AdminAsset
        } else if admin_bundle && admin_page(path) {
            Fallback::AdminIndex
        } else {
            Fallback::NotFound
        }
    } else {
        if web_bundle && starts_with(path, "/assets/"@) {
            Fallback::WebAsset
        } else if web_bundle && public_page(path, serve_git_web_gui) {
            Fallback::WebIndex
        } else {
            Fallback::NotFound
        }
    }
}

/// Decides what answers a request that no route matches. `admin_host` says
/// whether the request is for the admin host; the bundles are those that the
/// relay has.
pub fn spa_fallback(
    path: &str,
    admin_host: bool,
    admin_bundle: bool,
    web_bundle: bool,
    serve_git_web_gui: bool,
) -> (r: Fallback)
    ensures
        r == fallback_for(path@, admin_host, admin_bundle, web_bundle, serve_git_web_gui),
{
    if admin_host {
        if admin_bundle {
            if has_prefix(path, "/assets/") {
                return Fallback::AdminAsset;
            }
            if is_admin_spa_path(path) {
                return Fallback::AdminIndex;
            }
        }
        return Fallback::NotFound;
    }
    if web_bundle {
        if has_prefix(path, "/assets/") {
            return Fallback::WebAsset;
        }
        if should_serve_spa(path, serve_git_web_gui) {
            return Fallback::WebIndex;
        }
    }
    Fallback::NotFound
}

/// Neither host is ever answered from the other's bundle, and a bundle that is
/// not there is never answered from.
pub proof fn bundles_stay_apart(
    path: Seq<char>,
    admin_host: bool,
    admin_bundle: bool,
    web_bundle: bool,
    serve_git_web_gui: bool,
)
    ensures
        ({
            let f = fallback_for(path, admin_host, admin_bundle, web_bundle, serve_git_web_gui);
            &&& f is AdminAsset || f is AdminIndex ==> admin_host && admin_bundle
            &&& f is WebAsset || f is WebIndex ==> !admin_host && web_bundle
        }),
{
}

/// An invite is always served; the Git pages, and no others, need the opt-in.
pub proof fn only_git_pages_need_the_opt_in(path: Seq<char>)
    ensures
        invite_page(path) ==> public_page(path, false) && public_page(path, true),
        public_page(path, false) ==> public_page(path, true),
        public_page(path, true) && !public_page(path, false) <==> git_page(path) && !invite_page(
            path,
        ),
{
}

/// The limits of a client's socket, and whether it may be compressed.
#[derive(Clone, Copy, Debug, PartialEq, Eq)]
pub struct SocketLimits {
    pub max_message_size: usize,
    pub max_frame_size: usize,
    /// Whether a compression policy is installed at all. Any policy still
    /// offers the extension, so off means none.
    pub compression: bool,
}

/// The limits of the relay's sockets.
pub open spec fn relay_limits(max_frame_bytes: usize, permessage_deflate_enabled: bool) -> SocketLimits {
    SocketLimits {
        max_message_size: max_frame_bytes,
        max_frame_size: max_frame_bytes,
        compression: permessage_deflate_enabled,
    }
}

/// The limits of the relay's sockets. They are set before a message is
/// assembled.
pub fn limit_relay_websocket(max_frame_bytes: usize, permessage_deflate_enabled: bool) -> (r:
    SocketLimits)
    ensures
        r == relay_limits(max_frame_bytes, permessage_deflate_enabled),
{
    SocketLimits {
        max_message_size: max_frame_bytes,
        max_frame_size: max_frame_bytes,
        compression: permessage_deflate_enabled,
    }
}

/// Which origins may call the relay from a browser.
#[derive(Debug)]
pub enum CorsPolicy {
    /// Any.
    Permissive,
    /// None: origins are configured, and not one of them is valid.
    Closed,
    /// These, with any method and any header.
    List(Vec<String>),
}

/// The origins of a list that may stand in a header, in order.
pub open spec fn valid_origins(origins: Seq<Seq<char>>) -> Seq<Seq<char>>
    decreases origins.len(),
{
    if origins.len() == 0 {
        Seq::empty()
    } else if is_header_value(origins.last()) {
        valid_origins(origins.drop_last()).push(origins.last())
    } else {
        valid_origins(origins.drop_last())
    }
}

/// Whether a policy is the one for a list of origins.
pub open spec fn is_policy_for(policy: CorsPolicy, origins: Seq<Seq<char>>) -> bool {
    match policy {
        CorsPolicy::Permissive => origins.len() == 0,
        CorsPolicy::Closed => origins.len() > 0 && valid_origins(origins).len() == 0,
        CorsPolicy::List(list) => valid_origins(origins).len() > 0 && views(list@) == valid_origins(
            origins,
        ),
    }
}

/// The policy for the configured origins. Where some are configured and none
/// is valid, the relay does not fall back to letting anyone call.
pub fn build_cors_layer(cors_origins: &Vec<String>) -> (r: CorsPolicy)
    ensures
        is_policy_for(r, views(cors_origins@)),
{
    if cors_origins.len() == 0 {
        return CorsPolicy::Permissive;
    }
    let ghost all = views(cors_origins@);
    let mut list: Vec<String> = Vec::new();
    let mut i: usize = 0;
    assert(views(list@) =~= valid_origins(all.take(0)));
    while i < cors_origins.len()
        invariant
            i <= cors_origins@.len(),
            all == views(cors_origins@),
            views(list@) == valid_origins(all.take(i as int)),
        decreases cors_origins@.len() - i,
    {
        let origin = &cors_origins[i];
        proof {
            assert(all.take(i + 1).drop_last() =~= all.take(i as int));
            assert(all.take(i + 1).last() == origin@);
        }
        if header_value_accepts(origin.as_str()) {
            let copy = origin.clone();
            assert(views(list@.push(copy)) =~= views(list@).push(copy@));
            list.push(copy);
        }
        i = i + 1;
    }
    assert(all.take(i as int) =~= all);
    assert(views(list@).len() == list@.len());
    if list.len() == 0 {
        return CorsPolicy::Closed;
    }
    CorsPolicy::List(list)
}

/// Only the lack of any configured origin opens the relay to all.
pub proof fn configured_origins_never_open_to_all(policy: CorsPolicy, origins: Seq<Seq<char>>)
    requires
        is_policy_for(policy, origins),
    ensures
        policy is Permissive <==> origins.len() == 0,
        policy is List ==> forall|i: int|
            0 <= i < policy->List_0@.len() ==> is_header_value((#[trigger] policy->List_0@[i])@)
                && origins.contains(policy->List_0@[i]@),
{
    valid_origins_are_valid(origins);
    if let CorsPolicy::List(list) = policy {
        assert forall|i: int| 0 <= i < list@.len() implies is_header_value((#[trigger] list@[i])@)
            && origins.contains(list@[i]@) by {
            assert(views(list@)[i] == list@[i]@);
        }
        if origins.len() == 0 {
            assert(valid_origins(origins).len() == 0);
        }
    }
}

proof fn valid_origins_are_valid(origins: Seq<Seq<char>>)
    ensures
        forall|i: int|
            0 <= i < valid_origins(origins).len() ==> is_header_value(
                #[trigger] valid_origins(origins)[i],
            ) && origins.contains(valid_origins(origins)[i]),
    decreases origins.len(),
{
    if origins.len() > 0 {
        let front = origins.drop_last();
        valid_origins_are_valid(front);
        let all = valid_origins(origins);
        assert forall|i: int| 0 <= i < all.len() implies is_header_value(#[trigger] all[i])
            && origins.contains(all[i]) by {
            if i < valid_origins(front).len() {
                assert(all[i] == valid_origins(front)[i]);
                let k = choose|k: int| 0 <= k < front.len() && front[k] == all[i];
                assert(origins[k] == all[i]);
            } else {
                assert(origins[origins.len() - 1] == all[i]);
            }
        }
    }
}

/// What the stores behind the relay answered.
#[derive(Clone, Copy, Debug, PartialEq, Eq, Structural)]
pub struct Checks {
    pub postgres: bool,
    pub redis: bool,
    pub deletion_catalog: bool,
}

/// Whether the relay takes traffic.
#[derive(Clone, Copy, Debug, PartialEq, Eq, Structural)]
pub enum Readiness {
    ShuttingDown,
    Ready,
    NotReady(Checks),
}

/// The status of a probe that passes.
pub const STATUS_OK: u16 = 200;

/// The status of a probe that fails.
pub const STATUS_UNAVAILABLE: u16 = 503;

/// The seconds that the checks of a probe may take.
pub const READINESS_TIMEOUT_SECS: u64 = 2;

/// A relay that shuts down is not ready, and none is unless each store
/// answered well in time. `checks` is `None` where they did not answer in
/// time.
pub open spec fn readiness_of(shutting_down: bool, checks: Option<Checks>) -> Readiness {
    if shutting_down {
        Readiness::ShuttingDown
    } else {
        match checks {
            Some(c) => if c.postgres && c.redis && c.deletion_catalog {
                Readiness::Ready
            } else {
                Readiness::NotReady(c)
            },
            None => Readiness::NotReady(
                Checks { postgres: false, redis: false, deletion_catalog: false },
            ),
        }
    }
}

/// Decides a readiness probe.
pub fn readiness(shutting_down: bool, checks: Option<Checks>) -> (r: Readiness)
    ensures
        r == readiness_of(shutting_down, checks),
{
    if shutting_down {
        return Readiness::ShuttingDown;
    }
    let c = match checks {
        Some(c) => c,
        None => Checks { postgres: false, redis: false, deletion_catalog: false },
    };
    if c.postgres && c.redis && c.deletion_catalog {
        Readiness::Ready
    } else {
        Readiness::NotReady(c)
    }
}

impl Readiness {
    /// The status code of the probe.
    pub fn status_code(&self) -> (r: u16)
        ensures
            r == (if *self is Ready {
                STATUS_OK
            } else {
                STATUS_UNAVAILABLE
            }),
    {
        match self {
            Readiness::Ready => STATUS_OK,
            Readiness::ShuttingDown => STATUS_UNAVAILABLE,
            Readiness::NotReady(_) => STATUS_UNAVAILABLE,
        }
    }

    /// The probe's word for it.
    pub fn status(&self) -> (r: &'static str)
        ensures
            r@ == (match *self {
                Readiness::ShuttingDown => "shutting_down"@,
                Readiness::Ready => "ready"@,
                Readiness::NotReady(_) => "not_ready"@,
            }),
    {
        match self {
            Readiness::ShuttingDown => "shutting_down",
            Readiness::Ready => "ready",
            Readiness::NotReady(_) => "not_ready",
        }
    }
}

} // verus!
