//! The relay's root: one path that answers a browser, a client that asks for
//! the relay's description, and a client that opens a socket.
//!
//! The work between the decisions (looking a tenant up, upgrading, reading a
//! file) is done by the caller: each step takes what came of the last action
//! and says what to do next.
use vstd::prelude::*;

use crate::header::{header_to_text, text_of_header};
use crate::router::{limit_relay_websocket, relay_limits, SocketLimits, STATUS_UNAVAILABLE};
use crate::text::{contains, has_text};

verus! {

/// What the decisions read of a request and of the configuration.
#[derive(Debug)]
pub struct RootRequest {
    /// The request is for the admin host.
    pub admin_host: bool,
    /// The admin interface has a web bundle.
    pub admin_bundle: bool,
    /// The `Accept` header.
    pub accept: Option<Vec<u8>>,
    pub serve_git_web_gui: bool,
    /// There is a public web bundle.
    pub web_bundle: bool,
    pub max_frame_bytes: usize,
    pub permessage_deflate_enabled: bool,
}

/// What happened.
#[derive(Clone, Copy, Debug, PartialEq, Eq, Structural)]
pub enum RootEvent {
    /// The request came in.
    Arrived,
    /// The host was looked up: it is mapped to a community, or it is not or
    /// could not be looked up.
    Tenant { bound: bool },
    /// The upgrade was tried on the request.
    Upgrade { possible: bool, shutting_down: bool },
    /// The index page of the public bundle was read.
    Index { read: bool },
}

/// What to do.
#[derive(Clone, Copy, Debug, PartialEq, Eq)]
pub enum RootAction {
    /// Answer that there is nothing here.
    NotFound,
    /// Answer with the index page of the admin bundle.
    AdminIndex,
    /// Answer with the relay's description.
    Nip11,
    /// Look the host's community up.
    BindTenant,
    /// Answer that no community is configured, in the same words whatever the
    /// reason.
    NoCommunity,
    /// Try to upgrade the request.
    TryUpgrade,
    /// Answer that the relay restarts.
    Restarting,
    /// Complete the upgrade with these limits.
    Accept(SocketLimits),
    /// Read the index page of the public bundle.
    ReadWebIndex,
    /// Answer with the page that was read.
    WebIndex,
}

/// What a client on a host without a community is told, whatever the reason.
pub const NO_COMMUNITY_WORDS: &'static str = "relay: no community is configured for this host";

/// What a client is told while the relay shuts down.
pub const RESTARTING_WORDS: &'static str = "relay restarting";

/// The status of a refusal for want of anything there.
pub const STATUS_NOT_FOUND: u16 = 404;

impl RootAction {
    /// The status of the refusal that the action is, if it is one.
    pub fn status_code(&self) -> (r: Option<u16>)
        ensures
            r == (match *self {
                RootAction::NotFound => Some(STATUS_NOT_FOUND),
                RootAction::NoCommunity => Some(STATUS_NOT_FOUND),
                RootAction::Restarting => Some(STATUS_UNAVAILABLE),
                _ => None,
            }),
    {
        match self {
            RootAction::NotFound => Some(STATUS_NOT_FOUND),
            RootAction::NoCommunity => Some(STATUS_NOT_FOUND),
            RootAction::Restarting => Some(STATUS_UNAVAILABLE),
            _ => None,
        }
    }

    /// The words of the refusal; none for what is no refusal, or is one
    /// without words.
    pub fn words(&self) -> (r: &'static str)
        ensures
            r@ == (match *self {
                RootAction::NoCommunity => NO_COMMUNITY_WORDS@,
                RootAction::Restarting => RESTARTING_WORDS@,
                _ => ""@,
            }),
    {
        match self {
            RootAction::NoCommunity => NO_COMMUNITY_WORDS,
            RootAction::Restarting => RESTARTING_WORDS,
            _ => "",
        }
    }
}

/// The text of the `Accept` header, empty where there is none.
pub open spec fn accept_text(req: RootRequest) -> Seq<char> {
    match text_of_header(req.accept) {
        Some(t) => t,
        None => Seq::empty(),
    }
}

/// Whether the client asks for a page.
pub open spec fn wants_html(req: RootRequest) -> bool {
    contains(accept_text(req), "text/html"@)
}

/// Whether the client asks for the relay's description.
pub open spec fn wants_nip11(req: RootRequest) -> bool {
    contains(accept_text(req), "application/nostr+json"@)
}

/// What to do on an event.
///
/// The admin host is told first and gets its own page or nothing. The
/// description is served before a tenant is bound. A socket is opened only
/// behind a bound tenant, and not while the relay shuts down. What is no
/// upgrade gets the Git pages where they are served, and else the description.
pub open spec fn next_action(req: RootRequest, event: RootEvent) -> RootAction {
    match event {
        RootEvent::Arrived => if req.admin_host {
            if wants_html(req) && req.admin_bundle {
                RootAction::AdminIndex
            } else {
                RootAction::NotFound
            }
        } else if wants_nip11(req) {
            RootAction::Nip11
        } else {
            RootAction::BindTenant
        },
        RootEvent::Tenant { bound } => if bound {
            RootAction::TryUpgrade
        } else {
            RootAction::NoCommunity
        },
        RootEvent::Upgrade { possible, shutting_down } => if possible {
            if shutting_down {
                RootAction::Restarting
            } else {
                RootAction::Accept(
                    relay_limits(req.max_frame_bytes, req.permessage_deflate_enabled),
                )
            }
        } else if req.serve_git_web_gui && req.web_bundle && wants_html(req) {
            RootAction::ReadWebIndex
        } else {
            RootAction::Nip11
        },
        RootEvent::Index { read } => if read {
            RootAction::WebIndex
        } else {
            RootAction::Nip11
        },
    }
}

fn accepts(req: &RootRequest, kind: &str) -> (r: bool)
    ensures
        r == contains(accept_text(*req), kind@),
{
    match header_to_text(&req.accept) {
        Some(t) => has_text(t.as_str(), kind),
        None => has_text(String::new().as_str(), kind),
    }
}

/// Decides what to do on an event.
pub fn nip11_or_ws_handler(req: &RootRequest, event: RootEvent) -> (r: RootAction)
    ensures
        r == next_action(*req, event),
{
    match event {
        RootEvent::Arrived => {
            if req.admin_host {
                if accepts(req, "text/html") && req.admin_bundle {
                    RootAction::AdminIndex
                } else {
                    RootAction::NotFound
                }
            } else if accepts(req, "application/nostr+json") {
                RootAction::Nip11
            } else {
                RootAction::BindTenant
            }
        },
        RootEvent::Tenant { bound } => {
            if bound {
                RootAction::TryUpgrade
            } else {
                RootAction::NoCommunity
            }
        },
        RootEvent::Upgrade { possible, shutting_down } => {
            if possible {
                if shutting_down {
                    RootAction::Restarting
                } else {
                    RootAction::Accept(
                        limit_relay_websocket(req.max_frame_bytes, req.permessage_deflate_enabled),
                    )
                }
            } else if req.serve_git_web_gui && req.web_bundle && accepts(req, "text/html") {
                RootAction::ReadWebIndex
            } else {
                RootAction::Nip11
            }
        },
        RootEvent::Index { read } => {
            if read {
                RootAction::WebIndex
            } else {
                RootAction::Nip11
            }
        },
    }
}

/// Whether an event is one that can come of an action.
pub open spec fn comes_of(event: RootEvent, action: RootAction) -> bool {
    match action {
        RootAction::BindTenant => event is Tenant,
        RootAction::TryUpgrade => event is Upgrade,
        RootAction::ReadWebIndex => event is Index,
        _ => false,
    }
}

/// Whether a list of events is that of one request: it starts with the
/// arrival, and each later event comes of the action on the one before.
pub open spec fn is_run(req: RootRequest, events: Seq<RootEvent>) -> bool {
    &&& events.len() > 0
    &&& events[0] is Arrived
    &&& forall|i: int|
        0 < i < events.len() ==> comes_of(
            #[trigger] events[i],
            next_action(req, events[i - 1]),
        )
}

/// Every request is answered after four steps at the most, in this order:
/// arrival, tenant, upgrade, page.
pub proof fn runs_are_short(req: RootRequest, events: Seq<RootEvent>)
    requires
        is_run(req, events),
    ensures
        events.len() <= 4,
        events.len() > 1 ==> events[1] is Tenant && next_action(req, events[0]) is BindTenant,
        events.len() > 2 ==> events[2] is Upgrade && events[1] == (RootEvent::Tenant {
            bound: true,
        }),
        events.len() > 3 ==> events[3] is Index,
{
    if events.len() > 1 {
        assert(comes_of(events[1], next_action(req, events[1 - 1])));
    }
    if events.len() > 2 {
        assert(comes_of(events[2], next_action(req, events[2 - 1])));
    }
    if events.len() > 3 {
        assert(comes_of(events[3], next_action(req, events[3 - 1])));
    }
    if events.len() > 4 {
        assert(comes_of(events[4], next_action(req, events[4 - 1])));
    }
}

/// The admin host is answered at once, with its own page or nothing: never
/// with the public bundle, the description or a socket.
pub proof fn admin_host_stays_apart(req: RootRequest, events: Seq<RootEvent>)
    requires
        is_run(req, events),
    ensures
        req.admin_host ==> events.len() == 1 && (next_action(req, events[0]) is AdminIndex
            || next_action(req, events[0]) is NotFound),
        !req.admin_host ==> forall|i: int|
            0 <= i < events.len() ==> !(next_action(req, #[trigger] events[i]) is AdminIndex),
{
    runs_are_short(req, events);
}

/// No socket is opened on a connection whose host is not bound to a community,
/// or while the relay shuts down; one that is opened has the relay's limits,
/// and compression exactly where that is enabled.
pub proof fn sockets_are_bound(req: RootRequest, events: Seq<RootEvent>, i: int)
    requires
        is_run(req, events),
        0 <= i < events.len(),
        next_action(req, events[i]) is Accept,
    ensures
        i == 2,
        events[1] == (RootEvent::Tenant { bound: true }),
        events[2] == (RootEvent::Upgrade { possible: true, shutting_down: false }),
        next_action(req, events[i]) == RootAction::Accept(
            relay_limits(req.max_frame_bytes, req.permessage_deflate_enabled),
        ),
        !req.admin_host,
{
    runs_are_short(req, events);
}

/// A host that is not bound ends the request with the one answer.
pub proof fn unbound_hosts_are_rejected(req: RootRequest, events: Seq<RootEvent>, i: int)
    requires
        is_run(req, events),
        0 <= i < events.len(),
        events[i] == (RootEvent::Tenant { bound: false }),
    ensures
        events.len() == i + 1,
        next_action(req, events[i]) is NoCommunity,
{
    runs_are_short(req, events);
}

/// A client that asks for the description gets it without a tenant.
pub proof fn description_needs_no_tenant(req: RootRequest, events: Seq<RootEvent>)
    requires
        is_run(req, events),
        !req.admin_host,
        wants_nip11(req),
    ensures
        events.len() == 1,
        next_action(req, events[0]) is Nip11,
{
    runs_are_short(req, events);
}

} // verus!
