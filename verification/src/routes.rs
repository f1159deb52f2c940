//! The routes of the relay.
use vstd::prelude::*;

use crate::config::Config;
use crate::metrics::action_of;
use crate::router::{build_cors_layer, is_policy_for, CorsPolicy};
use crate::text::views;

verus! {

/// The method that a route answers.
#[derive(Clone, Copy, Debug, PartialEq, Eq, Structural)]
pub enum Method {
    Get,
    Head,
    Post,
    Put,
}

/// What answers a route.
#[derive(Clone, Copy, Debug, PartialEq, Eq, Structural)]
pub enum Endpoint {
    Root,
    RelayInfo,
    Nip05,
    Health,
    Liveness,
    Readiness,
    SubmitEvent,
    QueryEvents,
    CountEvents,
    WorkflowRuns,
    RunApprovals,
    ListOwnedCommunities,
    ProvisionCommunity,
    ArchiveCommunity,
    UnarchiveCommunity,
    CommunityAvailability,
    TransferCommunity,
    MintInvite,
    JoinPolicy,
    JoinPolicyTerms,
    JoinPolicyPrivacy,
    AcceptPolicy,
    ClaimInvite,
    ModerationReports,
    ModerationAudit,
    ModerationRestricted,
    WorkflowWebhook,
    MeshDemoEcho,
    HuddleAudio,
    UploadBlob,
    GetBlob,
    HeadBlob,
    Status,
    MeshStatus,
}

/// A route.
#[derive(Debug)]
pub struct Route {
    pub path: String,
    pub method: Method,
    pub endpoint: Endpoint,
}

/// What a route is.
pub ghost struct RouteSpec {
    pub path: Seq<char>,
    pub method: Method,
    pub endpoint: Endpoint,
}

impl View for Route {
    type V = RouteSpec;

    open spec fn view(&self) -> RouteSpec {
        RouteSpec { path: self.path@, method: self.method, endpoint: self.endpoint }
    }
}

/// What the routes of a list are.
pub open spec fn route_views(routes: Seq<Route>) -> Seq<RouteSpec> {
    routes.map_values(|r: Route| r@)
}

/// A route, by its parts.
pub open spec fn route_of(path: Seq<char>, method: Method, endpoint: Endpoint) -> RouteSpec {
    RouteSpec { path, method, endpoint }
}

fn route(path: &str, method: Method, endpoint: Endpoint) -> (r: Route)
    ensures
        r@ == route_of(path@, method, endpoint),
{
    Route { path: path.to_owned(), method, endpoint }
}

/// The sockets, the documents, the probes, and the HTTP bridge.
pub open spec fn core_table() -> Seq<RouteSpec> {
    seq![
        route_of("/"@, Method::Get, Endpoint::Root),
        route_of("/info"@, Method::Get, Endpoint::RelayInfo),
        route_of("/.well-known/nostr.json"@, Method::Get, Endpoint::Nip05),
        route_of("/health"@, Method::Get, Endpoint::Health),
        route_of("/_liveness"@, Method::Get, Endpoint::Liveness),
        route_of("/_readiness"@, Method::Get, Endpoint::Readiness),
        route_of("/events"@, Method::Post, Endpoint::SubmitEvent),
        route_of("/query"@, Method::Post, Endpoint::QueryEvents),
        route_of("/count"@, Method::Post, Endpoint::CountEvents),
        route_of("/workflows/{workflow_id}/runs"@, Method::Get, Endpoint::WorkflowRuns),
        route_of("/workflows/{workflow_id}/runs/{run_id}/approvals"@, Method::Get, Endpoint::RunApprovals),
    ]
}

/// What operators do with communities.
pub open spec fn operator_table() -> Seq<RouteSpec> {
    seq![
        route_of("/operator/communities"@, Method::Get, Endpoint::ListOwnedCommunities),
        route_of("/operator/communities"@, Method::Post, Endpoint::ProvisionCommunity),
        route_of("/operator/communities/archive"@, Method::Post, Endpoint::ArchiveCommunity),
        route_of("/operator/communities/unarchive"@, Method::Post, Endpoint::UnarchiveCommunity),
        route_of("/operator/communities/availability"@, Method::Get, Endpoint::CommunityAvailability),
        route_of("/operator/communities/transfer"@, Method::Post, Endpoint::TransferCommunity),
    ]
}

/// Invites and the policy that a member accepts.
pub open spec fn invite_table() -> Seq<RouteSpec> {
    seq![
        route_of("/api/invites"@, Method::Post, Endpoint::MintInvite),
        route_of("/api/join-policy"@, Method::Get, Endpoint::JoinPolicy),
        route_of("/api/join-policy/terms"@, Method::Get, Endpoint::JoinPolicyTerms),
        route_of("/api/join-policy/privacy"@, Method::Get, Endpoint::JoinPolicyPrivacy),
        route_of("/api/invites/accept-policy"@, Method::Post, Endpoint::AcceptPolicy),
        route_of("/api/invites/claim"@, Method::Post, Endpoint::ClaimInvite),
    ]
}

/// What moderators read, the webhooks, the mesh probe and the huddles.
pub open spec fn moderation_table() -> Seq<RouteSpec> {
    seq![
        route_of("/moderation/reports"@, Method::Get, Endpoint::ModerationReports),
        route_of("/moderation/audit"@, Method::Get, Endpoint::ModerationAudit),
        route_of("/moderation/restricted"@, Method::Get, Endpoint::ModerationRestricted),
        route_of("/hooks/{id}"@, Method::Post, Endpoint::WorkflowWebhook),
        route_of("/_mesh/demo/echo"@, Method::Post, Endpoint::MeshDemoEcho),
        route_of("/huddle/{channel_id}/audio"@, Method::Get, Endpoint::HuddleAudio),
    ]
}

/// The routes whose bodies are small.
pub open spec fn api_table() -> Seq<RouteSpec> {
    core_table() + operator_table() + invite_table() + moderation_table()
}

/// The routes that take and give media.
pub open spec fn media_table() -> Seq<RouteSpec> {
    seq![
        route_of("/upload"@, Method::Put, Endpoint::UploadBlob),
        route_of("/media/upload"@, Method::Put, Endpoint::UploadBlob),
        route_of("/media/{sha256_ext}"@, Method::Get, Endpoint::GetBlob),
        route_of("/media/{sha256_ext}"@, Method::Head, Endpoint::HeadBlob),
    ]
}

/// The routes of the probes.
pub open spec fn health_table() -> Seq<RouteSpec> {
    seq![
        route_of("/_liveness"@, Method::Get, Endpoint::Liveness),
        route_of("/_readiness"@, Method::Get, Endpoint::Readiness),
        route_of("/_status"@, Method::Get, Endpoint::Status),
        route_of("/_mesh"@, Method::Get, Endpoint::MeshStatus),
    ]
}

fn core_routes() -> (r: Vec<Route>)
    ensures
        route_views(r@) == core_table(),
{
    let routes = vec![
        route("/", Method::Get, Endpoint::Root),
        route("/info", Method::Get, Endpoint::RelayInfo),
        route("/.well-known/nostr.json", Method::Get, Endpoint::Nip05),
        route("/health", Method::Get, Endpoint::Health),
        route("/_liveness", Method::Get, Endpoint::Liveness),
        route("/_readiness", Method::Get, Endpoint::Readiness),
        route("/events", Method::Post, Endpoint::SubmitEvent),
        route("/query", Method::Post, Endpoint::QueryEvents),
        route("/count", Method::Post, Endpoint::CountEvents),
        route("/workflows/{workflow_id}/runs", Method::Get, Endpoint::WorkflowRuns),
        route("/workflows/{workflow_id}/runs/{run_id}/approvals", Method::Get, Endpoint::RunApprovals),
    ];
    assert(route_views(routes@) =~= core_table());
    routes
}

fn operator_routes() -> (r: Vec<Route>)
    ensures
        route_views(r@) == operator_table(),
{
    let routes = vec![
        route("/operator/communities", Method::Get, Endpoint::ListOwnedCommunities),
        route("/operator/communities", Method::Post, Endpoint::ProvisionCommunity),
        route("/operator/communities/archive", Method::Post, Endpoint::ArchiveCommunity),
        route("/operator/communities/unarchive", Method::Post, Endpoint::UnarchiveCommunity),
        route("/operator/communities/availability", Method::Get, Endpoint::CommunityAvailability),
        route("/operator/communities/transfer", Method::Post, Endpoint::TransferCommunity),
    ];
    assert(route_views(routes@) =~= operator_table());
    routes
}

fn invite_routes() -> (r: Vec<Route>)
    ensures
        route_views(r@) == invite_table(),
{
    let routes = vec![
        route("/api/invites", Method::Post, Endpoint::MintInvite),
        route("/api/join-policy", Method::Get, Endpoint::JoinPolicy),
        route("/api/join-policy/terms", Method::Get, Endpoint::JoinPolicyTerms),
        route("/api/join-policy/privacy", Method::Get, Endpoint::JoinPolicyPrivacy),
        route("/api/invites/accept-policy", Method::Post, Endpoint::AcceptPolicy),
        route("/api/invites/claim", Method::Post, Endpoint::ClaimInvite),
    ];
    assert(route_views(routes@) =~= invite_table());
    routes
}

fn moderation_routes() -> (r: Vec<Route>)
    ensures
        route_views(r@) == moderation_table(),
{
    let routes = vec![
        route("/moderation/reports", Method::Get, Endpoint::ModerationReports),
        route("/moderation/audit", Method::Get, Endpoint::ModerationAudit),
        route("/moderation/restricted", Method::Get, Endpoint::ModerationRestricted),
        route("/hooks/{id}", Method::Post, Endpoint::WorkflowWebhook),
        route("/_mesh/demo/echo", Method::Post, Endpoint::MeshDemoEcho),
        route("/huddle/{channel_id}/audio", Method::Get, Endpoint::HuddleAudio),
    ];
    assert(route_views(routes@) =~= moderation_table());
    routes
}

fn media_routes() -> (r: Vec<Route>)
    ensures
        route_views(r@) == media_table(),
{
    let routes = vec![
        route("/upload", Method::Put, Endpoint::UploadBlob),
        route("/media/upload", Method::Put, Endpoint::UploadBlob),
        route("/media/{sha256_ext}", Method::Get, Endpoint::GetBlob),
        route("/media/{sha256_ext}", Method::Head, Endpoint::HeadBlob),
    ];
    assert(route_views(routes@) =~= media_table());
    routes
}

fn api_routes() -> (r: Vec<Route>)
    ensures
        route_views(r@) == api_table(),
{
    let mut routes = core_routes();
    let mut operator = operator_routes();
    let mut invite = invite_routes();
    let mut moderation = moderation_routes();
    let ghost parts = (routes@, operator@, invite@, moderation@);
    routes.append(&mut operator);
    routes.append(&mut invite);
    routes.append(&mut moderation);
    assert(route_views(routes@) =~= route_views(parts.0) + route_views(parts.1) + route_views(
        parts.2,
    ) + route_views(parts.3));
    routes
}

/// The largest body of a route that takes no media.
pub const API_BODY_LIMIT: usize = 1_048_576;

/// Where the routes of the admin interface are mounted.
pub const ADMIN_MOUNT: &'static str = "/api/admin/v1";

/// What the relay's router is made of. Each of the two lists has its own limit
/// on bodies. The Git routes, which the relay's Git service brings, join them.
#[derive(Debug)]
pub struct RouterPlan {
    pub api: Vec<Route>,
    pub api_body_limit: usize,
    pub media: Vec<Route>,
    pub media_body_limit: usize,
    /// The routes of the admin interface are mounted.
    pub admin_enabled: bool,
    /// Where the admin bundle lies, if there is one.
    pub admin_web_dir: Option<String>,
    /// Where the public bundle lies, if there is one.
    pub web_dir: Option<String>,
    /// What no route matches is answered from the bundles.
    pub serves_bundles: bool,
    pub serve_git_web_gui: bool,
    pub cors: CorsPolicy,
}

/// Where the admin bundle lies, if the admin interface has one.
pub open spec fn admin_dir(config: Config) -> Option<Seq<char>> {
    match config.admin {
        Some(admin) => dir_of(admin.web_dir),
        None => None,
    }
}

/// What a directory that may be configured is.
pub open spec fn dir_of(dir: Option<String>) -> Option<Seq<char>> {
    match dir {
        Some(d) => Some(d@),
        None => None,
    }
}

/// The larger of the two sizes of media.
pub open spec fn media_limit(config: Config) -> u64 {
    if config.media.max_image_bytes < config.media.max_video_bytes {
        config.media.max_video_bytes
    } else {
        config.media.max_image_bytes
    }
}

/// The relay's router: sockets, the HTTP bridge, media, and the probes.
pub fn build_router(config: &Config) -> (r: RouterPlan)
    ensures
        route_views(r.api@) == api_table(),
        r.api_body_limit == API_BODY_LIMIT,
        route_views(r.media@) == media_table(),
        r.media_body_limit == media_limit(*config) as usize,
        r.admin_enabled == config.admin is Some,
        dir_of(r.admin_web_dir) == admin_dir(*config),
        dir_of(r.web_dir) == dir_of(config.web_dir),
        r.serves_bundles == (admin_dir(*config) is Some || config.web_dir is Some),
        r.serve_git_web_gui == config.serve_git_web_gui,
        is_policy_for(r.cors, views(config.cors_origins@)),
        r.api_body_limit == 1024 * 1024,
        config.media.max_image_bytes >= config.media.max_video_bytes ==> r.media_body_limit
            == config.media.max_image_bytes as usize,
        config.media.max_image_bytes <= config.media.max_video_bytes ==> r.media_body_limit
            == config.media.max_video_bytes as usize,
        r.web_dir.deep_view() == config.web_dir.deep_view(),
        config.admin is None ==> r.admin_web_dir is None,
        config.admin is Some ==> r.admin_web_dir.deep_view() == config.admin->0.web_dir.deep_view(),
        r.serves_bundles <==> r.admin_web_dir is Some || r.web_dir is Some,
        r.api@.len() == api_table().len(),
        forall|i: int|
            0 <= i < r.api@.len() ==> (#[trigger] r.api@[i]).path@ == api_table()[i].path
                && r.api@[i].method == api_table()[i].method && r.api@[i].endpoint
                == api_table()[i].endpoint,
        r.media@.len() == media_table().len(),
        forall|i: int|
            0 <= i < r.media@.len() ==> (#[trigger] r.media@[i]).path@ == media_table()[i].path
                && r.media@[i].method == media_table()[i].method && r.media@[i].endpoint
                == media_table()[i].endpoint,
{
    let media_body_limit: u64 = if config.media.max_image_bytes < config.media.max_video_bytes {
        config.media.max_video_bytes
    } else {
        config.media.max_image_bytes
    };
    let admin_web_dir: Option<String> = match &config.admin {
        Some(admin) => match &admin.web_dir {
            Some(dir) => Some(dir.clone()),
            None => None,
        },
        None => None,
    };
    let web_dir: Option<String> = match &config.web_dir {
        Some(dir) => Some(dir.clone()),
        None => None,
    };
    let api = api_routes();
    let media = media_routes();
    proof {
        assert(route_views(api@).len() == api@.len());
        assert(route_views(media@).len() == media@.len());
        assert forall|i: int| 0 <= i < api@.len() implies (#[trigger] api@[i])@
            == api_table()[i] by {
            assert(route_views(api@)[i] == api@[i]@);
        }
        assert forall|i: int| 0 <= i < media@.len() implies (#[trigger] media@[i])@
            == media_table()[i] by {
            assert(route_views(media@)[i] == media@[i]@);
        }
    }
    RouterPlan {
        api,
        api_body_limit: API_BODY_LIMIT,
        media,
        media_body_limit: #[verifier::truncate] (media_body_limit as usize),
        admin_enabled: config.admin.is_some(),
        serves_bundles: admin_web_dir.is_some() || web_dir.is_some(),
        admin_web_dir,
        web_dir,
        serve_git_web_gui: config.serve_git_web_gui,
        cors: build_cors_layer(&config.cors_origins),
    }
}

/// The router of the probes alone.
pub fn build_health_router() -> (r: Vec<Route>)
    ensures
        route_views(r@) == health_table(),
{
    let routes = vec![
        route("/_liveness", Method::Get, Endpoint::Liveness),
        route("/_readiness", Method::Get, Endpoint::Readiness),
        route("/_status", Method::Get, Endpoint::Status),
        route("/_mesh", Method::Get, Endpoint::MeshStatus),
    ];
    assert(route_views(routes@) =~= health_table());
    routes
}

/// A number for a method.
spec fn method_mark(method: Method) -> int {
    match method {
        Method::Get => 0,
        Method::Head => 1,
        Method::Post => 2,
        Method::Put => 3,
    }
}

/// A number that tells the routes apart: it holds the length of the path, its
/// third character, and the method.
spec fn mark(r: RouteSpec) -> int {
    let path = if r.path.len() <= 2 {
        0
    } else {
        r.path.len() * 128 + r.path[2] as int
    };
    path * 4 + method_mark(r.method)
}

/// The marks of the routes.
spec fn marks() -> Seq<int> {
    seq![
        0, 3000, 12252, 3988, 5552, 6088, 4058, 3542, 3518, 15292, 25020, 11200, 11202, 15298,
        16322, 17856, 15810, 6594, 8640, 11712, 12736, 13762, 9666, 10172, 9148, 11708, 6078,
        8630, 13780, 4035, 7063, 10132, 10133,
    ]
}

proof fn marks_differ(i: int, j: int)
    requires
        0 <= i < marks().len(),
        0 <= j < marks().len(),
        i != j,
    ensures
        marks()[i] != marks()[j],
{
}

proof fn core_marks(i: int)
    requires
        0 <= i < core_table().len(),
    ensures
        mark(core_table()[i]) == marks()[i],
{
    reveal_strlit("/");
    reveal_strlit("/info");
    reveal_strlit("/.well-known/nostr.json");
    reveal_strlit("/health");
    reveal_strlit("/_liveness");
    reveal_strlit("/_readiness");
    reveal_strlit("/events");
    reveal_strlit("/query");
    reveal_strlit("/count");
    reveal_strlit("/workflows/{workflow_id}/runs");
    reveal_strlit("/workflows/{workflow_id}/runs/{run_id}/approvals");
}

proof fn operator_marks(i: int)
    requires
        0 <= i < operator_table().len(),
    ensures
        mark(operator_table()[i]) == marks()[11 + i],
{
    reveal_strlit("/operator/communities");
    reveal_strlit("/operator/communities/archive");
    reveal_strlit("/operator/communities/unarchive");
    reveal_strlit("/operator/communities/availability");
    reveal_strlit("/operator/communities/transfer");
}

proof fn invite_marks(i: int)
    requires
        0 <= i < invite_table().len(),
    ensures
        mark(invite_table()[i]) == marks()[17 + i],
{
    reveal_strlit("/api/invites");
    reveal_strlit("/api/join-policy");
    reveal_strlit("/api/join-policy/terms");
    reveal_strlit("/api/join-policy/privacy");
    reveal_strlit("/api/invites/accept-policy");
    reveal_strlit("/api/invites/claim");
}

proof fn moderation_marks(i: int)
    requires
        0 <= i < moderation_table().len(),
    ensures
        mark(moderation_table()[i]) == marks()[23 + i],
{
    reveal_strlit("/moderation/reports");
    reveal_strlit("/moderation/audit");
    reveal_strlit("/moderation/restricted");
    reveal_strlit("/hooks/{id}");
    reveal_strlit("/_mesh/demo/echo");
    reveal_strlit("/huddle/{channel_id}/audio");
}

proof fn media_marks(i: int)
    requires
        0 <= i < media_table().len(),
    ensures
        mark(media_table()[i]) == marks()[29 + i],
{
    reveal_strlit("/upload");
    reveal_strlit("/media/upload");
    reveal_strlit("/media/{sha256_ext}");
}

proof fn route_marks(i: int)
    requires
        0 <= i < (api_table() + media_table()).len(),
    ensures
        mark((api_table() + media_table())[i]) == marks()[i],
        (api_table() + media_table()).len() == marks().len(),
{
    let all = api_table() + media_table();
    if i < 11 {
        core_marks(i);
    } else if i < 17 {
        operator_marks(i - 11);
    } else if i < 23 {
        invite_marks(i - 17);
    } else if i < 29 {
        moderation_marks(i - 23);
    } else {
        media_marks(i - 29);
    }
}

/// No path is routed twice for one method.
pub proof fn routes_do_not_collide(i: int, j: int)
    requires
        0 <= i < j < (api_table() + media_table()).len(),
    ensures
        ({
            let all = api_table() + media_table();
            all[i].path != all[j].path || all[i].method != all[j].method
        }),
{
    route_marks(i);
    route_marks(j);
    marks_differ(i, j);
}

/// Whether an endpoint is one of the probes.
pub open spec fn is_probe(endpoint: Endpoint) -> bool {
    endpoint is Health || endpoint is Liveness || endpoint is Readiness || endpoint is Status
        || endpoint is MeshStatus
}

/// No probe is recorded, on either router.
pub proof fn probes_are_not_recorded(r: RouteSpec)
    requires
        api_table().contains(r) || health_table().contains(r),
        is_probe(r.endpoint),
    ensures
        action_of(Some(r.path)) is None,
{
    reveal_strlit("/_");
    reveal_strlit("/_liveness");
    reveal_strlit("/_readiness");
    reveal_strlit("/_status");
    reveal_strlit("/_mesh");
    if api_table().contains(r) {
        let i = choose|i: int| 0 <= i < api_table().len() && api_table()[i] == r;
        assert(i == 3 || i == 4 || i == 5);
    }
    if r.path != "/health"@ {
        assert(r.path.subrange(0, 2) =~= "/_"@);
    }
}

/// Each endpoint is reached by its own path and method, and by no other: these
/// are the routes, and there are no more of them.
pub proof fn endpoints_are_reached_by_their_paths(r: RouteSpec)
    ensures
        core_table().len() == 11,
        core_table().contains(r) <==> {
            ||| r.path == "/"@ && r.method is Get && r.endpoint is Root
            ||| r.path == "/info"@ && r.method is Get && r.endpoint is RelayInfo
            ||| r.path == "/.well-known/nostr.json"@ && r.method is Get && r.endpoint is Nip05
            ||| r.path == "/health"@ && r.method is Get && r.endpoint is Health
            ||| r.path == "/_liveness"@ && r.method is Get && r.endpoint is Liveness
            ||| r.path == "/_readiness"@ && r.method is Get && r.endpoint is Readiness
            ||| r.path == "/events"@ && r.method is Post && r.endpoint is SubmitEvent
            ||| r.path == "/query"@ && r.method is Post && r.endpoint is QueryEvents
            ||| r.path == "/count"@ && r.method is Post && r.endpoint is CountEvents
            ||| r.path == "/workflows/{workflow_id}/runs"@ && r.method is Get && r.endpoint is WorkflowRuns
            ||| r.path == "/workflows/{workflow_id}/runs/{run_id}/approvals"@ && r.method is Get && r.endpoint is RunApprovals
        },
        operator_table().len() == 6,
        operator_table().contains(r) <==> {
            ||| r.path == "/operator/communities"@ && r.method is Get && r.endpoint is ListOwnedCommunities
            ||| r.path == "/operator/communities"@ && r.method is Post && r.endpoint is ProvisionCommunity
            ||| r.path == "/operator/communities/archive"@ && r.method is Post && r.endpoint is ArchiveCommunity
            ||| r.path == "/operator/communities/unarchive"@ && r.method is Post && r.endpoint is UnarchiveCommunity
            ||| r.path == "/operator/communities/availability"@ && r.method is Get && r.endpoint is CommunityAvailability
            ||| r.path == "/operator/communities/transfer"@ && r.method is Post && r.endpoint is TransferCommunity
        },
        invite_table().len() == 6,
        invite_table().contains(r) <==> {
            ||| r.path == "/api/invites"@ && r.method is Post && r.endpoint is MintInvite
            ||| r.path == "/api/join-policy"@ && r.method is Get && r.endpoint is JoinPolicy
            ||| r.path == "/api/join-policy/terms"@ && r.method is Get && r.endpoint is JoinPolicyTerms
            ||| r.path == "/api/join-policy/privacy"@ && r.method is Get && r.endpoint is JoinPolicyPrivacy
            ||| r.path == "/api/invites/accept-policy"@ && r.method is Post && r.endpoint is AcceptPolicy
            ||| r.path == "/api/invites/claim"@ && r.method is Post && r.endpoint is ClaimInvite
        },
        moderation_table().len() == 6,
        moderation_table().contains(r) <==> {
            ||| r.path == "/moderation/reports"@ && r.method is Get && r.endpoint is ModerationReports
            ||| r.path == "/moderation/audit"@ && r.method is Get && r.endpoint is ModerationAudit
            ||| r.path == "/moderation/restricted"@ && r.method is Get && r.endpoint is ModerationRestricted
            ||| r.path == "/hooks/{id}"@ && r.method is Post && r.endpoint is WorkflowWebhook
            ||| r.path == "/_mesh/demo/echo"@ && r.method is Post && r.endpoint is MeshDemoEcho
            ||| r.path == "/huddle/{channel_id}/audio"@ && r.method is Get && r.endpoint is HuddleAudio
        },
        media_table().len() == 4,
        media_table().contains(r) <==> {
            ||| r.path == "/upload"@ && r.method is Put && r.endpoint is UploadBlob
            ||| r.path == "/media/upload"@ && r.method is Put && r.endpoint is UploadBlob
            ||| r.path == "/media/{sha256_ext}"@ && r.method is Get && r.endpoint is GetBlob
            ||| r.path == "/media/{sha256_ext}"@ && r.method is Head && r.endpoint is HeadBlob
        },
        health_table().len() == 4,
        health_table().contains(r) <==> {
            ||| r.path == "/_liveness"@ && r.method is Get && r.endpoint is Liveness
            ||| r.path == "/_readiness"@ && r.method is Get && r.endpoint is Readiness
            ||| r.path == "/_status"@ && r.method is Get && r.endpoint is Status
            ||| r.path == "/_mesh"@ && r.method is Get && r.endpoint is MeshStatus
        },
{
    core_routes_are(r);
    operator_routes_are(r);
    invite_routes_are(r);
    moderation_routes_are(r);
    media_routes_are(r);
    health_routes_are(r);
}

proof fn core_routes_are(r: RouteSpec)
    ensures
        core_table().len() == 11,
        core_table().contains(r) <==> {
            ||| r.path == "/"@ && r.method is Get && r.endpoint is Root
            ||| r.path == "/info"@ && r.method is Get && r.endpoint is RelayInfo
            ||| r.path == "/.well-known/nostr.json"@ && r.method is Get && r.endpoint is Nip05
            ||| r.path == "/health"@ && r.method is Get && r.endpoint is Health
            ||| r.path == "/_liveness"@ && r.method is Get && r.endpoint is Liveness
            ||| r.path == "/_readiness"@ && r.method is Get && r.endpoint is Readiness
            ||| r.path == "/events"@ && r.method is Post && r.endpoint is SubmitEvent
            ||| r.path == "/query"@ && r.method is Post && r.endpoint is QueryEvents
            ||| r.path == "/count"@ && r.method is Post && r.endpoint is CountEvents
            ||| r.path == "/workflows/{workflow_id}/runs"@ && r.method is Get && r.endpoint is WorkflowRuns
            ||| r.path == "/workflows/{workflow_id}/runs/{run_id}/approvals"@ && r.method is Get && r.endpoint is RunApprovals
        },
{
    let table = core_table();
    if r.path == "/"@ && r.method is Get && r.endpoint is Root {
        assert(table[0] == r);
    }
    if r.path == "/info"@ && r.method is Get && r.endpoint is RelayInfo {
        assert(table[1] == r);
    }
    if r.path == "/.well-known/nostr.json"@ && r.method is Get && r.endpoint is Nip05 {
        assert(table[2] == r);
    }
    if r.path == "/health"@ && r.method is Get && r.endpoint is Health {
        assert(table[3] == r);
    }
    if r.path == "/_liveness"@ && r.method is Get && r.endpoint is Liveness {
        assert(table[4] == r);
    }
    if r.path == "/_readiness"@ && r.method is Get && r.endpoint is Readiness {
        assert(table[5] == r);
    }
    if r.path == "/events"@ && r.method is Post && r.endpoint is SubmitEvent {
        assert(table[6] == r);
    }
    if r.path == "/query"@ && r.method is Post && r.endpoint is QueryEvents {
        assert(table[7] == r);
    }
    if r.path == "/count"@ && r.method is Post && r.endpoint is CountEvents {
        assert(table[8] == r);
    }
    if r.path == "/workflows/{workflow_id}/runs"@ && r.method is Get && r.endpoint is WorkflowRuns {
        assert(table[9] == r);
    }
    if r.path == "/workflows/{workflow_id}/runs/{run_id}/approvals"@ && r.method is Get && r.endpoint is RunApprovals {
        assert(table[10] == r);
    }
    if table.contains(r) {
        let i = choose|i: int| 0 <= i < table.len() && table[i] == r;
        assert(table[i] == r);
    }
}

proof fn operator_routes_are(r: RouteSpec)
    ensures
        operator_table().len() == 6,
        operator_table().contains(r) <==> {
            ||| r.path == "/operator/communities"@ && r.method is Get && r.endpoint is ListOwnedCommunities
            ||| r.path == "/operator/communities"@ && r.method is Post && r.endpoint is ProvisionCommunity
            ||| r.path == "/operator/communities/archive"@ && r.method is Post && r.endpoint is ArchiveCommunity
            ||| r.path == "/operator/communities/unarchive"@ && r.method is Post && r.endpoint is UnarchiveCommunity
            ||| r.path == "/operator/communities/availability"@ && r.method is Get && r.endpoint is CommunityAvailability
            ||| r.path == "/operator/communities/transfer"@ && r.method is Post && r.endpoint is TransferCommunity
        },
{
    let table = operator_table();
    if r.path == "/operator/communities"@ && r.method is Get && r.endpoint is ListOwnedCommunities {
        assert(table[0] == r);
    }
    if r.path == "/operator/communities"@ && r.method is Post && r.endpoint is ProvisionCommunity {
        assert(table[1] == r);
    }
    if r.path == "/operator/communities/archive"@ && r.method is Post && r.endpoint is ArchiveCommunity {
        assert(table[2] == r);
    }
    if r.path == "/operator/communities/unarchive"@ && r.method is Post && r.endpoint is UnarchiveCommunity {
        assert(table[3] == r);
    }
    if r.path == "/operator/communities/availability"@ && r.method is Get && r.endpoint is CommunityAvailability {
        assert(table[4] == r);
    }
    if r.path == "/operator/communities/transfer"@ && r.method is Post && r.endpoint is TransferCommunity {
        assert(table[5] == r);
    }
    if table.contains(r) {
        let i = choose|i: int| 0 <= i < table.len() && table[i] == r;
        assert(table[i] == r);
    }
}

proof fn invite_routes_are(r: RouteSpec)
    ensures
        invite_table().len() == 6,
        invite_table().contains(r) <==> {
            ||| r.path == "/api/invites"@ && r.method is Post && r.endpoint is MintInvite
            ||| r.path == "/api/join-policy"@ && r.method is Get && r.endpoint is JoinPolicy
            ||| r.path == "/api/join-policy/terms"@ && r.method is Get && r.endpoint is JoinPolicyTerms
            ||| r.path == "/api/join-policy/privacy"@ && r.method is Get && r.endpoint is JoinPolicyPrivacy
            ||| r.path == "/api/invites/accept-policy"@ && r.method is Post && r.endpoint is AcceptPolicy
            ||| r.path == "/api/invites/claim"@ && r.method is Post && r.endpoint is ClaimInvite
        },
{
    let table = invite_table();
    if r.path == "/api/invites"@ && r.method is Post && r.endpoint is MintInvite {
        assert(table[0] == r);
    }
    if r.path == "/api/join-policy"@ && r.method is Get && r.endpoint is JoinPolicy {
        assert(table[1] == r);
    }
    if r.path == "/api/join-policy/terms"@ && r.method is Get && r.endpoint is JoinPolicyTerms {
        assert(table[2] == r);
    }
    if r.path == "/api/join-policy/privacy"@ && r.method is Get && r.endpoint is JoinPolicyPrivacy {
        assert(table[3] == r);
    }
    if r.path == "/api/invites/accept-policy"@ && r.method is Post && r.endpoint is AcceptPolicy {
        assert(table[4] == r);
    }
    if r.path == "/api/invites/claim"@ && r.method is Post && r.endpoint is ClaimInvite {
        assert(table[5] == r);
    }
    if table.contains(r) {
        let i = choose|i: int| 0 <= i < table.len() && table[i] == r;
        assert(table[i] == r);
    }
}

proof fn moderation_routes_are(r: RouteSpec)
    ensures
        moderation_table().len() == 6,
        moderation_table().contains(r) <==> {
            ||| r.path == "/moderation/reports"@ && r.method is Get && r.endpoint is ModerationReports
            ||| r.path == "/moderation/audit"@ && r.method is Get && r.endpoint is ModerationAudit
            ||| r.path == "/moderation/restricted"@ && r.method is Get && r.endpoint is ModerationRestricted
            ||| r.path == "/hooks/{id}"@ && r.method is Post && r.endpoint is WorkflowWebhook
            ||| r.path == "/_mesh/demo/echo"@ && r.method is Post && r.endpoint is MeshDemoEcho
            ||| r.path == "/huddle/{channel_id}/audio"@ && r.method is Get && r.endpoint is HuddleAudio
        },
{
    let table = moderation_table();
    if r.path == "/moderation/reports"@ && r.method is Get && r.endpoint is ModerationReports {
        assert(table[0] == r);
    }
    if r.path == "/moderation/audit"@ && r.method is Get && r.endpoint is ModerationAudit {
        assert(table[1] == r);
    }
    if r.path == "/moderation/restricted"@ && r.method is Get && r.endpoint is ModerationRestricted {
        assert(table[2] == r);
    }
    if r.path == "/hooks/{id}"@ && r.method is Post && r.endpoint is WorkflowWebhook {
        assert(table[3] == r);
    }
    if r.path == "/_mesh/demo/echo"@ && r.method is Post && r.endpoint is MeshDemoEcho {
        assert(table[4] == r);
    }
    if r.path == "/huddle/{channel_id}/audio"@ && r.method is Get && r.endpoint is HuddleAudio {
        assert(table[5] == r);
    }
    if table.contains(r) {
        let i = choose|i: int| 0 <= i < table.len() && table[i] == r;
        assert(table[i] == r);
    }
}

proof fn media_routes_are(r: RouteSpec)
    ensures
        media_table().len() == 4,
        media_table().contains(r) <==> {
            ||| r.path == "/upload"@ && r.method is Put && r.endpoint is UploadBlob
            ||| r.path == "/media/upload"@ && r.method is Put && r.endpoint is UploadBlob
            ||| r.path == "/media/{sha256_ext}"@ && r.method is Get && r.endpoint is GetBlob
            ||| r.path == "/media/{sha256_ext}"@ && r.method is Head && r.endpoint is HeadBlob
        },
{
    let table = media_table();
    if r.path == "/upload"@ && r.method is Put && r.endpoint is UploadBlob {
        assert(table[0] == r);
    }
    if r.path == "/media/upload"@ && r.method is Put && r.endpoint is UploadBlob {
        assert(table[1] == r);
    }
    if r.path == "/media/{sha256_ext}"@ && r.method is Get && r.endpoint is GetBlob {
        assert(table[2] == r);
    }
    if r.path == "/media/{sha256_ext}"@ && r.method is Head && r.endpoint is HeadBlob {
        assert(table[3] == r);
    }
    if table.contains(r) {
        let i = choose|i: int| 0 <= i < table.len() && table[i] == r;
        assert(table[i] == r);
    }
}

proof fn health_routes_are(r: RouteSpec)
    ensures
        health_table().len() == 4,
        health_table().contains(r) <==> {
            ||| r.path == "/_liveness"@ && r.method is Get && r.endpoint is Liveness
            ||| r.path == "/_readiness"@ && r.method is Get && r.endpoint is Readiness
            ||| r.path == "/_status"@ && r.method is Get && r.endpoint is Status
            ||| r.path == "/_mesh"@ && r.method is Get && r.endpoint is MeshStatus
        },
{
    let table = health_table();
    if r.path == "/_liveness"@ && r.method is Get && r.endpoint is Liveness {
        assert(table[0] == r);
    }
    if r.path == "/_readiness"@ && r.method is Get && r.endpoint is Readiness {
        assert(table[1] == r);
    }
    if r.path == "/_status"@ && r.method is Get && r.endpoint is Status {
        assert(table[2] == r);
    }
    if r.path == "/_mesh"@ && r.method is Get && r.endpoint is MeshStatus {
        assert(table[3] == r);
    }
    if table.contains(r) {
        let i = choose|i: int| 0 <= i < table.len() && table[i] == r;
        assert(table[i] == r);
    }
}

} // verus!
