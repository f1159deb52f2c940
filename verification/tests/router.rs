//! Pages, origins, limits, readiness and the root.
use buzz_relay::config::{AdminConfig, Config, MediaConfig};
use buzz_relay::metrics::track_metrics;
use buzz_relay::root::{nip11_or_ws_handler, RootAction, RootEvent, RootRequest};
use buzz_relay::router::{
    build_cors_layer, is_admin_spa_path, is_git_web_gui_path, is_invite_landing_path,
    limit_relay_websocket, readiness, should_serve_spa, spa_fallback, Checks, CorsPolicy, Fallback,
    Readiness,
};
use buzz_relay::routes::{build_health_router, build_router, Endpoint, Method};

#[test]
fn invite_landing_path_requires_exactly_one_nonempty_code_segment() {
    assert!(is_invite_landing_path("/invite/payload.mac"));
    assert!(!is_invite_landing_path("/invite/"));
    assert!(!is_invite_landing_path("/invite/code/extra"));
    assert!(!is_invite_landing_path("/repos"));
    assert!(!is_invite_landing_path("/"));
}

#[test]
fn git_web_gui_paths_are_explicit() {
    assert!(is_git_web_gui_path("/"));
    assert!(is_git_web_gui_path("/repos"));
    assert!(is_git_web_gui_path("/repos/example"));
    assert!(!is_git_web_gui_path("/repository"));
    assert!(!is_git_web_gui_path("/arbitrary"));
    assert!(!is_git_web_gui_path("/api/invites"));
}

#[test]
fn invite_is_always_served_but_git_gui_requires_opt_in() {
    assert!(should_serve_spa("/invite/payload.mac", false));
    assert!(should_serve_spa("/invite/payload.mac", true));
    assert!(!should_serve_spa("/", false));
    assert!(!should_serve_spa("/repos/example", false));
    assert!(should_serve_spa("/", true));
    assert!(should_serve_spa("/repos/example", true));
    assert!(!should_serve_spa("/arbitrary", true));
}

#[test]
fn admin_pages_are_explicit() {
    for page in ["/", "/reports", "/reports/7", "/feedback", "/feedback/"] {
        assert!(is_admin_spa_path(page), "{page}");
    }
    for other in ["", "/report", "/reportsx", "/feedbacks", "/repos", "/invite/x"] {
        assert!(!is_admin_spa_path(other), "{other}");
    }
}

#[test]
fn the_fallback_keeps_the_bundles_apart() {
    assert_eq!(spa_fallback("/assets/a.js", true, true, true, true), Fallback::AdminAsset);
    assert_eq!(spa_fallback("/reports", true, true, true, true), Fallback::AdminIndex);
    assert_eq!(spa_fallback("/repos", true, true, true, true), Fallback::NotFound);
    assert_eq!(spa_fallback("/assets/a.js", true, false, true, true), Fallback::NotFound);
    assert_eq!(spa_fallback("/invite/x", true, false, true, true), Fallback::NotFound);
    assert_eq!(spa_fallback("/assets/a.js", false, true, true, false), Fallback::WebAsset);
    assert_eq!(spa_fallback("/invite/x", false, true, true, false), Fallback::WebIndex);
    assert_eq!(spa_fallback("/repos", false, true, true, false), Fallback::NotFound);
    assert_eq!(spa_fallback("/repos", false, true, true, true), Fallback::WebIndex);
    assert_eq!(spa_fallback("/invite/x", false, true, false, true), Fallback::NotFound);
    assert_eq!(spa_fallback("/assets", false, true, true, true), Fallback::NotFound);
}

#[test]
fn both_limits_are_the_frame_limit_and_compression_is_gated() {
    let on = limit_relay_websocket(64, true);
    assert_eq!((on.max_message_size, on.max_frame_size, on.compression), (64, 64, true));
    let off = limit_relay_websocket(1 << 20, false);
    assert_eq!(off.max_message_size, 1 << 20);
    assert_eq!(off.max_frame_size, 1 << 20);
    assert!(!off.compression);
}

fn texts(list: &[&str]) -> Vec<String> {
    list.iter().map(|s| s.to_string()).collect()
}

#[test]
fn configured_origins_never_open_the_relay() {
    assert!(matches!(build_cors_layer(&Vec::new()), CorsPolicy::Permissive));
    assert!(matches!(
        build_cors_layer(&texts(&["bad\norigin", "\u{7f}"])),
        CorsPolicy::Closed
    ));
    match build_cors_layer(&texts(&["https://a.example", "bad\r", "https://b.example"])) {
        CorsPolicy::List(list) => {
            assert_eq!(list, texts(&["https://a.example", "https://b.example"]));
        }
        other => panic!("{other:?}"),
    }
}

#[test]
fn readiness_needs_every_store_in_time() {
    let all = Checks { postgres: true, redis: true, deletion_catalog: true };
    assert_eq!(readiness(true, Some(all)), Readiness::ShuttingDown);
    assert_eq!(readiness(false, Some(all)), Readiness::Ready);
    for checks in [
        Checks { postgres: false, ..all },
        Checks { redis: false, ..all },
        Checks { deletion_catalog: false, ..all },
    ] {
        assert_eq!(readiness(false, Some(checks)), Readiness::NotReady(checks));
    }
    let late = readiness(false, None);
    let none = Checks { postgres: false, redis: false, deletion_catalog: false };
    assert_eq!(late, Readiness::NotReady(none));
    assert_eq!((late.status_code(), late.status()), (503, "not_ready"));
    assert_eq!(Readiness::Ready.status_code(), 200);
    assert_eq!(Readiness::Ready.status(), "ready");
    assert_eq!(Readiness::ShuttingDown.status_code(), 503);
    assert_eq!(Readiness::ShuttingDown.status(), "shutting_down");
}

fn at_root(accept: Option<&str>) -> RootRequest {
    RootRequest {
        admin_host: false,
        admin_bundle: true,
        accept: accept.map(|a| a.as_bytes().to_vec()),
        serve_git_web_gui: true,
        web_bundle: true,
        max_frame_bytes: 64,
        permessage_deflate_enabled: true,
    }
}

fn step(req: &RootRequest, event: RootEvent) -> RootAction {
    nip11_or_ws_handler(req, event)
}

#[test]
fn the_admin_host_gets_its_page_or_nothing() {
    let mut req = at_root(Some("text/html, application/nostr+json"));
    req.admin_host = true;
    assert_eq!(step(&req, RootEvent::Arrived), RootAction::AdminIndex);
    req.admin_bundle = false;
    assert_eq!(step(&req, RootEvent::Arrived), RootAction::NotFound);
    let mut req = at_root(Some("application/nostr+json"));
    req.admin_host = true;
    assert_eq!(step(&req, RootEvent::Arrived), RootAction::NotFound);
}

#[test]
fn the_description_comes_before_the_tenant() {
    let req = at_root(Some("application/nostr+json"));
    assert_eq!(step(&req, RootEvent::Arrived), RootAction::Nip11);
    for accept in [None, Some(""), Some("*/*"), Some("text/html")] {
        assert_eq!(step(&at_root(accept), RootEvent::Arrived), RootAction::BindTenant);
    }
}

#[test]
fn a_socket_opens_behind_a_bound_tenant() {
    let req = at_root(None);
    assert_eq!(step(&req, RootEvent::Tenant { bound: false }), RootAction::NoCommunity);
    assert_eq!(step(&req, RootEvent::Tenant { bound: true }), RootAction::TryUpgrade);
    let going = RootEvent::Upgrade { possible: true, shutting_down: true };
    assert_eq!(step(&req, going), RootAction::Restarting);
    let open = RootEvent::Upgrade { possible: true, shutting_down: false };
    assert_eq!(step(&req, open), RootAction::Accept(limit_relay_websocket(64, true)));
    let mut gated = at_root(None);
    gated.permessage_deflate_enabled = false;
    assert_eq!(step(&gated, open), RootAction::Accept(limit_relay_websocket(64, false)));
}

#[test]
fn refusals_have_their_status_and_words() {
    let refusal = |action: RootAction| (action.status_code(), action.words());
    assert_eq!(
        refusal(RootAction::NoCommunity),
        (Some(404), "relay: no community is configured for this host")
    );
    assert_eq!(refusal(RootAction::Restarting), (Some(503), "relay restarting"));
    assert_eq!(refusal(RootAction::NotFound), (Some(404), ""));
    for other in [RootAction::Nip11, RootAction::BindTenant, RootAction::WebIndex] {
        assert_eq!(refusal(other), (None, ""));
    }
}

#[test]
fn what_is_no_upgrade_gets_the_page_or_the_description() {
    for shutting_down in [false, true] {
        let plain = RootEvent::Upgrade { possible: false, shutting_down };
        assert_eq!(step(&at_root(Some("text/html")), plain), RootAction::ReadWebIndex);
        assert_eq!(step(&at_root(Some("*/*")), plain), RootAction::Nip11);
        let mut req = at_root(Some("text/html"));
        req.serve_git_web_gui = false;
        assert_eq!(step(&req, plain), RootAction::Nip11);
        let mut req = at_root(Some("text/html"));
        req.web_bundle = false;
        assert_eq!(step(&req, plain), RootAction::Nip11);
    }
    let req = at_root(Some("text/html"));
    assert_eq!(step(&req, RootEvent::Index { read: true }), RootAction::WebIndex);
    assert_eq!(step(&req, RootEvent::Index { read: false }), RootAction::Nip11);
}

fn config() -> Config {
    Config {
        audit_enabled: true,
        permessage_deflate_enabled: false,
        max_frame_bytes: 64,
        serve_git_web_gui: true,
        web_dir: None,
        admin: None,
        cors_origins: Vec::new(),
        media: MediaConfig { max_image_bytes: 50, max_video_bytes: 500 },
    }
}

#[test]
fn the_router_is_planned_from_the_configuration() {
    let plan = build_router(&config());
    assert_eq!(plan.api_body_limit, 1024 * 1024);
    assert_eq!(plan.media_body_limit, 500);
    assert!(!plan.admin_enabled);
    assert!(!plan.serves_bundles);
    assert!(plan.serve_git_web_gui);
    assert!(matches!(plan.cors, CorsPolicy::Permissive));
    assert_eq!(plan.api.len(), 29);
    assert_eq!(plan.media.len(), 4);

    let mut with_admin = config();
    with_admin.media.max_image_bytes = 900;
    with_admin.admin = Some(AdminConfig { web_dir: Some("/srv/admin".to_owned()) });
    let plan = build_router(&with_admin);
    assert_eq!(plan.media_body_limit, 900);
    assert!(plan.admin_enabled);
    assert!(plan.serves_bundles);
    assert_eq!(plan.admin_web_dir.as_deref(), Some("/srv/admin"));
    assert_eq!(plan.web_dir, None);

    let mut bare_admin = config();
    bare_admin.admin = Some(AdminConfig { web_dir: None });
    let plan = build_router(&bare_admin);
    assert!(plan.admin_enabled);
    assert!(!plan.serves_bundles);

    let mut web = config();
    web.web_dir = Some("/srv/web".to_owned());
    let plan = build_router(&web);
    assert!(plan.serves_bundles);
    assert_eq!(plan.web_dir.as_deref(), Some("/srv/web"));
}

#[test]
fn routes_lead_where_they_should() {
    let plan = build_router(&config());
    let find = |path: &str, method: Method| {
        plan.api
            .iter()
            .chain(plan.media.iter())
            .filter(|r| r.path == path && r.method == method)
            .map(|r| r.endpoint)
            .collect::<Vec<_>>()
    };
    assert_eq!(find("/", Method::Get), vec![Endpoint::Root]);
    assert_eq!(find("/events", Method::Post), vec![Endpoint::SubmitEvent]);
    assert_eq!(find("/events", Method::Get), vec![]);
    assert_eq!(find("/operator/communities", Method::Get), vec![Endpoint::ListOwnedCommunities]);
    assert_eq!(find("/operator/communities", Method::Post), vec![Endpoint::ProvisionCommunity]);
    assert_eq!(find("/media/{sha256_ext}", Method::Head), vec![Endpoint::HeadBlob]);
    assert_eq!(find("/media/upload", Method::Put), vec![Endpoint::UploadBlob]);
    assert_eq!(find("/huddle/{channel_id}/audio", Method::Get), vec![Endpoint::HuddleAudio]);
    for route in plan.api.iter().chain(plan.media.iter()) {
        assert_eq!(find(&route.path, route.method).len(), 1, "{}", route.path);
    }
}

/// The routing table of the HTTP stack takes every route.
#[test]
fn the_routes_can_be_installed() {
    let plan = build_router(&config());
    let mut router: axum::Router = axum::Router::new();
    for route in plan.api.iter().chain(plan.media.iter()) {
        let filter = match route.method {
            Method::Get => axum::routing::MethodFilter::GET,
            Method::Head => axum::routing::MethodFilter::HEAD,
            Method::Post => axum::routing::MethodFilter::POST,
            Method::Put => axum::routing::MethodFilter::PUT,
        };
        router = router.route(&route.path, axum::routing::on(filter, || async { "" }));
    }
    assert!(router.has_routes());
}

#[test]
fn the_health_router_holds_the_probes() {
    let routes = build_health_router();
    let list: Vec<(&str, Method, Endpoint)> = routes
        .iter()
        .map(|r| (r.path.as_str(), r.method, r.endpoint))
        .collect();
    assert_eq!(
        list,
        vec![
            ("/_liveness", Method::Get, Endpoint::Liveness),
            ("/_readiness", Method::Get, Endpoint::Readiness),
            ("/_status", Method::Get, Endpoint::Status),
            ("/_mesh", Method::Get, Endpoint::MeshStatus),
        ]
    );
}

#[test]
fn no_probe_is_recorded() {
    let plan = build_router(&config());
    let health = build_health_router();
    let mut probes = 0;
    for route in plan.api.iter().chain(health.iter()) {
        let recorded = track_metrics(Some(route.path.as_str()), &None).is_some();
        match route.endpoint {
            Endpoint::Health
            | Endpoint::Liveness
            | Endpoint::Readiness
            | Endpoint::Status
            | Endpoint::MeshStatus => {
                probes += 1;
                assert!(!recorded, "{}", route.path);
            }
            Endpoint::MeshDemoEcho => assert!(!recorded),
            _ => assert!(recorded, "{}", route.path),
        }
    }
    assert_eq!(probes, 7);
}
