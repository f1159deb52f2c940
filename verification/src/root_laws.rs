//! What the relay answers to a request, in terms of the request itself.
use vstd::prelude::*;

use crate::header::is_header_value;
use crate::root::{accept_text, next_action, RootAction, RootEvent, RootRequest};
use crate::router::{
    admin_page, fallback_for, git_page, invite_page, is_policy_for, public_page, readiness_of,
    relay_limits, valid_origins, Checks, CorsPolicy, Readiness,
};
use crate::text::views;
use crate::text_laws::{a_prefix_is_followed_by_anything, a_text_is_held_with_anything_around};
use crate::upgrade_laws::a_value_is_text_byte_by_byte;

verus! {

/// Whether a text is that of a request's `Accept` header: its characters where
/// it is there and visible ASCII throughout, and otherwise nothing.
pub open spec fn is_accept_text(req: RootRequest, accept: Seq<char>) -> bool {
    if req.accept is Some && forall|i: int|
        0 <= i < req.accept->0@.len() ==> 32 <= (#[trigger] req.accept->0@[i]) <= 126
            || req.accept->0@[i] == 9 {
        accept.len() == req.accept->0@.len() && forall|i: int|
            0 <= i < accept.len() ==> (#[trigger] accept[i]) as int == req.accept->0@[i] as int
    } else {
        accept.len() == 0
    }
}

proof fn accept_is_read(req: RootRequest, accept: Seq<char>)
    requires
        is_accept_text(req, accept),
    ensures
        accept_text(req) == accept,
{
    if req.accept is Some {
        let bytes = req.accept->0@;
        a_value_is_text_byte_by_byte(bytes);
        if forall|i: int|
            0 <= i < bytes.len() ==> 32 <= (#[trigger] bytes[i]) <= 126 || bytes[i] == 9 {
            let text = accept_text(req);
            assert forall|i: int| 0 <= i < bytes.len() implies text[i] == accept[i] by {
                assert(text[i] as int == bytes[i] as int);
            }
            assert(text =~= accept);
        }
    }
    assert(accept_text(req) =~= accept);
}

/// What the root does on each event. The admin host gets its page for a browser
/// and nothing else. Elsewhere a client that names the description's type gets
/// it, and any other is bound to its community. An upgrade that is possible is
/// made with the relay's limits, unless the relay shuts down. What is no upgrade
/// gets the Git page exactly if that is served, is there, and "text/html" stands
/// anywhere in what the client accepts; and else the description.
pub proof fn the_root_answers_by_what_is_accepted(req: RootRequest, accept: Seq<char>)
    requires
        is_accept_text(req, accept),
    ensures
        ({
            let html = exists|a: Seq<char>, b: Seq<char>| accept == #[trigger] (a + "text/html"@ + b);
            let nostr = exists|a: Seq<char>, b: Seq<char>|
                accept == #[trigger] (a + "application/nostr+json"@ + b);
            let arrived = next_action(req, RootEvent::Arrived);
            &&& req.admin_host && html && req.admin_bundle ==> arrived is AdminIndex
            &&& req.admin_host && !(html && req.admin_bundle) ==> arrived is NotFound
            &&& !req.admin_host && nostr ==> arrived is Nip11
            &&& !req.admin_host && !nostr ==> arrived is BindTenant
            &&& next_action(req, RootEvent::Tenant { bound: true }) is TryUpgrade
            &&& next_action(req, RootEvent::Tenant { bound: false }) is NoCommunity
            &&& next_action(
                req,
                RootEvent::Upgrade { possible: true, shutting_down: true },
            ) is Restarting
            &&& next_action(
                req,
                RootEvent::Upgrade { possible: true, shutting_down: false },
            ) matches RootAction::Accept(limits) && limits.max_message_size == req.max_frame_bytes
                && limits.max_frame_size == req.max_frame_bytes && limits.compression
                == req.permessage_deflate_enabled
            &&& forall|shutting_down: bool|
                req.serve_git_web_gui && req.web_bundle && html ==> #[trigger] next_action(
                    req,
                    RootEvent::Upgrade { possible: false, shutting_down },
                ) is ReadWebIndex
            &&& forall|shutting_down: bool|
                !(req.serve_git_web_gui && req.web_bundle && html) ==> #[trigger] next_action(
                    req,
                    RootEvent::Upgrade { possible: false, shutting_down },
                ) is Nip11
            &&& next_action(req, RootEvent::Index { read: true }) is WebIndex
            &&& next_action(req, RootEvent::Index { read: false }) is Nip11
        }),
{
    accept_is_read(req, accept);
    a_text_is_held_with_anything_around(accept, "text/html"@);
    a_text_is_held_with_anything_around(accept, "application/nostr+json"@);
}

/// What stands around "text/html" in the `Accept` header changes nothing: two
/// requests that both accept it, and differ in no other part that is read, are
/// answered alike once they are no upgrade.
pub proof fn what_stands_around_html_is_ignored(
    a: RootRequest,
    b: RootRequest,
    before_a: Seq<char>,
    behind_a: Seq<char>,
    before_b: Seq<char>,
    behind_b: Seq<char>,
    shutting_down: bool,
)
    requires
        is_accept_text(a, before_a + "text/html"@ + behind_a),
        is_accept_text(b, before_b + "text/html"@ + behind_b),
        a.serve_git_web_gui == b.serve_git_web_gui,
        a.web_bundle == b.web_bundle,
    ensures
        next_action(a, RootEvent::Upgrade { possible: false, shutting_down }) == next_action(
            b,
            RootEvent::Upgrade { possible: false, shutting_down },
        ),
        a.serve_git_web_gui && a.web_bundle ==> next_action(
            a,
            RootEvent::Upgrade { possible: false, shutting_down },
        ) is ReadWebIndex,
{
    the_root_answers_by_what_is_accepted(a, before_a + "text/html"@ + behind_a);
    the_root_answers_by_what_is_accepted(b, before_b + "text/html"@ + behind_b);
}

/// The pages, by what their paths are made of. A page with a slash behind it
/// stands for everything below it; an invite has one segment behind it, which
/// is not empty.
pub proof fn pages_are_known_by_their_paths(path: Seq<char>, serve_git_web_gui: bool)
    ensures
        admin_page(path) <==> {
            ||| path == "/"@
            ||| path == "/reports"@
            ||| path == "/feedback"@
            ||| exists|below: Seq<char>| path == #[trigger] ("/reports/"@ + below)
            ||| exists|below: Seq<char>| path == #[trigger] ("/feedback/"@ + below)
        },
        git_page(path) <==> {
            ||| path == "/"@
            ||| path == "/repos"@
            ||| exists|below: Seq<char>| path == #[trigger] ("/repos/"@ + below)
        },
        invite_page(path) <==> exists|code: Seq<char>|
            path == #[trigger] ("/invite/"@ + code) && code.len() > 0 && forall|i: int|
                0 <= i < code.len() ==> code[i] != '/',
        public_page(path, serve_git_web_gui) <==> {
            ||| exists|code: Seq<char>|
                path == #[trigger] ("/invite/"@ + code) && code.len() > 0 && forall|i: int|
                    0 <= i < code.len() ==> code[i] != '/'
            ||| serve_git_web_gui && (path == "/"@ || path == "/repos"@ || exists|below: Seq<char>|
                path == #[trigger] ("/repos/"@ + below))
        },
{
    a_prefix_is_followed_by_anything(path, "/reports/"@);
    a_prefix_is_followed_by_anything(path, "/feedback/"@);
    a_prefix_is_followed_by_anything(path, "/repos/"@);
    a_prefix_is_followed_by_anything(path, "/invite/"@);
    let n = "/invite/"@.len() as int;
    if invite_page(path) {
        let code = path.skip(n);
        assert(path =~= "/invite/"@ + code);
        assert forall|i: int| 0 <= i < code.len() implies code[i] != '/' by {
            if code[i] == '/' {
                assert(code.contains('/'));
            }
        }
    }
    if exists|code: Seq<char>|
        path == #[trigger] ("/invite/"@ + code) && code.len() > 0 && forall|i: int|
            0 <= i < code.len() ==> code[i] != '/' {
        let code = choose|code: Seq<char>|
            path == #[trigger] ("/invite/"@ + code) && code.len() > 0 && forall|i: int|
                0 <= i < code.len() ==> code[i] != '/';
        assert(path.skip(n) =~= code);
    }
}

/// What answers a request that no route matches. On each host its own bundle
/// does, where that is there: its files below `/assets/`, and its index page for
/// its pages. Everything else is not found.
pub proof fn the_fallback_serves_the_host_its_own_bundle(
    path: Seq<char>,
    admin_host: bool,
    admin_bundle: bool,
    web_bundle: bool,
    serve_git_web_gui: bool,
)
    ensures
        ({
            let f = fallback_for(path, admin_host, admin_bundle, web_bundle, serve_git_web_gui);
            let asset = exists|below: Seq<char>| path == #[trigger] ("/assets/"@ + below);
            &&& f is AdminAsset <==> admin_host && admin_bundle && asset
            &&& f is WebAsset <==> !admin_host && web_bundle && asset
            &&& f is AdminIndex <==> admin_host && admin_bundle && !asset && admin_page(path)
            &&& f is WebIndex <==> !admin_host && web_bundle && !asset && public_page(
                path,
                serve_git_web_gui,
            )
            &&& f is NotFound <==> !(f is AdminAsset) && !(f is WebAsset) && !(f is AdminIndex)
                && !(f is WebIndex)
        }),
{
    a_prefix_is_followed_by_anything(path, "/assets/"@);
}

/// A socket takes messages and frames up to the configured size, and compresses
/// exactly if that is enabled.
pub proof fn sockets_are_limited_as_configured(max_frame_bytes: usize, enabled: bool)
    ensures
        relay_limits(max_frame_bytes, enabled).max_message_size == max_frame_bytes,
        relay_limits(max_frame_bytes, enabled).max_frame_size == max_frame_bytes,
        relay_limits(max_frame_bytes, enabled).compression == enabled,
{
}

/// The origins that may call are those of the list that may stand in a header,
/// in their order, each as often as it is there.
pub proof fn valid_origins_keep_their_order(policy: CorsPolicy, origins: Seq<Seq<char>>)
    requires
        is_policy_for(policy, origins),
    ensures
        valid_origins(origins) == origins.filter(|o: Seq<char>| is_header_value(o)),
        policy is Permissive <==> origins.len() == 0,
        policy is Closed <==> origins.len() > 0 && forall|i: int|
            0 <= i < origins.len() ==> !is_header_value(#[trigger] origins[i]),
        policy is List <==> exists|i: int|
            0 <= i < origins.len() && is_header_value(#[trigger] origins[i]),
        policy matches CorsPolicy::List(list) ==> list@.len() == origins.filter(
            |o: Seq<char>| is_header_value(o),
        ).len() && forall|i: int|
            0 <= i < list@.len() ==> (#[trigger] list@[i])@ == origins.filter(
                |o: Seq<char>| is_header_value(o),
            )[i],
{
    valid_origins_are_filtered(origins);
    some_valid_origin(origins);
    if let CorsPolicy::List(list) = policy {
        assert forall|i: int| 0 <= i < list@.len() implies (#[trigger] list@[i])@
            == valid_origins(origins)[i] by {
            assert(views(list@)[i] == list@[i]@);
        }
        assert(views(list@).len() == list@.len());
    }
}

proof fn valid_origins_are_filtered(origins: Seq<Seq<char>>)
    ensures
        valid_origins(origins) == origins.filter(|o: Seq<char>| is_header_value(o)),
    decreases origins.len(),
{
    reveal(Seq::filter);
    if origins.len() > 0 {
        valid_origins_are_filtered(origins.drop_last());
    }
}

proof fn some_valid_origin(origins: Seq<Seq<char>>)
    ensures
        valid_origins(origins).len() > 0 <==> exists|i: int|
            0 <= i < origins.len() && is_header_value(#[trigger] origins[i]),
    decreases origins.len(),
{
    if origins.len() > 0 {
        let front = origins.drop_last();
        some_valid_origin(front);
        assert(forall|i: int| 0 <= i < front.len() ==> front[i] == #[trigger] origins[i]);
        if is_header_value(origins.last()) {
            assert(is_header_value(origins[origins.len() - 1]));
        } else if valid_origins(front).len() > 0 {
            let i = choose|i: int| 0 <= i < front.len() && is_header_value(#[trigger] front[i]);
            assert(is_header_value(origins[i]));
        } else {
            assert forall|i: int| 0 <= i < origins.len() implies !is_header_value(
                #[trigger] origins[i],
            ) by {
                if i < front.len() {
                    assert(!is_header_value(front[i]));
                }
            }
        }
    }
}

/// The relay is ready exactly if it does not shut down and every store answered
/// well in time. One that is not says which did not, and none where they were
/// late.
pub proof fn readiness_needs_every_store(shutting_down: bool, checks: Option<Checks>)
    ensures
        readiness_of(shutting_down, checks) is ShuttingDown <==> shutting_down,
        readiness_of(shutting_down, checks) is Ready <==> !shutting_down && checks is Some
            && checks->0.postgres && checks->0.redis && checks->0.deletion_catalog,
        readiness_of(shutting_down, checks) matches Readiness::NotReady(c) ==> {
            &&& checks is Some ==> c == checks->0
            &&& checks is None ==> !c.postgres && !c.redis && !c.deletion_catalog
        },
{
}

} // verus!
