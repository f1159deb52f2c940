//! Negotiation of `permessage-deflate`.
use buzz_relay::deflate::{DeflateConfig, Role, UnsupportedWindow};
use buzz_relay::offer::parse_offers;
use buzz_relay::ws_deflate::{negotiate, socket_config, Negotiated};

fn accepted(header: &str) -> String {
    negotiate(Some(header))
        .expect("offer should be accepted")
        .response_value
}

#[test]
fn no_header_declines() {
    assert!(negotiate(None).is_none());
}

#[test]
fn bare_offer_is_accepted_bare() {
    assert_eq!(accepted("permessage-deflate"), "permessage-deflate");
}

#[test]
fn what_browsers_send_is_accepted() {
    // Chrome and Firefox both offer the valueless form.
    assert_eq!(
        accepted("permessage-deflate; client_max_window_bits"),
        "permessage-deflate"
    );
}

#[test]
fn client_max_window_bits_is_not_echoed_because_it_is_not_honoured() {
    // Echoing a value that is not configured is the failure this guards.
    assert_eq!(
        accepted("permessage-deflate; client_max_window_bits=10"),
        "permessage-deflate"
    );
}

#[test]
fn takeover_flags_are_honoured_and_echoed_together() {
    let n = negotiate(Some(
        "permessage-deflate; server_no_context_takeover; client_no_context_takeover",
    ))
    .expect("both flags are settable");
    assert!(n.deflate.server_no_context_takeover);
    assert!(n.deflate.client_no_context_takeover);
    assert_eq!(
        n.response_value,
        "permessage-deflate; server_no_context_takeover; client_no_context_takeover"
    );
}

#[test]
fn each_takeover_flag_is_echoed_only_when_offered() {
    let n = negotiate(Some("permessage-deflate; server_no_context_takeover")).expect("settable");
    assert!(n.deflate.server_no_context_takeover);
    assert!(!n.deflate.client_no_context_takeover);
    assert_eq!(
        n.response_value,
        "permessage-deflate; server_no_context_takeover"
    );
}

#[test]
fn a_supported_server_window_is_honoured_and_echoed() {
    // The clients that send this are the memory-constrained ones the feature
    // exists for; declining would leave them uncompressed.
    let n = negotiate(Some("permessage-deflate; server_max_window_bits=10"))
        .expect("10 is inside the supported range");
    assert_eq!(
        n.response_value,
        "permessage-deflate; server_max_window_bits=10"
    );
    assert_eq!(n.deflate.server_max_window_bits().get(), 10);
}

#[test]
fn every_supported_server_window_is_honoured() {
    // 9..=15 is what can be deflated with; the setter is the authority.
    for bits in 9..=15u8 {
        let offer = format!("permessage-deflate; server_max_window_bits={bits}");
        let n = negotiate(Some(&offer)).unwrap_or_else(|| panic!("{bits} should be honoured"));
        assert_eq!(n.deflate.server_max_window_bits().get(), bits);
    }
}

#[test]
fn a_window_we_cannot_compress_with_declines() {
    // RFC 7692 allows 8, which is too narrow to deflate with, so answering
    // without the parameter would compress into a window it cannot read.
    assert!(negotiate(Some("permessage-deflate; server_max_window_bits=8")).is_none());
    assert!(negotiate(Some("permessage-deflate; server_max_window_bits=16")).is_none());
    assert!(negotiate(Some("permessage-deflate; server_max_window_bits=abc")).is_none());
}

#[test]
fn a_valueless_server_window_declines() {
    // RFC 7692 section 7.1.2.1 requires a value for this parameter.
    assert!(negotiate(Some("permessage-deflate; server_max_window_bits")).is_none());
}

#[test]
fn unknown_parameter_declines() {
    assert!(negotiate(Some("permessage-deflate; x-not-a-parameter")).is_none());
}

#[test]
fn a_takeover_flag_with_a_value_declines() {
    // RFC 7692 gives these no value; one that has a value is malformed.
    assert!(negotiate(Some("permessage-deflate; server_no_context_takeover=1")).is_none());
}

#[test]
fn other_extensions_are_skipped_not_fatal() {
    assert_eq!(
        accepted("x-other-extension, permessage-deflate"),
        "permessage-deflate"
    );
}

#[test]
fn an_unacceptable_deflate_offer_does_not_shadow_an_acceptable_one() {
    // Chrome sends one offer, but the RFC allows several and the first may be
    // the one that is declined.
    assert_eq!(
        accepted("permessage-deflate; server_max_window_bits=8, permessage-deflate"),
        "permessage-deflate"
    );
}

#[test]
fn no_deflate_offer_declines() {
    assert!(negotiate(Some("x-other-extension")).is_none());
}

#[test]
fn name_and_parameters_are_case_insensitive() {
    let n = negotiate(Some("PerMessage-Deflate; Server_No_Context_Takeover"))
        .expect("names are ASCII case-insensitive");
    assert!(n.deflate.server_no_context_takeover);
}

#[test]
fn quoted_parameter_values_are_unwrapped() {
    // A legal quoted form must not read as an unknown parameter.
    assert_eq!(
        accepted("permessage-deflate; client_max_window_bits=\"10\""),
        "permessage-deflate"
    );
}

#[test]
fn socket_config_carries_the_negotiated_deflate() {
    let n = negotiate(Some("permessage-deflate; client_no_context_takeover")).unwrap();
    let config = socket_config(64 * 1024, n.deflate);
    let deflate = config
        .extensions
        .permessage_deflate
        .expect("deflate is configured");
    assert!(deflate.client_no_context_takeover);
    assert_eq!(config.max_frame_size, Some(64 * 1024));
}

#[test]
fn the_message_limit_is_the_frame_limit() {
    let config = socket_config(7, DeflateConfig::default());
    assert_eq!(config.max_message_size, Some(7));
    assert_eq!(config.max_frame_size, Some(7));
    assert_eq!(
        config.extensions.permessage_deflate,
        Some(DeflateConfig::default())
    );
}

#[test]
fn the_offered_order_is_the_echoed_order() {
    assert_eq!(
        accepted("permessage-deflate;client_no_context_takeover ;server_max_window_bits = \"12\";server_no_context_takeover"),
        "permessage-deflate; client_no_context_takeover; server_max_window_bits=12; server_no_context_takeover"
    );
}

#[test]
fn a_window_is_read_as_a_number_and_written_back_plainly() {
    assert_eq!(
        accepted("permessage-deflate; server_max_window_bits=+09"),
        "permessage-deflate; server_max_window_bits=9"
    );
    for bad in ["", "+", "-9", "9 9", "256", "265", "9.0", "0x9"] {
        let offer = format!("permessage-deflate; server_max_window_bits={bad}");
        assert!(negotiate(Some(&offer)).is_none(), "{bad:?}");
    }
}

#[test]
fn different_windows_decline() {
    // A response that named both would name a window that is not kept to.
    for offer in [
        "permessage-deflate; server_max_window_bits=10; server_max_window_bits=15",
        "permessage-deflate; server_max_window_bits=15; server_max_window_bits=10",
        "permessage-deflate; server_max_window_bits=9; server_max_window_bits=9; server_max_window_bits=8",
    ] {
        assert!(negotiate(Some(offer)).is_none(), "{offer}");
        assert_eq!(accepted(&format!("{offer}, permessage-deflate")), "permessage-deflate");
    }
}

#[test]
fn the_same_window_may_be_repeated() {
    let n = negotiate(Some(
        "permessage-deflate; server_max_window_bits=10; Server_Max_Window_Bits=\"010\"",
    ))
    .expect("both ask for the same");
    assert_eq!(n.deflate.server_max_window_bits().get(), 10);
    assert_eq!(
        n.response_value,
        "permessage-deflate; server_max_window_bits=10; server_max_window_bits=10"
    );
    let widest = "permessage-deflate; server_max_window_bits=15; server_max_window_bits=15";
    assert_eq!(accepted(widest), widest);
    // The client's own window is not configured, however often it is offered.
    assert_eq!(
        accepted("permessage-deflate; client_max_window_bits=9; client_max_window_bits"),
        "permessage-deflate"
    );
}

#[test]
fn a_response_is_answered_with_itself() {
    for header in [
        "permessage-deflate",
        "x, PERMESSAGE-DEFLATE ; Server_Max_Window_Bits=\"13\" ; client_max_window_bits",
        "permessage-deflate; server_no_context_takeover; client_no_context_takeover",
    ] {
        let first = negotiate(Some(header)).unwrap();
        let again = negotiate(Some(first.response_value.as_str())).unwrap();
        assert_eq!(again.response_value, first.response_value);
        assert_eq!(again.deflate, first.deflate);
    }
}

#[test]
fn headers_in_a_list_are_answered_in_turn() {
    let good = "permessage-deflate; server_no_context_takeover";
    let bad = "permessage-deflate; server_max_window_bits";
    assert_eq!(accepted(&format!("{bad},{good}")), good);
    assert_eq!(accepted(&format!("{good},{bad}")), good);
    assert!(negotiate(Some(&format!("{bad},{bad}"))).is_none());
}

#[test]
fn letter_case_changes_nothing() {
    let header = "X-Other; A=\"B\", PerMessage-DEFLATE; SERVER_max_WINDOW_bits=14";
    assert_eq!(accepted(header), accepted(&header.to_ascii_lowercase()));
    assert_eq!(accepted(header), "permessage-deflate; server_max_window_bits=14");
}

#[test]
fn the_default_configuration_takes_over_with_the_widest_windows() {
    let config = DeflateConfig::default();
    assert!(!config.server_no_context_takeover);
    assert!(!config.client_no_context_takeover);
    assert_eq!(config.server_max_window_bits().get(), 15);
    assert_eq!(config.client_max_window_bits().get(), 15);
}

#[test]
fn each_side_has_its_own_window_and_flag() {
    let config = DeflateConfig::default()
        .set_no_context_takeover(Role::Client, true)
        .set_max_window_bits(Role::Client, 9)
        .unwrap();
    assert!(config.client_no_context_takeover);
    assert!(!config.server_no_context_takeover);
    assert_eq!(config.client_max_window_bits().get(), 9);
    assert_eq!(config.server_max_window_bits().get(), 15);
    for bits in [0, 8, 16, 255] {
        let refused: Result<DeflateConfig, UnsupportedWindow> =
            config.set_max_window_bits(Role::Server, bits);
        assert!(refused.is_err(), "{bits}");
    }
}

#[test]
fn offers_keep_what_they_say() {
    let offers = parse_offers(" ; a, name ; ; k = \"v\" ;bare; e= , ,x;=1");
    assert_eq!(offers.len(), 2);
    assert_eq!(offers[0].name, "name");
    assert_eq!(offers[0].params.len(), 3);
    assert_eq!(offers[0].params[0].key, "k");
    assert_eq!(offers[0].params[0].value.as_deref(), Some("v"));
    assert_eq!(offers[0].params[1].key, "bare");
    assert_eq!(offers[0].params[1].value, None);
    assert_eq!(offers[0].params[2].key, "e");
    assert_eq!(offers[0].params[2].value.as_deref(), Some(""));
    assert_eq!(offers[1].name, "x");
    assert_eq!(offers[1].params[0].key, "");
    assert_eq!(offers[1].params[0].value.as_deref(), Some("1"));
}

#[test]
fn an_answer_holds_its_terms() {
    let n: Negotiated = negotiate(Some("permessage-deflate")).unwrap();
    assert_eq!(n.deflate, DeflateConfig::default());
}
