use hotline::config::format_config;
use hotline::dialplans::{extract_dial_plans, DialPlan, DialPlanConfig};
use hotline::export::dial_plan_rows;
use hotline::scan::{ip_range, summarize};
use hotline::session::{
    advance, csrf_token, device_url, login_form, session_id, start, token_outcome, AuthError,
    DeviceFailure, Event, Request, SessionState,
};

fn value_of(text: &str, key: &str) -> Option<String> {
    let map = format_config(text);
    map.get(&key.to_string()).cloned()
}

fn plan_of<'a>(c: &'a DialPlanConfig, profile: &str, plan: &str) -> Option<&'a DialPlan> {
    let p = c.profiles.iter().find(|(id, _)| id == profile)?;
    p.1.plans.iter().find(|(id, _)| id == plan).map(|(_, d)| d)
}

#[test]
fn parse_dotted_key_becomes_underscored() {
    let map = format_config("set k.sub = \"v\"\n");
    assert_eq!(map.get(&"k_sub".to_string()), Some(&"v".to_string()));
    assert_eq!(map.entries().len(), 1);
}

#[test]
fn parse_keys_hold_no_dot_or_leading_underscore() {
    let map = format_config("set .a.b = \"1\"\nset __c = 2\nset d.e.f = \"x\"\n");
    for (k, _) in map.entries() {
        assert!(!k.contains('.'));
        assert!(!k.starts_with('_'));
    }
    assert_eq!(map.get(&"a_b".to_string()), Some(&"1".to_string()));
    assert_eq!(map.get(&"c".to_string()), Some(&"2".to_string()));
    assert_eq!(map.get(&"d_e_f".to_string()), Some(&"x".to_string()));
}

#[test]
fn parse_value_keeps_embedded_equals() {
    assert_eq!(value_of("set foo = \"a=b\"", "foo"), Some("a=b".to_string()));
}

#[test]
fn parse_twice_gives_same_map() {
    let text = "set a = 1\nset b.c = \"two\"\nnoise\nset a = 3\n";
    let first = format_config(text);
    let second = format_config(text);
    assert_eq!(first.entries(), second.entries());
}

#[test]
fn parse_later_duplicate_wins() {
    let map = format_config("set a = 1\nset a = 2\n");
    assert_eq!(map.get(&"a".to_string()), Some(&"2".to_string()));
    assert_eq!(map.len(), 1);
}

#[test]
fn parse_skips_lines_without_markers_or_key() {
    let map = format_config("a = 1\nset b\nset = 4\n  set c=5  \r\n");
    assert_eq!(map.len(), 1);
    assert_eq!(map.get(&"c".to_string()), Some(&"5".to_string()));
}

#[test]
fn parse_empty_text_gives_empty_map() {
    assert_eq!(format_config("").len(), 0);
}

const SAMPLE: &str = "set planner.profile.1.plan.1.srce = \"IF:3\"\n\
set planner.profile.1.plan.1.dest = \"TEL:(555)1234\"\n\
set sip.auth.user.7.subscriber = \"IF:3\"\n\
set sip.auth.user.7.username = \"alice\"\n\
set quick.lan_ip = \"10.0.0.5\"\n\
set quick.hostname = \"vega1\"\n";

#[test]
fn extract_full_plan_with_subscriber() {
    let cfg = extract_dial_plans(&format_config(SAMPLE));
    let plan = plan_of(&cfg, "profile_1", "plan_1").expect("plan present");
    assert_eq!(plan.srce.as_deref(), Some("IF:3"));
    assert_eq!(plan.dest_raw.as_deref(), Some("TEL:(555)1234"));
    assert_eq!(plan.dest_tel.as_deref(), Some("5551234"));
    assert_eq!(plan.subscriber.as_deref(), Some("alice"));
    assert_eq!(cfg.ip_address.as_deref(), Some("10.0.0.5"));
    assert_eq!(cfg.hostname.as_deref(), Some("vega1"));
    let rows = dial_plan_rows(&vec![cfg]);
    assert_eq!(rows.len(), 1);
    assert_eq!(rows[0].vega_ip, "10.0.0.5");
    assert_eq!(rows[0].vega_name, "vega1");
    assert_eq!(rows[0].profile, "profile_1");
    assert_eq!(rows[0].plan, "plan_1");
    assert_eq!(rows[0].port, "IF:3");
    assert_eq!(rows[0].destination_ext.as_deref(), Some("5551234"));
    assert_eq!(rows[0].user_lineport, "alice");
}

#[test]
fn extract_plan_without_subscriber_is_kept_but_not_exported() {
    let text = "set planner.profile.2.plan.4.srce = IF:9\nset planner.profile.2.plan.4.dest = TEL:42\n";
    let cfg = extract_dial_plans(&format_config(text));
    let plan = plan_of(&cfg, "profile_2", "plan_4").expect("plan present");
    assert_eq!(plan.srce.as_deref(), Some("IF:9"));
    assert_eq!(plan.dest_tel.as_deref(), Some("42"));
    assert!(plan.subscriber.is_none());
    assert_eq!(dial_plan_rows(&vec![cfg]).len(), 0);
}

#[test]
fn extract_lowest_user_number_wins() {
    let text = "set planner.profile.1.plan.1.srce = IF:3\n\
set sip.auth.user.10.subscriber = IF:3\nset sip.auth.user.10.username = bob\n\
set sip.auth.user.9.subscriber = IF:3\nset sip.auth.user.9.username = carol\n";
    let cfg = extract_dial_plans(&format_config(text));
    let plan = plan_of(&cfg, "profile_1", "plan_1").unwrap();
    assert_eq!(plan.subscriber.as_deref(), Some("carol"));
}

#[test]
fn extract_missing_username_is_empty() {
    let text = "set planner.profile.1.plan.2.srce = IF:5\nset sip.auth.user.3.subscriber = IF:5\n";
    let cfg = extract_dial_plans(&format_config(text));
    let plan = plan_of(&cfg, "profile_1", "plan_2").unwrap();
    assert_eq!(plan.subscriber.as_deref(), Some(""));
}

#[test]
fn extract_unmatched_values_stay_unset() {
    let text = "set planner.profile.3.plan.1.srce = port9\nset planner.profile.3.plan.1.dest = nowhere\n";
    let cfg = extract_dial_plans(&format_config(text));
    let plan = plan_of(&cfg, "profile_3", "plan_1").unwrap();
    assert!(plan.srce.is_none());
    assert_eq!(plan.dest_raw.as_deref(), Some("nowhere"));
    assert!(plan.dest_tel.is_none());
    assert!(plan.subscriber.is_none());
}

#[test]
fn extract_groups_plans_by_profile_and_ignores_other_keys() {
    let text = "set planner.profile.1.plan.1.dest = TEL:1\nset planner.profile.1.plan.2.dest = TEL:2\n\
set planner.profile.2.plan.1.dest = TEL:3\nset planner.profile.x.plan.1.dest = TEL:4\nset other = 1\n";
    let cfg = extract_dial_plans(&format_config(text));
    assert_eq!(cfg.profiles.len(), 2);
    let total: usize = cfg.profiles.iter().map(|(_, p)| p.plans.len()).sum();
    assert_eq!(total, 3);
    assert_eq!(plan_of(&cfg, "profile_1", "plan_2").unwrap().dest_tel.as_deref(), Some("2"));
    assert!(cfg.ip_address.is_none());
}

#[test]
fn scan_of_unreachable_range_exports_nothing() {
    let addresses = ip_range(0x0a000001, 0x0a000004);
    assert_eq!(addresses, vec![0x0a000001, 0x0a000002, 0x0a000003, 0x0a000004]);
    let outcomes = addresses.iter().map(|a| (*a, Err(DeviceFailure::Network))).collect();
    let report = summarize(outcomes);
    assert_eq!(report.failures.len(), 4);
    assert!(report.configs.is_empty());
    assert_eq!(dial_plan_rows(&report.configs).len(), 0);
}

#[test]
fn scan_range_edges() {
    assert_eq!(ip_range(5, 5), vec![5]);
    assert!(ip_range(6, 5).is_empty());
    assert_eq!(ip_range(u32::MAX - 1, u32::MAX), vec![u32::MAX - 1, u32::MAX]);
}

#[test]
fn session_missing_token_stops_before_login() {
    let (state, request) = start();
    assert!(matches!(request, Request::GetIndex));
    let html = "<html><body><form><input name=\"user\" value=\"x\"></form></body></html>";
    let (state, request) = advance(state, Event::IndexPage { html: html.to_string() }, "u", "p");
    assert!(matches!(request, Request::Stop));
    assert!(matches!(
        state,
        SessionState::Failed { reason: DeviceFailure::Auth(AuthError::MissingToken) }
    ));
}

#[test]
fn session_full_run() {
    let (state, _) = start();
    let html = "<html><body><input name=\"csrf-token\" value=\"tok42\"></body></html>";
    let (state, request) = advance(state, Event::IndexPage { html: html.to_string() }, "admin", "pw");
    match request {
        Request::PostLogin { form } => {
            assert_eq!(form, login_form("admin", "pw", "tok42"));
            assert_eq!(form[3], ("csrf_token".to_string(), "tok42".to_string()));
        }
        _ => panic!("expected a login"),
    }
    let cookies = vec!["lang=en".to_string(), "sid=-17; path=/".to_string()];
    let (state, request) =
        advance(state, Event::LoginAnswer { status: 302, set_cookies: cookies }, "admin", "pw");
    match request {
        Request::GetConfig { sid } => assert_eq!(sid, "-17"),
        _ => panic!("expected a config request"),
    }
    let (state, request) =
        advance(state, Event::ConfigBody { text: "set a = 1".to_string() }, "admin", "pw");
    assert!(matches!(request, Request::Stop));
    assert!(matches!(state, SessionState::Established { config } if config == "set a = 1"));
}

#[test]
fn session_network_failure_fails_device() {
    let (state, _) = start();
    let (state, request) = advance(state, Event::NetworkFailure, "u", "p");
    assert!(matches!(request, Request::Stop));
    assert!(matches!(state, SessionState::Failed { reason: DeviceFailure::Network }));
}

#[test]
fn csrf_token_read_from_page() {
    let html = "<input name=\"csrf-token\" value=\"abc\"><input name=\"csrf-token\" value=\"def\">";
    assert_eq!(csrf_token(html), Ok("abc".to_string()));
    assert_eq!(csrf_token("<p>none</p>"), Err(AuthError::MissingToken));
}

#[test]
fn session_id_outcomes() {
    let c = vec!["sid=123; HttpOnly".to_string()];
    assert_eq!(session_id(302, &c), Ok("123".to_string()));
    assert_eq!(session_id(200, &c), Err(AuthError::LoginRejected(200)));
    assert_eq!(session_id(301, &vec!["lang=en".to_string()]), Err(AuthError::MissingSessionId));
    assert_eq!(session_id(303, &vec!["sid=-x; sid=9".to_string()]), Ok("9".to_string()));
}

#[test]
fn device_urls() {
    assert_eq!(device_url("10.0.0.1", "/index.htm"), "https://10.0.0.1/index.htm");
    assert_eq!(device_url("10.0.0.1", "/vs_login"), "https://10.0.0.1/vs_login");
}

#[test]
fn token_outcome_maps_absence_to_missing_token() {
    assert_eq!(token_outcome(Some("t1".to_string())), Ok("t1".to_string()));
    assert_eq!(token_outcome(None), Err(AuthError::MissingToken));
}

#[test]
fn session_login_rejected_and_missing_sid() {
    let (state, _) = start();
    let html = "<input name=\"csrf-token\" value=\"t\">";
    let (state, _) = advance(state, Event::IndexPage { html: html.to_string() }, "u", "p");
    let (failed, request) =
        advance(state, Event::LoginAnswer { status: 200, set_cookies: vec![] }, "u", "p");
    assert!(matches!(request, Request::Stop));
    assert!(matches!(
        failed,
        SessionState::Failed { reason: DeviceFailure::Auth(AuthError::LoginRejected(200)) }
    ));
    let state = SessionState::TokenFetched { token: "t".to_string() };
    let (failed, _) = advance(
        state,
        Event::LoginAnswer { status: 302, set_cookies: vec!["lang=en".to_string()] },
        "u",
        "p",
    );
    assert!(matches!(
        failed,
        SessionState::Failed { reason: DeviceFailure::Auth(AuthError::MissingSessionId) }
    ));
}

#[test]
fn session_ignores_event_that_does_not_fit() {
    let (state, _) = start();
    let (state, request) =
        advance(state, Event::ConfigBody { text: "x".to_string() }, "u", "p");
    assert!(matches!(state, SessionState::Unauthenticated));
    assert!(matches!(request, Request::Stop));
}
