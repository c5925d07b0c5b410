use synergy_router::router::compute_handler;
use synergy_router::router::compute_url;
use synergy_router::router::handle_req;
use synergy_router::router::health_handler;
use synergy_router::router::root_handler;
use synergy_router::router::route_of;
use synergy_router::router::DownstreamOutcome;
use synergy_router::router::Route;
use synergy_router::router::Step;

const GREETING: &str = "Hello from Rust. Try /health or /compute?prompt=Hello\n";

#[test]
fn health_is_200_ok() {
    let r = health_handler();
    assert_eq!(r.status, 200);
    assert_eq!(r.body, "OK");
    assert!(r.content_type.is_none());
}

#[test]
fn root_is_200_greeting() {
    let r = root_handler();
    assert_eq!(r.status, 200);
    assert_eq!(r.body, GREETING);
    assert_eq!(r.content_type.as_deref(), Some("text/plain"));
}

#[test]
fn routes_dispatch_on_path_alone() {
    assert_eq!(route_of("/health"), Route::Health);
    assert_eq!(route_of("/compute"), Route::Compute);
    assert_eq!(route_of("/"), Route::Other);
    assert_eq!(route_of("/foo"), Route::Other);
    assert_eq!(route_of("/health/"), Route::Other);
    assert_eq!(route_of(""), Route::Other);
}

#[test]
fn health_ignores_query_string() {
    match handle_req("/health", "prompt=Hello&x=1") {
        Step::Respond(r) => {
            assert_eq!(r.status, 200);
            assert_eq!(r.body, "OK");
        }
        Step::CallDownstream(_) => panic!("health must respond at once"),
    }
}

#[test]
fn unknown_paths_greet() {
    for path in ["/", "/foo", "/anything-else"] {
        match handle_req(path, "") {
            Step::Respond(r) => {
                assert_eq!(r.status, 200);
                assert_eq!(r.body, GREETING);
            }
            Step::CallDownstream(_) => panic!("unknown paths must respond at once"),
        }
    }
}

#[test]
fn compute_builds_downstream_url() {
    match handle_req("/compute", "prompt=Hello") {
        Step::CallDownstream(url) => {
            assert_eq!(url, "http://python_agent:9000/chat_gpt?prompt=Hello");
        }
        Step::Respond(_) => panic!("compute must call downstream"),
    }
}

#[test]
fn compute_without_prompt_uses_none() {
    assert_eq!(compute_url(""), "http://python_agent:9000/chat_gpt?prompt=none");
    assert_eq!(compute_url("x=1"), "http://python_agent:9000/chat_gpt?prompt=none");
}

#[test]
fn compute_url_takes_prompt_verbatim() {
    assert_eq!(
        compute_url("prompt=Hello"),
        "http://python_agent:9000/chat_gpt?prompt=Hello"
    );
}

#[test]
fn compute_success_relays_downstream_body() {
    let r = compute_handler(DownstreamOutcome::Success(String::from("Hi!")));
    assert_eq!(r.status, 200);
    assert_eq!(r.content_type.as_deref(), Some("text/plain"));
    assert_eq!(r.body, "Rust synergy result => Python synergy says:\nHi!\n");
}

#[test]
fn compute_read_error_is_in_band() {
    let r = compute_handler(DownstreamOutcome::ReadError(String::from("boom")));
    assert_eq!(r.status, 200);
    assert_eq!(
        r.body,
        "Rust synergy result => Python synergy says:\nError reading synergy text: boom\n"
    );
}

#[test]
fn compute_connect_error_is_in_band_200() {
    let r = compute_handler(DownstreamOutcome::ConnectError(String::from(
        "connection refused",
    )));
    assert_eq!(r.status, 200);
    assert!(r.body.starts_with(
        "Rust synergy result => Python synergy says:\nError calling synergy agent: "
    ));
    assert!(r.body.ends_with('\n'));
}
