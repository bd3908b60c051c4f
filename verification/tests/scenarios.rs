use request_router::dispatch::Resolution;
use request_router::reply::{Action, Reply};
use request_router::route::{Handler, Method};
use request_router::site::{respond, site};
use rocket::local::blocking::Client;

fn serve(path: &str, query: &str, cookies: &[(&'static str, &'static str)]) -> Action {
    let registry = site();
    let client = Client::untracked(rocket::build()).expect("a local client");
    let mut request = client.get("/");
    for (name, value) in cookies {
        request = request.cookie((*name, *value));
    }
    respond(&registry, Method::Get, path, query, request.inner().cookies())
}

fn text(body: &str) -> Action {
    Action::Respond(Reply::Text(body.to_string()))
}

#[test]
fn user_42_binds_to_the_unsigned_handler() {
    assert_eq!(serve("/user/42", "", &[]), text("User 42!"));
}

#[test]
fn user_minus_5_falls_through_to_the_signed_handler() {
    assert_eq!(serve("/user/-5", "", &[]), text("User -5!"));
}

#[test]
fn user_abc_falls_through_to_the_string_handler() {
    assert_eq!(serve("/user/abc", "", &[]), text("User abc!"));
}

#[test]
fn ignored_segment_matches_any_token() {
    assert_eq!(serve("/foo/anything/bar", "", &[]), text("Foo _____ bar!"));
}

#[test]
fn ignored_segment_does_not_match_an_empty_token() {
    assert_eq!(serve("/foo//bar", "", &[]), Action::Respond(Reply::NotFound));
}

#[test]
fn ignored_wildcard_consumes_the_remainder() {
    assert_eq!(serve("/ignore_everything_after/a/b/c", "", &[]), text("Hey, you're here."));
}

#[test]
fn ignored_wildcard_accepts_an_empty_remainder() {
    assert_eq!(serve("/ignore_everything_after", "", &[]), text("Hey, you're here."));
}

#[test]
fn greet_with_language_emoji_and_name() {
    assert_eq!(serve("/greet", "lang=uk&emoji=true&name=Alex", &[]), text("👋 Привіт, Alex!"));
}

#[test]
fn greet_without_a_query() {
    assert_eq!(serve("/greet", "", &[]), text("Hi!"));
}

#[test]
fn greet_accepts_both_spellings_of_ukrainian() {
    assert_eq!(serve("/greet", "lang=uk-UA", &[]), text("Привіт!"));
    assert_eq!(serve("/greet", "lang=uk", &[]), text("Привіт!"));
    assert_eq!(serve("/greet", "lang=en", &[]), text("Hello!"));
}

#[test]
fn greet_aliases_are_case_sensitive() {
    assert_eq!(serve("/greet", "lang=EN", &[]), Action::Respond(Reply::NotFound));
}

#[test]
fn greet_turns_down_an_unknown_language() {
    assert_eq!(serve("/greet", "lang=fr", &[]), Action::Respond(Reply::NotFound));
}

#[test]
fn greet_reads_the_flag_in_any_case() {
    assert_eq!(serve("/greet", "emoji=TRUE", &[]), text("👋 Hi!"));
    assert_eq!(serve("/greet", "emoji=False", &[]), text("Hi!"));
    assert_eq!(serve("/greet", "emoji=yes", &[]), Action::Respond(Reply::NotFound));
}

#[test]
fn greet_takes_the_first_occurrence_of_a_key() {
    assert_eq!(serve("/greet", "name=Ann&name=Bob", &[]), text("Hi, Ann!"));
}

#[test]
fn greet_ignores_unknown_keys() {
    assert_eq!(serve("/greet", "colour=red&name=Ann", &[]), text("Hi, Ann!"));
}

#[test]
fn index_and_world() {
    assert_eq!(serve("/", "", &[]), text("Hello, world!"));
    assert_eq!(serve("/world", "", &[]), text("Other world!"));
}

#[test]
fn hello_interpolates() {
    assert_eq!(serve("/hello/Rust", "", &[]), text("Hello, Rust!"));
}

#[test]
fn delay_asks_for_the_exact_seconds() {
    assert_eq!(
        serve("/delay/3", "", &[]),
        Action::Sleep { seconds: 3, reply: Reply::Text("Waited for 3 seconds".to_string()) }
    );
    assert_eq!(serve("/delay/soon", "", &[]), Action::Respond(Reply::NotFound));
}

#[test]
fn blocking_task_asks_for_the_data_file() {
    assert_eq!(serve("/blocking_task", "", &[]), Action::ReadFile { path: "data.txt" });
}

#[test]
fn unknown_path_is_not_found() {
    assert_eq!(serve("/nowhere", "", &[]), Action::Respond(Reply::NotFound));
    assert_eq!(serve("/user", "", &[]), Action::Respond(Reply::NotFound));
    assert_eq!(serve("/user/1/2", "", &[]), Action::Respond(Reply::NotFound));
}

#[test]
fn literal_segments_are_case_sensitive() {
    assert_eq!(serve("/World", "", &[]), Action::Respond(Reply::NotFound));
}

#[test]
fn cookie_message_shows_the_message() {
    assert_eq!(serve("/cookie_message", "", &[("message", "hi")]), text("Message: hi"));
}

#[test]
fn cookie_message_without_the_cookie_is_not_found() {
    assert_eq!(serve("/cookie_message", "", &[("other", "x")]), Action::Respond(Reply::NotFound));
}

#[test]
fn cookies_lists_one_cookie() {
    assert_eq!(serve("/cookies", "", &[("a", "b")]), text("a: b"));
}

#[test]
fn cookies_lists_every_cookie_once() {
    let listing = serve("/cookies", "", &[("a", "b"), ("c", "d")]);
    assert!(listing == text("a: b, c: d") || listing == text("c: d, a: b"));
}

#[test]
fn cookies_of_an_empty_jar() {
    assert_eq!(serve("/cookies", "", &[]), text(""));
}

#[test]
fn path_tokens_are_percent_decoded() {
    assert_eq!(serve("/hello/a%20b", "", &[]), text("Hello, a b!"));
    assert_eq!(serve("/user/%34%32", "", &[]), text("User 42!"));
}

#[test]
fn an_escaped_slash_stays_inside_its_token() {
    assert_eq!(serve("/hello/a%2Fb", "", &[]), text("Hello, a/b!"));
}

#[test]
fn query_values_are_url_decoded() {
    assert_eq!(serve("/greet", "name=Ann+Lee%21", &[]), text("Hi, Ann Lee!!"));
    assert_eq!(serve("/greet", "n%61me=Ann", &[]), text("Hi, Ann!"));
}

#[test]
fn empty_pieces_of_a_query_are_passed_over() {
    assert_eq!(serve("/greet", "&&name=Ann&", &[]), text("Hi, Ann!"));
}

#[test]
fn the_site_has_its_routes_in_order() {
    let registry = site();
    assert_eq!(registry.len(), 13);
    let handlers: Vec<_> = registry.routes().iter().map(|route| route.handler()).collect();
    assert_eq!(
        handlers,
        vec![
            Handler::Index,
            Handler::Greet,
            Handler::World,
            Handler::Hello,
            Handler::Delay,
            Handler::BlockingTask,
            Handler::CookieMessage,
            Handler::Cookies,
            Handler::IgnorePart,
            Handler::IgnoreEverything,
            Handler::UserUsize,
            Handler::UserInt,
            Handler::UserStr,
        ]
    );
    let ranks: Vec<_> = registry.routes().iter().map(|route| route.rank()).collect();
    assert_eq!(ranks, vec![0, 0, 0, 1, 1, 0, 0, 0, 2, 2, 1, 2, 3]);
}

#[test]
fn only_get_is_served() {
    let registry = site();
    for method in [Method::Put, Method::Post, Method::Delete, Method::Options, Method::Head, Method::Trace, Method::Connect, Method::Patch] {
        assert_eq!(registry.resolve(method, "/", ""), Resolution::NotFound);
    }
}
