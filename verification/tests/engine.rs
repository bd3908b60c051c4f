use request_router::binder::bind_captures;
use request_router::dispatch::Resolution;
use request_router::error::{BindMismatch, PatternError};
use request_router::form::{compile_field, compile_fields, compile_type, FieldDecl, TypeDecl};
use request_router::matcher::{decoded_tokens, match_path, match_tokens};
use request_router::number::{parse_signed, parse_unsigned, push_decimal};
use request_router::pattern::{tokens, ParamDecl, PathSegment, Pattern};
use request_router::query::{bind_query, lookup, parse_query, QueryFieldSpec, QueryPair};
use request_router::registry::{Registry, RegistryBuilder};
use request_router::route::{Handler, Method, RouteDefinition};
use request_router::text::{join, same, split, to_chars};
use request_router::value::{bind_value, Alias, AliasTable, ParamType, Value};

fn strings(items: &[&str]) -> Vec<String> {
    items.iter().map(|item| item.to_string()).collect()
}

fn pattern(template: &str, params: Vec<ParamDecl>) -> Pattern {
    Pattern::compile(template, &params).expect("the template compiles")
}

fn route(template: &str, ty: Option<ParamType>, rank: Option<i64>, handler: Handler) -> RouteDefinition {
    let params = match ty {
        Some(ty) => vec![ParamDecl::new("id", ty)],
        None => vec![],
    };
    RouteDefinition::compile(Method::Get, "/", template, &params, None, rank, handler)
        .expect("the template compiles")
}

fn registry(routes: Vec<RouteDefinition>) -> Registry {
    let mut builder = RegistryBuilder::new();
    for route in routes {
        builder.register(route);
    }
    builder.freeze()
}

fn captured(template: &str, path: &str) -> Option<Vec<(String, String)>> {
    let compiled = pattern(template, vec![]);
    let result = match_path(&compiled, path).map(|captures| {
        captures.iter().map(|c| (c.name.to_string(), c.value.clone())).collect()
    });
    result
}

fn pairs(items: &[(&str, &str)]) -> Vec<(String, String)> {
    items.iter().map(|(name, value)| (name.to_string(), value.to_string())).collect()
}

// ---- text ----

#[test]
fn split_keeps_empty_pieces() {
    assert_eq!(split("a//b", '/'), strings(&["a", "", "b"]));
    assert_eq!(split("", '/'), strings(&[""]));
    assert_eq!(split("/", '/'), strings(&["", ""]));
    assert_eq!(split("abc", '/'), strings(&["abc"]));
}

#[test]
fn join_puts_the_separator_between_neighbours() {
    assert_eq!(join(&strings(&["a", "b", "c"]), '/'), "a/b/c");
    assert_eq!(join(&strings(&["a", "", "c"]), '/'), "a//c");
    assert_eq!(join(&strings(&["c"]), '/'), "c");
    assert_eq!(join(&strings(&[""]), '/'), "");
    assert_eq!(join(&strings(&[]), '/'), "");
}

#[test]
fn join_undoes_split() {
    for text in ["", "/", "a/b", "//a//", "no separator", "ключ/значення"] {
        assert_eq!(join(&split(text, '/'), '/'), text);
    }
}

#[test]
fn same_compares_character_by_character() {
    assert!(same("", ""));
    assert!(same("héllo", "héllo"));
    assert!(!same("hello", "hellO"));
    assert!(!same("hello", "hell"));
    assert!(!same("hell", "hello"));
}

#[test]
fn to_chars_gives_characters_not_bytes() {
    assert_eq!(to_chars("Привіт!"), vec!['П', 'р', 'и', 'в', 'і', 'т', '!']);
    assert_eq!(to_chars(""), vec![]);
}

// ---- numbers ----

#[test]
fn unsigned_grammar() {
    assert_eq!(parse_unsigned("0", u64::MAX), Some(0));
    assert_eq!(parse_unsigned("42", u64::MAX), Some(42));
    assert_eq!(parse_unsigned("+42", u64::MAX), Some(42));
    assert_eq!(parse_unsigned("007", u64::MAX), Some(7));
    assert_eq!(parse_unsigned("-5", u64::MAX), None);
    assert_eq!(parse_unsigned("-0", u64::MAX), None);
    assert_eq!(parse_unsigned("", u64::MAX), None);
    assert_eq!(parse_unsigned("+", u64::MAX), None);
    assert_eq!(parse_unsigned("++1", u64::MAX), None);
    assert_eq!(parse_unsigned("1 ", u64::MAX), None);
    assert_eq!(parse_unsigned("12a", u64::MAX), None);
    assert_eq!(parse_unsigned("٣", u64::MAX), None);
}

#[test]
fn unsigned_range() {
    assert_eq!(parse_unsigned("18446744073709551615", u64::MAX), Some(u64::MAX));
    assert_eq!(parse_unsigned("18446744073709551616", u64::MAX), None);
    assert_eq!(parse_unsigned("99999999999999999999999999999999999999999999", u64::MAX), None);
    assert_eq!(parse_unsigned("000000000000000000000000000000000000000000001", u64::MAX), Some(1));
    assert_eq!(parse_unsigned("255", 255), Some(255));
    assert_eq!(parse_unsigned("256", 255), None);
}

#[test]
fn signed_grammar_and_range() {
    assert_eq!(parse_signed("-5", i64::MIN, i64::MAX), Some(-5));
    assert_eq!(parse_signed("+5", i64::MIN, i64::MAX), Some(5));
    assert_eq!(parse_signed("5", i64::MIN, i64::MAX), Some(5));
    assert_eq!(parse_signed("-0", i64::MIN, i64::MAX), Some(0));
    assert_eq!(parse_signed("-", i64::MIN, i64::MAX), None);
    assert_eq!(parse_signed("--5", i64::MIN, i64::MAX), None);
    assert_eq!(parse_signed("+-5", i64::MIN, i64::MAX), None);
    assert_eq!(parse_signed("9223372036854775807", i64::MIN, i64::MAX), Some(i64::MAX));
    assert_eq!(parse_signed("9223372036854775808", i64::MIN, i64::MAX), None);
    assert_eq!(parse_signed("-9223372036854775808", i64::MIN, i64::MAX), Some(i64::MIN));
    assert_eq!(parse_signed("-9223372036854775809", i64::MIN, i64::MAX), None);
    assert_eq!(parse_signed("-3", 1, 10), None);
    assert_eq!(parse_signed("3", -10, -1), None);
    assert_eq!(parse_signed("-3", -10, -1), Some(-3));
    assert_eq!(parse_signed("0", 1, 10), None);
}

#[test]
fn decimal_is_written_without_padding() {
    for (n, text) in [(0u64, "0"), (7, "7"), (10, "10"), (42, "42"), (u64::MAX, "18446744073709551615")] {
        let mut out = String::from("n=");
        push_decimal(&mut out, n);
        assert_eq!(out, format!("n={}", text));
    }
}

#[test]
fn what_is_written_reads_back() {
    for n in [0u64, 1, 9, 10, 99, 100, 12345, u64::MAX] {
        let mut out = String::new();
        push_decimal(&mut out, n);
        assert_eq!(parse_unsigned(&out, u64::MAX), Some(n));
    }
}

// ---- values ----

#[test]
fn values_of_each_type() {
    assert_eq!(bind_value(&ParamType::Usize, "42"), Ok(Value::Usize(42)));
    assert_eq!(bind_value(&ParamType::Usize, "-5"), Err(BindMismatch));
    assert_eq!(bind_value(&ParamType::Isize, "-5"), Ok(Value::Isize(-5)));
    assert_eq!(bind_value(&ParamType::Isize, "abc"), Err(BindMismatch));
    assert_eq!(bind_value(&ParamType::U64, "3"), Ok(Value::U64(3)));
    assert_eq!(bind_value(&ParamType::U64, "3.5"), Err(BindMismatch));
    assert_eq!(bind_value(&ParamType::Text, "abc"), Ok(Value::Text("abc".to_string())));
    assert_eq!(bind_value(&ParamType::Text, ""), Ok(Value::Text(String::new())));
    assert_eq!(bind_value(&ParamType::Flag, "true"), Ok(Value::Flag(true)));
    assert_eq!(bind_value(&ParamType::Flag, "FALSE"), Ok(Value::Flag(false)));
    assert_eq!(bind_value(&ParamType::Flag, "TrUe"), Ok(Value::Flag(true)));
    assert_eq!(bind_value(&ParamType::Flag, "1"), Err(BindMismatch));
    assert_eq!(bind_value(&ParamType::Flag, "on"), Err(BindMismatch));
    assert_eq!(bind_value(&ParamType::Flag, ""), Err(BindMismatch));
    assert_eq!(bind_value(&ParamType::Flag, "truer"), Err(BindMismatch));
}

#[test]
fn out_of_range_integers_do_not_bind() {
    assert_eq!(bind_value(&ParamType::U64, "18446744073709551616"), Err(BindMismatch));
    assert_eq!(bind_value(&ParamType::Usize, "340282366920938463463374607431768211456"), Err(BindMismatch));
    assert_eq!(bind_value(&ParamType::Isize, "-170141183460469231731687303715884105729"), Err(BindMismatch));
}

fn languages() -> AliasTable {
    AliasTable::compile(vec![Alias::new("en", 0), Alias::new("uk-UA", 1), Alias::new("uk", 1)])
        .expect("the spellings differ")
}

#[test]
fn alias_table_maps_spellings_to_variants() {
    let table = languages();
    assert_eq!(table.lookup("en"), Some(0));
    assert_eq!(table.lookup("uk"), Some(1));
    assert_eq!(table.lookup("uk-UA"), Some(1));
    assert_eq!(table.lookup("EN"), None);
    assert_eq!(table.lookup("uk-ua"), None);
    assert_eq!(table.lookup(""), None);
    let copy = table.duplicate();
    assert_eq!(copy.lookup("uk-UA"), Some(1));
    assert_eq!(copy.lookup("de"), None);
}

#[test]
fn alias_table_refuses_a_repeated_spelling() {
    let twice = AliasTable::compile(vec![Alias::new("en", 0), Alias::new("uk", 1), Alias::new("en", 1)]);
    assert_eq!(twice.err(), Some(PatternError::DuplicateAlias));
    let same_variant = AliasTable::compile(vec![Alias::new("en", 0), Alias::new("en", 0)]);
    assert_eq!(same_variant.err(), Some(PatternError::DuplicateAlias));
    assert!(AliasTable::compile(vec![Alias::new("en", 0), Alias::new("EN", 0)]).is_ok());
    assert!(AliasTable::compile(vec![]).is_ok());
}

#[test]
fn choice_binds_on_exact_match_only() {
    let ty = ParamType::Choice(languages());
    assert_eq!(bind_value(&ty, "uk"), Ok(Value::Choice(1)));
    assert_eq!(bind_value(&ty, "en"), Ok(Value::Choice(0)));
    assert_eq!(bind_value(&ty, "En"), Err(BindMismatch));
    assert_eq!(bind_value(&ty.duplicate(), "uk-UA"), Ok(Value::Choice(1)));
    assert!(!ty.is_text());
    assert!(ParamType::Text.is_text());
}

#[test]
fn value_duplicate_copies() {
    for value in [Value::Usize(1), Value::Isize(-1), Value::U64(2), Value::Text("t".to_string()), Value::Flag(true), Value::Choice(3), Value::Missing] {
        assert_eq!(value.duplicate(), value);
    }
}

// ---- templates ----

fn shape(template: &str, params: Vec<ParamDecl>) -> Vec<String> {
    pattern(template, params).segments().iter().map(|segment| match segment {
        PathSegment::Literal { text } => format!("lit:{}", text),
        PathSegment::Dynamic { name, ty } => format!("dyn:{}:{:?}", name, ty),
        PathSegment::DynamicIgnored => "skip".to_string(),
        PathSegment::TrailingWildcard { name, ty } => format!("rest:{}:{:?}", name, ty),
        PathSegment::TrailingIgnored => "skiprest".to_string(),
    }).collect()
}

#[test]
fn tokens_of_paths() {
    assert_eq!(tokens("/"), strings(&[]));
    assert_eq!(tokens(""), strings(&[]));
    assert_eq!(tokens("/a/b"), strings(&["a", "b"]));
    assert_eq!(tokens("a/b"), strings(&["a", "b"]));
    assert_eq!(tokens("/a/"), strings(&["a", ""]));
    assert_eq!(tokens("//a"), strings(&["", "a"]));
    assert_eq!(tokens("/a//b"), strings(&["a", "", "b"]));
}

#[test]
fn templates_compile_token_by_token() {
    assert_eq!(shape("/", vec![]), strings(&[]));
    assert_eq!(shape("/world", vec![]), strings(&["lit:world"]));
    assert_eq!(shape("/hello/<name>", vec![]), strings(&["lit:hello", "dyn:name:Text"]));
    assert_eq!(
        shape("/user/<id>", vec![ParamDecl::new("id", ParamType::Usize)]),
        strings(&["lit:user", "dyn:id:Usize"])
    );
    assert_eq!(shape("/foo/<_>/bar", vec![]), strings(&["lit:foo", "skip", "lit:bar"]));
    assert_eq!(shape("/files/<path..>", vec![]), strings(&["lit:files", "rest:path:Text"]));
    assert_eq!(shape("/x/<_..>", vec![]), strings(&["lit:x", "skiprest"]));
    assert_eq!(shape("/<a>/<b>", vec![ParamDecl::new("b", ParamType::Flag)]), strings(&["dyn:a:Text", "dyn:b:Flag"]));
}

#[test]
fn the_first_declaration_of_a_name_counts() {
    let params = vec![ParamDecl::new("id", ParamType::Isize), ParamDecl::new("id", ParamType::U64)];
    assert_eq!(shape("/<id>", params), strings(&["dyn:id:Isize"]));
}

#[test]
fn tokens_that_only_look_dynamic_are_literals() {
    assert_eq!(shape("/<open/close>/a<b>/<", vec![]), strings(&["lit:<open", "lit:close>", "lit:a<b>", "lit:<"]));
    assert_eq!(shape("/<>", vec![]), strings(&["dyn::Text"]));
    assert_eq!(shape("/<..>", vec![]), strings(&["rest::Text"]));
    assert_eq!(shape("/<__>", vec![]), strings(&["dyn:__:Text"]));
}

#[test]
fn wildcard_before_the_end_is_refused() {
    let refused = Pattern::compile("/<rest..>/tail", &vec![]);
    assert_eq!(refused.err(), Some(PatternError::WildcardNotLast));
    let ignored = Pattern::compile("/<_..>/tail", &vec![]);
    assert_eq!(ignored.err(), Some(PatternError::WildcardNotLast));
}

#[test]
fn two_wildcards_are_refused() {
    let refused = Pattern::compile("/<a..>/<b..>", &vec![]);
    assert_eq!(refused.err(), Some(PatternError::MultipleWildcards));
    let mixed = Pattern::compile("/<a..>/x/<_..>", &vec![]);
    assert_eq!(mixed.err(), Some(PatternError::MultipleWildcards));
}

#[test]
fn typed_wildcard_is_refused() {
    for ty in [ParamType::Usize, ParamType::Isize, ParamType::U64, ParamType::Flag] {
        let refused = Pattern::compile("/n/<rest..>", &vec![ParamDecl::new("rest", ty)]);
        assert_eq!(refused.err(), Some(PatternError::TypedWildcard));
    }
    assert!(Pattern::compile("/n/<rest..>", &vec![ParamDecl::new("rest", ParamType::Text)]).is_ok());
}

#[test]
fn derived_rank_sums_the_weights() {
    assert_eq!(pattern("/", vec![]).derived_rank(), 0);
    assert_eq!(pattern("/a/b/c", vec![]).derived_rank(), 0);
    assert_eq!(pattern("/user/<id>", vec![]).derived_rank(), 1);
    assert_eq!(pattern("/<a>/<b>", vec![]).derived_rank(), 2);
    assert_eq!(pattern("/foo/<_>/bar", vec![]).derived_rank(), 2);
    assert_eq!(pattern("/x/<rest..>", vec![]).derived_rank(), 1);
    assert_eq!(pattern("/x/<_..>", vec![]).derived_rank(), 2);
    assert_eq!(pattern("/<a>/<_>/<_..>", vec![]).derived_rank(), 5);
}

// ---- matching ----

#[test]
fn fixed_patterns_need_the_exact_count() {
    assert_eq!(captured("/a/b", "/a/b"), Some(pairs(&[])));
    assert_eq!(captured("/a/b", "/a"), None);
    assert_eq!(captured("/a/b", "/a/b/c"), None);
    assert_eq!(captured("/a/b", "/a/b/"), None);
    assert_eq!(captured("/", "/"), Some(pairs(&[])));
    assert_eq!(captured("/", "/a"), None);
}

#[test]
fn literals_match_exactly() {
    assert_eq!(captured("/User", "/user"), None);
    assert_eq!(captured("/user", "/user"), Some(pairs(&[])));
    assert_eq!(captured("/a b", "/a%20b"), Some(pairs(&[])));
}

#[test]
fn dynamic_segments_capture_nonempty_tokens() {
    assert_eq!(captured("/user/<id>", "/user/42"), Some(pairs(&[("id", "42")])));
    assert_eq!(captured("/user/<id>", "/user/"), None);
    assert_eq!(captured("/<a>/<b>", "/x/y"), Some(pairs(&[("a", "x"), ("b", "y")])));
    assert_eq!(captured("/foo/<_>/bar", "/foo/x/bar"), Some(pairs(&[])));
    assert_eq!(captured("/foo/<_>/<b>", "/foo/x/y"), Some(pairs(&[("b", "y")])));
}

#[test]
fn wildcard_captures_the_joined_remainder() {
    assert_eq!(captured("/files/<path..>", "/files/a/b/c"), Some(pairs(&[("path", "a/b/c")])));
    assert_eq!(captured("/files/<path..>", "/files/a"), Some(pairs(&[("path", "a")])));
    assert_eq!(captured("/files/<path..>", "/files"), Some(pairs(&[("path", "")])));
    assert_eq!(captured("/files/<path..>", "/files/a//b/"), Some(pairs(&[("path", "a//b/")])));
    assert_eq!(captured("/files/<path..>", "/other/a"), None);
    assert_eq!(captured("/files/<path..>", "/"), None);
    assert_eq!(captured("/<kind>/<path..>", "/img/a/b"), Some(pairs(&[("kind", "img"), ("path", "a/b")])));
}

#[test]
fn match_tokens_takes_tokens_as_they_are() {
    let compiled = pattern("/user/<id>", vec![]);
    let found = match_tokens(&compiled, &strings(&["user", "a%20b"])).expect("the shape matches");
    assert_eq!(found.len(), 1);
    assert_eq!(found[0].name, "id");
    assert_eq!(found[0].value, "a%20b");
    assert!(match_tokens(&compiled, &strings(&["api", "user", "7"])).is_none());
    assert!(match_tokens(&compiled, &strings(&["user"])).is_none());
    assert!(match_tokens(&compiled, &strings(&[])).is_none());
}

#[test]
fn decoded_tokens_decode_each_token() {
    assert_eq!(decoded_tokens("/a%20b/c"), strings(&["a b", "c"]));
    assert_eq!(decoded_tokens("/a%2Fb"), strings(&["a/b"]));
    assert_eq!(decoded_tokens("/a+b"), strings(&["a+b"]));
    assert_eq!(decoded_tokens("/"), strings(&[]));
}

#[test]
fn matching_twice_gives_the_same_captures() {
    let compiled = pattern("/<a>/x/<rest..>", vec![]);
    let first = match_path(&compiled, "/1/x/2/3").expect("matches");
    let second = match_path(&compiled, "/1/x/2/3").expect("matches");
    assert_eq!(first.len(), second.len());
    for (a, b) in first.iter().zip(second.iter()) {
        assert_eq!((a.name, &a.value), (b.name, &b.value));
    }
    assert_eq!(bind_captures(&first), bind_captures(&second));
}

#[test]
fn one_failed_capture_rejects_the_candidate() {
    let params = vec![ParamDecl::new("a", ParamType::Usize), ParamDecl::new("b", ParamType::Usize)];
    let compiled = pattern("/<a>/<b>", params);
    let good = match_path(&compiled, "/1/2").expect("matches");
    assert_eq!(bind_captures(&good), Ok(vec![Value::Usize(1), Value::Usize(2)]));
    let bad_first = match_path(&compiled, "/x/2").expect("matches");
    assert_eq!(bind_captures(&bad_first), Err(BindMismatch));
    let bad_last = match_path(&compiled, "/1/x").expect("matches");
    assert_eq!(bind_captures(&bad_last), Err(BindMismatch));
}

// ---- query ----

fn pair(key: &str, value: &str) -> QueryPair {
    QueryPair { key: key.to_string(), value: value.to_string() }
}

#[test]
fn query_pairs_in_order() {
    assert_eq!(parse_query(""), vec![]);
    assert_eq!(parse_query("a=1"), vec![pair("a", "1")]);
    assert_eq!(parse_query("a=1&b=2&a=3"), vec![pair("a", "1"), pair("b", "2"), pair("a", "3")]);
    assert_eq!(parse_query("a"), vec![pair("a", "")]);
    assert_eq!(parse_query("a="), vec![pair("a", "")]);
    assert_eq!(parse_query("=1"), vec![pair("", "1")]);
    assert_eq!(parse_query("a=b=c"), vec![pair("a", "b=c")]);
    assert_eq!(parse_query("a=1&&b=2&"), vec![pair("a", "1"), pair("b", "2")]);
    assert_eq!(parse_query("a+b=c%26d"), vec![pair("a b", "c&d")]);
}

#[test]
fn lookup_takes_the_first_occurrence() {
    let given = parse_query("a=1&b=2&a=3");
    assert_eq!(lookup(&given, "a"), Some("1"));
    assert_eq!(lookup(&given, "b"), Some("2"));
    assert_eq!(lookup(&given, "c"), None);
}

#[test]
fn required_field_must_be_present() {
    let fields = vec![QueryFieldSpec::required("n", ParamType::Usize)];
    assert_eq!(bind_query(&fields, "n=4"), Ok(vec![Value::Usize(4)]));
    assert_eq!(bind_query(&fields, "m=4"), Err(BindMismatch));
    assert_eq!(bind_query(&fields, ""), Err(BindMismatch));
    assert_eq!(bind_query(&fields, "n=x"), Err(BindMismatch));
    assert_eq!(bind_query(&fields, "n=x&n=4"), Err(BindMismatch));
    assert_eq!(bind_query(&fields, "n=4&n=x"), Ok(vec![Value::Usize(4)]));
}

#[test]
fn optional_field_falls_back() {
    let fields = vec![
        QueryFieldSpec::optional("name", ParamType::Text),
        QueryFieldSpec::with_default("emoji", ParamType::Flag, "false").expect("the default decodes"),
        QueryFieldSpec::with_default("n", ParamType::Isize, "-1").expect("the default decodes"),
    ];
    assert_eq!(bind_query(&fields, ""), Ok(vec![Value::Missing, Value::Flag(false), Value::Isize(-1)]));
    assert_eq!(
        bind_query(&fields, "n=7&emoji=true&name=x"),
        Ok(vec![Value::Text("x".to_string()), Value::Flag(true), Value::Isize(7)])
    );
    assert_eq!(bind_query(&fields, "emoji=maybe"), Err(BindMismatch));
    assert_eq!(bind_query(&fields, "n="), Err(BindMismatch));
}

#[test]
fn a_flag_without_a_default_is_not_false_when_absent() {
    let required = vec![QueryFieldSpec::required("emoji", ParamType::Flag)];
    assert_eq!(bind_query(&required, ""), Err(BindMismatch));
    let optional = vec![QueryFieldSpec::optional("emoji", ParamType::Flag)];
    assert_eq!(bind_query(&optional, ""), Ok(vec![Value::Missing]));
}

#[test]
fn default_must_decode_to_the_type() {
    let refused = QueryFieldSpec::with_default("emoji", ParamType::Flag, "perhaps");
    assert_eq!(refused.err(), Some(PatternError::DefaultMismatch));
    let refused = QueryFieldSpec::with_default("n", ParamType::Usize, "-1");
    assert_eq!(refused.err(), Some(PatternError::DefaultMismatch));
    assert!(QueryFieldSpec::with_default("t", ParamType::Text, "").is_ok());
}

// ---- ranking and dispatch ----

fn users(order: &[usize]) -> Registry {
    let mut routes = Vec::new();
    for which in order {
        routes.push(match which {
            0 => route("/user/<id>", Some(ParamType::Usize), None, Handler::UserUsize),
            1 => route("/user/<id>", Some(ParamType::Isize), Some(2), Handler::UserInt),
            _ => route("/user/<id>", Some(ParamType::Text), Some(3), Handler::UserStr),
        });
    }
    registry(routes)
}

fn handler_and_args(resolution: Resolution) -> Option<(Handler, Vec<Value>)> {
    match resolution {
        Resolution::Dispatched { handler, args, .. } => Some((handler, args)),
        Resolution::NotFound => None,
    }
}

#[test]
fn route_rank_is_explicit_or_derived() {
    assert_eq!(route("/user/<id>", None, None, Handler::UserStr).rank(), 1);
    assert_eq!(route("/user/<id>", None, Some(-7), Handler::UserStr).rank(), -7);
    assert_eq!(route("/user/<id>", None, Some(i64::MAX), Handler::UserStr).rank(), i64::MAX as i128);
    assert_eq!(route("/a/b", None, None, Handler::Index).rank(), 0);
    assert_eq!(route("/a/<_>", None, None, Handler::Index).rank(), 2);
}

#[test]
fn candidates_are_ordered_by_rank_then_registration() {
    let reg = registry(vec![
        route("/user/<id>", None, Some(5), Handler::UserStr),
        route("/user/<id>", None, Some(1), Handler::UserInt),
        route("/other", None, None, Handler::World),
        route("/user/<id>", None, Some(5), Handler::UserUsize),
        route("/user/<_>", None, None, Handler::IgnorePart),
        route("/<a>/<id>", None, Some(1), Handler::Hello),
    ]);
    let parts = strings(&["user", "9"]);
    let list = reg.candidates(Method::Get, &parts);
    let order: Vec<(usize, i128)> = list.iter().map(|c| (c.route, c.rank)).collect();
    assert_eq!(order, vec![(1, 1), (5, 1), (4, 2), (0, 5), (3, 5)]);
    assert!(reg.candidates(Method::Post, &parts).is_empty());
    assert!(reg.candidates(Method::Get, &strings(&["user"])).is_empty());
    assert_eq!(reg.len(), 6);
}

#[test]
fn candidates_come_from_every_mount() {
    let under = |mount: &str, rank: i64| {
        RouteDefinition::compile(Method::Get, mount, "/<rest..>", &vec![], None, Some(rank), Handler::Hello)
            .expect("compiles")
    };
    let reg = registry(vec![under("/a/b", 3), under("/a", 2), under("/", 1), under("/x", 0)]);
    let list = reg.candidates(Method::Get, &strings(&["a", "b", "c"]));
    let found: Vec<(usize, String)> = list.iter().map(|c| (c.route, c.captures[0].value.clone())).collect();
    assert_eq!(found, vec![(2, "a/b/c".to_string()), (1, "b/c".to_string()), (0, "c".to_string())]);
}

#[test]
fn lowest_rank_that_binds_answers() {
    let reg = users(&[0, 1, 2]);
    assert_eq!(handler_and_args(reg.resolve(Method::Get, "/user/42", "")), Some((Handler::UserUsize, vec![Value::Usize(42)])));
    assert_eq!(handler_and_args(reg.resolve(Method::Get, "/user/-5", "")), Some((Handler::UserInt, vec![Value::Isize(-5)])));
    assert_eq!(handler_and_args(reg.resolve(Method::Get, "/user/abc", "")), Some((Handler::UserStr, vec![Value::Text("abc".to_string())])));
    assert_eq!(handler_and_args(reg.resolve(Method::Get, "/user", "")), None);
    assert_eq!(handler_and_args(reg.resolve(Method::Post, "/user/42", "")), None);
}

#[test]
fn later_candidates_are_not_tried_after_a_bind() {
    let reg = registry(vec![
        route("/n/<id>", Some(ParamType::Text), Some(1), Handler::UserStr),
        route("/n/<id>", Some(ParamType::Usize), Some(2), Handler::UserUsize),
    ]);
    assert_eq!(
        reg.resolve(Method::Get, "/n/42", ""),
        Resolution::Dispatched { route: 0, handler: Handler::UserStr, args: vec![Value::Text("42".to_string())] }
    );
}

#[test]
fn exhausted_candidates_are_not_found() {
    let reg = registry(vec![
        route("/n/<id>", Some(ParamType::Usize), None, Handler::UserUsize),
        route("/n/<id>", Some(ParamType::Isize), Some(2), Handler::UserInt),
    ]);
    assert_eq!(reg.resolve(Method::Get, "/n/abc", ""), Resolution::NotFound);
    assert_eq!(registry(vec![]).resolve(Method::Get, "/", ""), Resolution::NotFound);
}

#[test]
fn order_of_registration_does_not_matter_with_distinct_ranks() {
    let orders: [[usize; 3]; 6] = [[0, 1, 2], [0, 2, 1], [1, 0, 2], [1, 2, 0], [2, 0, 1], [2, 1, 0]];
    for path in ["/user/42", "/user/-5", "/user/abc", "/user/", "/nope"] {
        let expected = handler_and_args(users(&orders[0]).resolve(Method::Get, path, ""));
        for order in &orders[1..] {
            assert_eq!(handler_and_args(users(order).resolve(Method::Get, path, "")), expected);
        }
    }
}

#[test]
fn ties_go_to_the_route_registered_first() {
    let first = registry(vec![
        route("/n/<id>", Some(ParamType::Text), Some(4), Handler::UserStr),
        route("/n/<id>", Some(ParamType::Text), Some(4), Handler::Hello),
    ]);
    let second = registry(vec![
        route("/n/<id>", Some(ParamType::Text), Some(4), Handler::Hello),
        route("/n/<id>", Some(ParamType::Text), Some(4), Handler::UserStr),
    ]);
    assert_eq!(handler_and_args(first.resolve(Method::Get, "/n/x", "")).map(|r| r.0), Some(Handler::UserStr));
    assert_eq!(handler_and_args(second.resolve(Method::Get, "/n/x", "")).map(|r| r.0), Some(Handler::Hello));
}

#[test]
fn a_stricter_pattern_is_tried_before_a_looser_one() {
    let reg = registry(vec![
        route("/<a>/<_>", None, None, Handler::IgnorePart),
        route("/<a>/<id>", None, None, Handler::Hello),
        route("/n/<id>", None, None, Handler::UserStr),
        route("/n/x", None, None, Handler::World),
    ]);
    let list = reg.candidates(Method::Get, &strings(&["n", "x"]));
    let order: Vec<usize> = list.iter().map(|c| c.route).collect();
    assert_eq!(order, vec![3, 2, 1, 0]);
}

#[test]
fn resolving_twice_gives_the_same_resolution() {
    let reg = users(&[2, 0, 1]);
    for path in ["/user/42", "/user/-5", "/user/abc", "/none"] {
        assert_eq!(reg.resolve(Method::Get, path, "a=b"), reg.resolve(Method::Get, path, "a=b"));
    }
}

#[test]
fn query_mismatch_rejects_the_candidate() {
    let with_query = |ty: TypeDecl, rank: i64, handler: Handler| {
        RouteDefinition::compile(
            Method::Get,
            "/",
            "/find",
            &vec![],
            Some(&vec![FieldDecl::required("q", ty)]),
            Some(rank),
            handler,
        )
        .expect("compiles")
    };
    let reg = registry(vec![
        with_query(TypeDecl::Usize, 1, Handler::UserUsize),
        with_query(TypeDecl::Text, 2, Handler::UserStr),
    ]);
    assert_eq!(handler_and_args(reg.resolve(Method::Get, "/find", "q=7")), Some((Handler::UserUsize, vec![Value::Usize(7)])));
    assert_eq!(handler_and_args(reg.resolve(Method::Get, "/find", "q=seven")), Some((Handler::UserStr, vec![Value::Text("seven".to_string())])));
    assert_eq!(handler_and_args(reg.resolve(Method::Get, "/find", "")), None);
}

#[test]
fn path_values_come_before_query_values() {
    let found = RouteDefinition::compile(
        Method::Get,
        "/shop",
        "/item/<id>",
        &vec![ParamDecl::new("id", ParamType::U64)],
        Some(&vec![FieldDecl::optional("colour", TypeDecl::Text)]),
        None,
        Handler::Hello,
    )
    .expect("compiles");
    assert_eq!(found.method(), Method::Get);
    assert_eq!(found.handler(), Handler::Hello);
    assert_eq!(found.pattern().segments().len(), 2);
    let parts = strings(&["shop", "item", "3"]);
    let captures = found.matches(Method::Get, &parts).expect("matches");
    let given = parse_query("colour=red");
    assert_eq!(found.bind(&captures, &given), Ok(vec![Value::U64(3), Value::Text("red".to_string())]));
    assert!(found.matches(Method::Get, &strings(&["item", "3"])).is_none());
    assert!(found.matches(Method::Get, &strings(&["shop"])).is_none());
    assert!(found.matches(Method::Put, &parts).is_none());
}

#[test]
fn integers_read_as_the_standard_parser_reads_them() {
    let samples = [
        "", "0", "1", "42", "+42", "-42", "+", "-", "++1", "--1", "+-1", "-+1", "007", "-007", "1_000",
        "1e3", "0x10", " 1", "1 ", "1.0", "٣", "１２", "18446744073709551615", "18446744073709551616",
        "9223372036854775807", "9223372036854775808", "-9223372036854775808", "-9223372036854775809",
        "00000000000000000000000000000000000000018446744073709551615", "-0", "+0", "abc", "12abc",
    ];
    for sample in samples {
        assert_eq!(parse_unsigned(sample, u64::MAX), sample.parse::<u64>().ok(), "unsigned {:?}", sample);
        assert_eq!(parse_signed(sample, i64::MIN, i64::MAX), sample.parse::<i64>().ok(), "signed {:?}", sample);
        assert_eq!(parse_unsigned(sample, 255), sample.parse::<u8>().ok().map(u64::from), "byte {:?}", sample);
        assert_eq!(parse_signed(sample, -128, 127), sample.parse::<i8>().ok().map(i64::from), "small {:?}", sample);
    }
}

#[test]
fn numbers_are_written_as_the_standard_formatter_writes_them() {
    for n in [0u64, 1, 9, 10, 11, 99, 100, 101, 999, 1000, 65535, 4294967295, 4294967296, u64::MAX - 1, u64::MAX] {
        let mut out = String::new();
        push_decimal(&mut out, n);
        assert_eq!(out, n.to_string());
    }
}

// ---- declarations ----

fn spellings() -> Vec<Alias> {
    vec![Alias::new("en", 0), Alias::new("uk-UA", 1), Alias::new("uk", 1)]
}

#[test]
fn declared_types_compile_to_types() {
    assert!(matches!(compile_type(&TypeDecl::Usize), Ok(ParamType::Usize)));
    assert!(matches!(compile_type(&TypeDecl::Isize), Ok(ParamType::Isize)));
    assert!(matches!(compile_type(&TypeDecl::U64), Ok(ParamType::U64)));
    assert!(matches!(compile_type(&TypeDecl::Text), Ok(ParamType::Text)));
    assert!(matches!(compile_type(&TypeDecl::Flag), Ok(ParamType::Flag)));
    let choice = compile_type(&TypeDecl::Choice(spellings())).expect("the spellings differ");
    assert_eq!(bind_value(&choice, "uk-UA"), Ok(Value::Choice(1)));
    assert_eq!(bind_value(&choice, "en"), Ok(Value::Choice(0)));
    assert_eq!(bind_value(&choice, "de"), Err(BindMismatch));
    let twice = TypeDecl::Choice(vec![Alias::new("a", 0), Alias::new("a", 1)]);
    assert_eq!(compile_type(&twice).err(), Some(PatternError::DuplicateAlias));
}

#[test]
fn declared_fields_compile_to_field_specs() {
    let decls = vec![
        FieldDecl::optional("lang", TypeDecl::Choice(spellings())),
        FieldDecl::with_default("emoji", TypeDecl::Flag, "false"),
        FieldDecl::optional("name", TypeDecl::Text),
        FieldDecl::required("n", TypeDecl::Usize),
    ];
    let fields = compile_fields(&decls).expect("the declarations compile");
    assert_eq!(
        bind_query(&fields, "n=1"),
        Ok(vec![Value::Missing, Value::Flag(false), Value::Missing, Value::Usize(1)])
    );
    assert_eq!(
        bind_query(&fields, "n=1&lang=uk&emoji=True&name=x"),
        Ok(vec![Value::Choice(1), Value::Flag(true), Value::Text("x".to_string()), Value::Usize(1)])
    );
    assert_eq!(bind_query(&fields, ""), Err(BindMismatch));
    assert_eq!(compile_fields(&vec![]).map(|fields| fields.len()), Ok(0));
}

#[test]
fn a_default_that_does_not_decode_is_refused() {
    let bad = FieldDecl::with_default("emoji", TypeDecl::Flag, "often");
    assert_eq!(compile_field(&bad).err(), Some(PatternError::DefaultMismatch));
    let unknown = FieldDecl::with_default("lang", TypeDecl::Choice(spellings()), "de");
    assert_eq!(compile_field(&unknown).err(), Some(PatternError::DefaultMismatch));
    let known = FieldDecl::with_default("lang", TypeDecl::Choice(spellings()), "uk");
    let field = compile_field(&known).expect("the default is a spelling");
    assert_eq!(bind_query(&vec![field], ""), Ok(vec![Value::Choice(1)]));
}

#[test]
fn the_default_of_a_required_field_is_dropped() {
    let decl = FieldDecl {
        name: "n".to_string(),
        ty: TypeDecl::Usize,
        optional: false,
        default: Some("not a number".to_string()),
    };
    let field = compile_field(&decl).expect("the default is not looked at");
    assert_eq!(bind_query(&vec![field], ""), Err(BindMismatch));
}

#[test]
fn the_first_declaration_that_fails_is_reported() {
    let alias_first = vec![
        FieldDecl::required("ok", TypeDecl::Text),
        FieldDecl::required("a", TypeDecl::Choice(vec![Alias::new("x", 0), Alias::new("x", 0)])),
        FieldDecl::with_default("b", TypeDecl::Usize, "-1"),
    ];
    assert_eq!(compile_fields(&alias_first).err(), Some(PatternError::DuplicateAlias));
    let default_first = vec![
        FieldDecl::with_default("b", TypeDecl::Usize, "-1"),
        FieldDecl::required("a", TypeDecl::Choice(vec![Alias::new("x", 0), Alias::new("x", 0)])),
    ];
    assert_eq!(compile_fields(&default_first).err(), Some(PatternError::DefaultMismatch));
    let both_in_one = vec![FieldDecl::with_default(
        "a",
        TypeDecl::Choice(vec![Alias::new("x", 0), Alias::new("x", 0)]),
        "y",
    )];
    assert_eq!(compile_fields(&both_in_one).err(), Some(PatternError::DuplicateAlias));
}

#[test]
fn a_route_is_refused_for_its_template_before_its_fields() {
    let bad_fields = vec![FieldDecl::with_default("b", TypeDecl::Usize, "-1")];
    let template_first = RouteDefinition::compile(
        Method::Get,
        "/",
        "/<a..>/<b..>",
        &vec![],
        Some(&bad_fields),
        None,
        Handler::Index,
    );
    assert_eq!(template_first.err(), Some(PatternError::MultipleWildcards));
    let fields_then = RouteDefinition::compile(
        Method::Get,
        "/",
        "/a",
        &vec![],
        Some(&bad_fields),
        None,
        Handler::Index,
    );
    assert_eq!(fields_then.err(), Some(PatternError::DefaultMismatch));
}
