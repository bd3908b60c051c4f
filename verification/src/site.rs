//! The site: its table of routes, and the invocation of a handler with the arguments that
//! the dispatcher bound for it.

use vstd::prelude::*;
use vstd::string::*;
use rocket::http::CookieJar;
use crate::cookies::{cookie_lines, cookie_message, cookies, jar_cookies, lists, CrumbView};
use crate::dispatch::{resolution, Resolution, ResolutionView};
use crate::handlers::{
    blocking_task, delay, delayed, greet, greeting_text, hello, ignore_everything, ignore_part,
    index, user_int, user_str, user_usize, world, Lang, Options,
};
use crate::decode::{plain_field, plain_token};
use crate::matcher::request_tokens;
use crate::number::{decimal, signed_decimal};
use crate::pattern::{
    compiled, path_tokens, lemma_template_compiles, lemma_template_without_dot_compiles, segment_of, ParamDecl,
    ParamDeclView, SegmentView,
};
use crate::error::PatternError;
use crate::form::{compiled_field, compiled_fields, FieldDecl, FieldDeclView, TypeDecl, TypeDeclView};
use crate::query::{plain_pairs, query_pairs, QueryFieldView};
use crate::registry::{Registry, RegistryBuilder};
use crate::reply::{Action, ActionView, Reply, ReplyView};
use crate::route::{route_view, Handler, Method, RouteDefinition, RouteView};
use crate::text::views;
use crate::value::{alias_map, Alias, AliasView, ParamType, ParamTypeView, Value, ValueView};

verus! {

/// The action that sends a body of text.
pub open spec fn text(body: Seq<char>) -> ActionView {
    ActionView::Respond(ReplyView::Text(body))
}

/// The action for a handler that was given arguments that it does not take.
pub open spec fn misfit() -> ActionView {
    ActionView::Respond(ReplyView::ServerError)
}

/// The language that an argument selects: the variants of the enumeration are numbered in
/// the order English, Ukrainian, and an argument that is missing selects none.
pub open spec fn lang_arg(arg: ValueView) -> Option<Option<Lang>> {
    match arg {
        ValueView::Choice(0) => Some(Some(Lang::English)),
        ValueView::Choice(1) => Some(Some(Lang::Ukrainian)),
        ValueView::Missing => Some(None),
        _ => None,
    }
}

/// The name that an argument gives, if it is a text or is missing.
pub open spec fn name_arg(arg: ValueView) -> Option<Option<Seq<char>>> {
    match arg {
        ValueView::Text(name) => Some(Some(name)),
        ValueView::Missing => Some(None),
        _ => None,
    }
}

/// What a handler other than `Cookies` does with its arguments.
pub open spec fn outcome(
    handler: Handler,
    args: Seq<ValueView>,
    cookies: Map<Seq<char>, Seq<char>>,
) -> ActionView {
    match handler {
        Handler::Index => if args.len() == 0 {
            text("Hello, world!"@)
        } else {
            misfit()
        },
        Handler::World => if args.len() == 0 {
            text("Other world!"@)
        } else {
            misfit()
        },
        Handler::Hello => if args.len() == 1 && args[0] is Text {
            text("Hello, "@ + args[0]->Text_0 + "!"@)
        } else {
            misfit()
        },
        Handler::Delay => if args.len() == 1 && args[0] is U64 {
            delayed(args[0]->U64_0)
        } else {
            misfit()
        },
        Handler::BlockingTask => if args.len() == 0 {
            ActionView::ReadFile { path: "data.txt"@ }
        } else {
            misfit()
        },
        Handler::IgnorePart => if args.len() == 0 {
            text("Foo _____ bar!"@)
        } else {
            misfit()
        },
        Handler::IgnoreEverything => if args.len() == 0 {
            text("Hey, you're here."@)
        } else {
            misfit()
        },
        Handler::UserUsize => if args.len() == 1 && args[0] is Usize {
            text("User "@ + decimal(args[0]->Usize_0 as nat) + "!"@)
        } else {
            misfit()
        },
        Handler::UserInt => if args.len() == 1 && args[0] is Isize {
            text("User "@ + signed_decimal(args[0]->Isize_0 as int) + "!"@)
        } else {
            misfit()
        },
        Handler::UserStr => if args.len() == 1 && args[0] is Text {
            text("User "@ + args[0]->Text_0 + "!"@)
        } else {
            misfit()
        },
        Handler::CookieMessage => if args.len() == 0 {
            if cookies.contains_key("message"@) {
                text("Message: "@ + cookies["message"@])
            } else {
                ActionView::Respond(ReplyView::NotFound)
            }
        } else {
            misfit()
        },
        Handler::Cookies => misfit(),
        Handler::Greet => if args.len() == 3 && lang_arg(args[0]) is Some && args[1] is Flag
            && name_arg(args[2]) is Some {
            text(greeting_text(lang_arg(args[0])->0, args[1]->Flag_0, name_arg(args[2])->0))
        } else {
            misfit()
        },
    }
}

/// Whether `action` is what the handler does with its arguments. `Cookies` lists the
/// cookies in the order in which the jar hands them out, which is not determined; every
/// other handler has one outcome.
pub open spec fn answers(
    handler: Handler,
    args: Seq<ValueView>,
    cookies: Map<Seq<char>, Seq<char>>,
    action: ActionView,
) -> bool {
    if handler == Handler::Cookies && args.len() == 0 {
        exists|entries: Seq<CrumbView>| #[trigger]
            lists(entries, cookies) && action == text(cookie_lines(entries))
    } else {
        action == outcome(handler, args, cookies)
    }
}

fn say(body: &str) -> (action: Action)
    ensures
        action@ == text(body@),
{
    Action::Respond(Reply::Text(String::from_str(body)))
}

fn refuse() -> (action: Action)
    ensures
        action@ == misfit(),
{
    Action::Respond(Reply::ServerError)
}

/// Calls `greet` with the three arguments bound for it.
fn invoke_greet(args: &Vec<Value>) -> (action: Action)
    requires
        args.len() == 3,
    ensures
        action@ == outcome(Handler::Greet, views(args@), Map::empty()),
{
    let ghost all = views(args@);
    assert(all[0] == args@[0]@ && all[1] == args@[1]@ && all[2] == args@[2]@);
    let lang = match &args[0] {
        Value::Choice(0) => Some(Lang::English),
        Value::Choice(1) => Some(Lang::Ukrainian),
        Value::Missing => None,
        _ => {
            return refuse();
        },
    };
    let emoji = match &args[1] {
        Value::Flag(b) => *b,
        _ => {
            return refuse();
        },
    };
    let name = match &args[2] {
        Value::Text(name) => Some(name.as_str()),
        Value::Missing => None,
        _ => {
            return refuse();
        },
    };
    Action::Respond(Reply::Text(greet(lang, Options { emoji, name })))
}

/// Calls the handler with the arguments bound for it and the cookies of the request.
pub fn invoke(handler: Handler, args: &Vec<Value>, jar: &CookieJar<'_>) -> (action: Action)
    ensures
        answers(handler, views(args@), jar_cookies(jar), action@),
{
    let ghost all = views(args@);
    proof {
        if args.len() > 0 {
            assert(all[0] == args@[0]@);
        }
    }
    match handler {
        Handler::Index => if args.len() == 0 {
            say(index())
        } else {
            refuse()
        },
        Handler::World => if args.len() == 0 {
            say(world())
        } else {
            refuse()
        },
        Handler::Hello => {
            if args.len() != 1 {
                return refuse();
            }
            match &args[0] {
                Value::Text(name) => Action::Respond(Reply::Text(hello(name.as_str()))),
                _ => refuse(),
            }
        },
        Handler::Delay => {
            if args.len() != 1 {
                return refuse();
            }
            match &args[0] {
                Value::U64(seconds) => delay(*seconds),
                _ => refuse(),
            }
        },
        Handler::BlockingTask => if args.len() == 0 {
            blocking_task()
        } else {
            refuse()
        },
        Handler::IgnorePart => if args.len() == 0 {
            say(ignore_part())
        } else {
            refuse()
        },
        Handler::IgnoreEverything => if args.len() == 0 {
            say(ignore_everything())
        } else {
            refuse()
        },
        Handler::UserUsize => {
            if args.len() != 1 {
                return refuse();
            }
            match &args[0] {
                Value::Usize(id) => Action::Respond(Reply::Text(user_usize(*id))),
                _ => refuse(),
            }
        },
        Handler::UserInt => {
            if args.len() != 1 {
                return refuse();
            }
            match &args[0] {
                Value::Isize(id) => Action::Respond(Reply::Text(user_int(*id))),
                _ => refuse(),
            }
        },
        Handler::UserStr => {
            if args.len() != 1 {
                return refuse();
            }
            match &args[0] {
                Value::Text(id) => Action::Respond(Reply::Text(user_str(id.as_str()))),
                _ => refuse(),
            }
        },
        Handler::CookieMessage => {
            if args.len() != 0 {
                return refuse();
            }
            match cookie_message(jar) {
                Some(body) => Action::Respond(Reply::Text(body)),
                None => Action::Respond(Reply::NotFound),
            }
        },
        Handler::Cookies => {
            if args.len() != 0 {
                return refuse();
            }
            Action::Respond(Reply::Text(cookies(jar)))
        },
        Handler::Greet => {
            if args.len() != 3 {
                return refuse();
            }
            invoke_greet(args)
        },
    }
}

/// Whether `action` is what follows from the resolution of a request: what the handler of
/// the route that answers does with its arguments, and not found if no route answers.
pub open spec fn answers_resolution(
    resolved: ResolutionView,
    cookies: Map<Seq<char>, Seq<char>>,
    action: ActionView,
) -> bool {
    match resolved {
        ResolutionView::Dispatched { handler, args, .. } => answers(handler, args, cookies, action),
        ResolutionView::NotFound => action == ActionView::Respond(ReplyView::NotFound),
    }
}

/// Answers a request: resolves it against the registry and calls the handler of the route
/// that answers. A request that no route answers is not found.
pub fn respond(registry: &Registry, method: Method, path: &str, query: &str, jar: &CookieJar<'_>) -> (action:
    Action)
    ensures
        answers_resolution(
            resolution(registry@, method, request_tokens(path@), query_pairs(query@)),
            jar_cookies(jar),
            action@,
        ),
        plain_token(path@) && plain_field(query@) ==> answers_resolution(
            resolution(registry@, method, path_tokens(path@), plain_pairs(query@)),
            jar_cookies(jar),
            action@,
        ),
{
    match registry.resolve(method, path, query) {
        Resolution::Dispatched { handler, args, .. } => invoke(handler, &args, jar),
        Resolution::NotFound => Action::Respond(Reply::NotFound),
    }
}

/// The spellings of the languages.
pub open spec fn lang_aliases() -> Seq<AliasView> {
    seq![
        AliasView { text: "en"@, variant: 0 },
        AliasView { text: "uk-UA"@, variant: 1 },
        AliasView { text: "uk"@, variant: 1 },
    ]
}

/// The fields that `greet` declares for the query string.
pub open spec fn greet_declarations() -> Seq<FieldDeclView> {
    seq![
        FieldDeclView {
            name: "lang"@,
            ty: TypeDeclView::Choice(lang_aliases()),
            optional: true,
            default: None,
        },
        FieldDeclView {
            name: "emoji"@,
            ty: TypeDeclView::Flag,
            optional: true,
            default: Some("false"@),
        },
        FieldDeclView { name: "name"@, ty: TypeDeclView::Text, optional: true, default: None },
    ]
}

/// The fields that `greet` takes from the query string.
pub open spec fn greet_fields() -> Seq<QueryFieldView> {
    seq![
        QueryFieldView {
            name: "lang"@,
            ty: ParamTypeView::Choice(alias_map(lang_aliases())),
            optional: true,
            default: None,
        },
        QueryFieldView {
            name: "emoji"@,
            ty: ParamTypeView::Flag,
            optional: true,
            default: Some(ValueView::Flag(false)),
        },
        QueryFieldView { name: "name"@, ty: ParamTypeView::Text, optional: true, default: None },
    ]
}

/// A route of the site that takes nothing from the query string: all are for `GET` and
/// mounted at the root.
pub open spec fn plain(
    template: Seq<char>,
    params: Seq<ParamDeclView>,
    rank: Option<i64>,
    handler: Handler,
) -> RouteView {
    route_view(Method::Get, "/"@, template, params, None, rank, handler)
}

/// The declaration of one parameter.
pub open spec fn one(name: Seq<char>, ty: ParamTypeView) -> Seq<ParamDeclView> {
    seq![ParamDeclView { name, ty }]
}

/// The routes of the site, in the order of their registration.
pub open spec fn site_routes() -> Seq<RouteView> {
    seq![
        plain("/"@, Seq::empty(), None, Handler::Index),
        route_view(
            Method::Get,
            "/"@,
            "/greet"@,
            Seq::empty(),
            Some(greet_fields()),
            None,
            Handler::Greet,
        ),
        plain("/world"@, Seq::empty(), None, Handler::World),
        plain("/hello/<name>"@, one("name"@, ParamTypeView::Text), None, Handler::Hello),
        plain("/delay/<seconds>"@, one("seconds"@, ParamTypeView::U64), None, Handler::Delay),
        plain("/blocking_task"@, Seq::empty(), None, Handler::BlockingTask),
        plain("/cookie_message"@, Seq::empty(), None, Handler::CookieMessage),
        plain("/cookies"@, Seq::empty(), None, Handler::Cookies),
        plain("/foo/<_>/bar"@, Seq::empty(), None, Handler::IgnorePart),
        plain("/ignore_everything_after/<_..>"@, Seq::empty(), None, Handler::IgnoreEverything),
        plain("/user/<id>"@, one("id"@, ParamTypeView::Usize), None, Handler::UserUsize),
        plain("/user/<id>"@, one("id"@, ParamTypeView::Isize), Some(2), Handler::UserInt),
        plain("/user/<id>"@, one("id"@, ParamTypeView::Text), Some(3), Handler::UserStr),
    ]
}

/// The spellings of the languages differ from one another.
proof fn lemma_lang_aliases_differ()
    ensures
        crate::value::unambiguous(lang_aliases()),
{
    reveal_strlit("en");
    reveal_strlit("uk-UA");
    reveal_strlit("uk");
    let aliases = lang_aliases();
    assert(aliases[0].text.len() != aliases[1].text.len());
    assert(aliases[0].text[0] != aliases[2].text[0]);
    assert(aliases[1].text.len() != aliases[2].text.len());
}

/// The default of `emoji` decodes to `false`.
proof fn lemma_emoji_default()
    ensures
        crate::value::bound(ParamTypeView::Flag, "false"@) == Some(ValueView::Flag(false)),
{
    reveal_strlit("true");
    reveal_strlit("false");
    let lowered = "false"@.map_values(|c: char| crate::value::lowered(c));
    assert(lowered =~= "false"@);
    assert(lowered.len() != "true"@.len());
}

/// The templates of the site compile, whatever is declared for their parameters.
proof fn lemma_site_templates_compile(decls: Seq<ParamDeclView>)
    ensures
        compiled("/"@, decls) is Ok,
        compiled("/greet"@, decls) is Ok,
        compiled("/world"@, decls) is Ok,
        compiled("/hello/<name>"@, decls) is Ok,
        compiled("/delay/<seconds>"@, decls) is Ok,
        compiled("/blocking_task"@, decls) is Ok,
        compiled("/cookie_message"@, decls) is Ok,
        compiled("/cookies"@, decls) is Ok,
        compiled("/foo/<_>/bar"@, decls) is Ok,
        compiled("/ignore_everything_after/<_..>"@, decls) is Ok,
        compiled("/user/<id>"@, decls) is Ok,
{
    reveal_strlit("/");
    reveal_strlit("/greet");
    reveal_strlit("/world");
    reveal_strlit("/hello/<name>");
    reveal_strlit("/delay/<seconds>");
    reveal_strlit("/blocking_task");
    reveal_strlit("/cookie_message");
    reveal_strlit("/cookies");
    reveal_strlit("/foo/<_>/bar");
    reveal_strlit("/user/<id>");
    lemma_template_without_dot_compiles("/"@, decls);
    lemma_template_without_dot_compiles("/greet"@, decls);
    lemma_template_without_dot_compiles("/world"@, decls);
    lemma_template_without_dot_compiles("/hello/<name>"@, decls);
    lemma_template_without_dot_compiles("/delay/<seconds>"@, decls);
    lemma_template_without_dot_compiles("/blocking_task"@, decls);
    lemma_template_without_dot_compiles("/cookie_message"@, decls);
    lemma_template_without_dot_compiles("/cookies"@, decls);
    lemma_template_without_dot_compiles("/foo/<_>/bar"@, decls);
    lemma_template_without_dot_compiles("/user/<id>"@, decls);
    lemma_trailing_template_compiles(decls);
}

/// The template that ends in an ignored wildcard compiles.
proof fn lemma_trailing_template_compiles(decls: Seq<ParamDeclView>)
    ensures
        compiled("/ignore_everything_after/<_..>"@, decls) is Ok,
{
    reveal_strlit("/ignore_everything_after/<_..>");
    let template = "/ignore_everything_after/<_..>"@;
    let head = template.take(24);
    let last = template.skip(25);
    assert(template =~= head + seq!['/'] + last);
    let inner = last.subrange(1, last.len() - 1);
    assert(inner.take(inner.len() - 2) =~= seq!['_']);
    assert(segment_of(last, decls) == SegmentView::TrailingIgnored);
    lemma_template_compiles(head, last, decls);
}

/// The fields that `greet` declares compile to the fields that it takes.
proof fn lemma_greet_fields_compile()
    ensures
        compiled_fields(greet_declarations()) == Ok::<Seq<QueryFieldView>, PatternError>(
            greet_fields(),
        ),
{
    lemma_lang_aliases_differ();
    lemma_emoji_default();
    let decls = greet_declarations();
    let two = decls.drop_last();
    let one = two.drop_last();
    assert(one.drop_last() == Seq::<FieldDeclView>::empty());
    assert(compiled_fields(one.drop_last()) == Ok::<Seq<QueryFieldView>, PatternError>(Seq::empty()));
    assert(one.last() == decls[0]);
    assert(two.last() == decls[1]);
    assert(decls.last() == decls[2]);
    let first = compiled_field(decls[0])->Ok_0;
    let second = compiled_field(decls[1])->Ok_0;
    let third = compiled_field(decls[2])->Ok_0;
    assert(compiled_fields(one) == Ok::<Seq<QueryFieldView>, PatternError>(
        Seq::<QueryFieldView>::empty().push(first),
    ));
    assert(compiled_fields(two) == Ok::<Seq<QueryFieldView>, PatternError>(
        Seq::<QueryFieldView>::empty().push(first).push(second),
    ));
    assert(Seq::<QueryFieldView>::empty().push(first).push(second).push(third) =~= greet_fields());
}

/// A route of the site that takes nothing from the query string.
fn plain_route(template: &str, params: &Vec<ParamDecl>, rank: Option<i64>, handler: Handler) -> (route:
    RouteDefinition)
    requires
        compiled(template@, views(params@)) is Ok,
    ensures
        route@ == plain(template@, views(params@), rank, handler),
{
    RouteDefinition::compile(Method::Get, "/", template, params, None, rank, handler).unwrap()
}

/// The declaration of one parameter.
fn one_param(name: &str, ty: ParamType) -> (params: Vec<ParamDecl>)
    ensures
        views(params@) == one(name@, ty@),
{
    let mut params: Vec<ParamDecl> = Vec::new();
    params.push(ParamDecl::new(name, ty));
    assert(views(params@) =~= one(name@, ty@));
    params
}

/// The fields that `greet` declares for the query string.
fn greet_query() -> (decls: Vec<FieldDecl>)
    ensures
        views(decls@) == greet_declarations(),
{
    let mut aliases: Vec<Alias> = Vec::new();
    aliases.push(Alias::new("en", 0));
    aliases.push(Alias::new("uk-UA", 1));
    aliases.push(Alias::new("uk", 1));
    assert(views(aliases@) =~= lang_aliases());
    let mut decls: Vec<FieldDecl> = Vec::new();
    decls.push(FieldDecl::optional("lang", TypeDecl::Choice(aliases)));
    decls.push(FieldDecl::with_default("emoji", TypeDecl::Flag, "false"));
    decls.push(FieldDecl::optional("name", TypeDecl::Text));
    assert(views(decls@) =~= greet_declarations());
    decls
}

/// Builds the registry of the site. Its templates are known to compile, so the site never
/// fails to start.
pub fn site() -> (registry: Registry)
    ensures
        registry@ == site_routes(),
{
    let none: Vec<ParamDecl> = Vec::new();
    let name = one_param("name", ParamType::Text);
    let seconds = one_param("seconds", ParamType::U64);
    let unsigned = one_param("id", ParamType::Usize);
    let signed = one_param("id", ParamType::Isize);
    let text = one_param("id", ParamType::Text);
    proof {
        assert(views(none@) =~= Seq::<ParamDeclView>::empty());
        lemma_site_templates_compile(views(none@));
        lemma_site_templates_compile(views(name@));
        lemma_site_templates_compile(views(seconds@));
        lemma_site_templates_compile(views(unsigned@));
        lemma_site_templates_compile(views(signed@));
        lemma_site_templates_compile(views(text@));
    }
    let mut builder = RegistryBuilder::new();
    builder.register(plain_route("/", &none, None, Handler::Index));
    let fields = greet_query();
    proof {
        lemma_greet_fields_compile();
    }
    builder.register(
        RouteDefinition::compile(
            Method::Get,
            "/",
            "/greet",
            &none,
            Some(&fields),
            None,
            Handler::Greet,
        ).unwrap(),
    );
    builder.register(plain_route("/world", &none, None, Handler::World));
    builder.register(plain_route("/hello/<name>", &name, None, Handler::Hello));
    builder.register(plain_route("/delay/<seconds>", &seconds, None, Handler::Delay));
    builder.register(plain_route("/blocking_task", &none, None, Handler::BlockingTask));
    builder.register(plain_route("/cookie_message", &none, None, Handler::CookieMessage));
    builder.register(plain_route("/cookies", &none, None, Handler::Cookies));
    builder.register(plain_route("/foo/<_>/bar", &none, None, Handler::IgnorePart));
    builder.register(
        plain_route("/ignore_everything_after/<_..>", &none, None, Handler::IgnoreEverything),
    );
    builder.register(plain_route("/user/<id>", &unsigned, None, Handler::UserUsize));
    builder.register(plain_route("/user/<id>", &signed, Some(2), Handler::UserInt));
    builder.register(plain_route("/user/<id>", &text, Some(3), Handler::UserStr));
    assert(builder@ =~= site_routes());
    builder.freeze()
}

} // verus!
