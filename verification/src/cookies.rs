//! The cookies of a request, read from the jar in which the listener delivers them.

use vstd::prelude::*;
use vstd::string::*;
use rocket::http::CookieJar;
use crate::text::views;

verus! {

#[verifier::external_type_specification]
#[verifier::external_body]
pub struct ExCookieJar<'a>(rocket::http::CookieJar<'a>);

/// The cookies that arrived with the request, as a mapping from each name to its value.
/// Changes that a handler makes to the jar are pending and do not show here.
pub uninterp spec fn jar_cookies(jar: &CookieJar<'_>) -> Map<Seq<char>, Seq<char>>;

/// A cookie, by name and value.
#[derive(Debug, PartialEq, Eq)]
pub struct Crumb {
    pub name: String,
    pub value: String,
}

/// The model of a `Crumb`.
pub struct CrumbView {
    pub name: Seq<char>,
    pub value: Seq<char>,
}

impl View for Crumb {
    type V = CrumbView;

    open spec fn view(&self) -> CrumbView {
        CrumbView { name: self.name@, value: self.value@ }
    }
}

/// Whether `entries` lists the cookies of `cookies`: each of them once, in some order, and
/// nothing else.
pub open spec fn lists(entries: Seq<CrumbView>, cookies: Map<Seq<char>, Seq<char>>) -> bool {
    &&& forall|i: int|
        0 <= i < entries.len() ==> cookies.contains_key((#[trigger] entries[i]).name)
            && cookies[entries[i].name] == entries[i].value
    &&& forall|i: int, j: int|
        0 <= i < j < entries.len() ==> (#[trigger] entries[i]).name != (#[trigger] entries[j]).name
    &&& forall|name: Seq<char>| #[trigger]
        cookies.contains_key(name) ==> exists|i: int|
            0 <= i < entries.len() && (#[trigger] entries[i]).name == name
}

/// `CookieJar::get` of rocket, followed by `Cookie::value`: the value of the cookie that
/// arrived under `name`, and `None` if none arrived under that name.
#[verifier::external_body]
fn jar_value(jar: &CookieJar<'_>, name: &str) -> (value: Option<String>)
    ensures
        match value {
            Some(v) => jar_cookies(jar).contains_key(name@) && jar_cookies(jar)[name@] == v@,
            None => !jar_cookies(jar).contains_key(name@),
        },
{
    jar.get(name).map(|crumb| crumb.value().to_string())
}

/// `CookieJar::iter` of rocket, with `Cookie::name` and `Cookie::value` of each item: the
/// cookies that arrived, each once. The jar keeps them in a hashed set, so nothing is
/// claimed of their order.
#[verifier::external_body]
fn jar_entries(jar: &CookieJar<'_>) -> (entries: Vec<Crumb>)
    ensures
        lists(views(entries@), jar_cookies(jar)),
{
    jar.iter().map(
        |crumb| Crumb { name: crumb.name().to_string(), value: crumb.value().to_string() },
    ).collect()
}

/// The line that shows one cookie.
pub open spec fn cookie_line(entry: CrumbView) -> Seq<char> {
    entry.name + ": "@ + entry.value
}

/// The lines of the cookies in the order given, with a comma and a space between
/// neighbours.
pub open spec fn cookie_lines(entries: Seq<CrumbView>) -> Seq<char>
    decreases entries.len(),
{
    if entries.len() == 0 {
        Seq::<char>::empty()
    } else if entries.len() == 1 {
        cookie_line(entries[0])
    } else {
        cookie_lines(entries.drop_last()) + ", "@ + cookie_line(entries.last())
    }
}

/// Writes out the cookies in the order given.
pub fn cookie_listing(entries: &Vec<Crumb>) -> (body: String)
    ensures
        body@ == cookie_lines(views(entries@)),
{
    let ghost all = views(entries@);
    let mut body = String::new();
    let mut i: usize = 0;
    while i < entries.len()
        invariant
            i <= entries.len(),
            all == views(entries@),
            body@ == cookie_lines(all.take(i as int)),
        decreases entries.len() - i,
    {
        proof {
            let next = all.take(i + 1);
            assert(next.drop_last() == all.take(i as int));
            assert(next.last() == entries@[i as int]@);
            if i == 0 {
                assert(next[0] == entries@[0]@);
            }
        }
        if i > 0 {
            body.append(", ");
        }
        body.append(entries[i].name.as_str());
        body.append(": ");
        body.append(entries[i].value.as_str());
        i += 1;
    }
    proof {
        assert(all.take(entries.len() as int) == all);
    }
    body
}

/// The message that the cookie `message` carries, if that cookie arrived.
pub fn cookie_message(cookies: &CookieJar<'_>) -> (r: Option<String>)
    ensures
        match r {
            Some(body) => jar_cookies(cookies).contains_key("message"@) && body@ == "Message: "@
                + jar_cookies(cookies)["message"@],
            None => !jar_cookies(cookies).contains_key("message"@),
        },
{
    match jar_value(cookies, "message") {
        Some(value) => {
            let mut body = String::from_str("Message: ");
            body.append(value.as_str());
            Some(body)
        },
        None => None,
    }
}

/// All the cookies that arrived, in the order in which the jar hands them out.
pub fn cookies(jar: &CookieJar<'_>) -> (body: String)
    ensures
        exists|entries: Seq<CrumbView>| #[trigger]
            lists(entries, jar_cookies(jar)) && body@ == cookie_lines(entries),
{
    let entries = jar_entries(jar);
    let body = cookie_listing(&entries);
    assert(lists(views(entries@), jar_cookies(jar)) && body@ == cookie_lines(views(entries@)));
    body
}

} // verus!
