//! Structural matching: whether the tokens of a path have the shape of a pattern, and what
//! the pattern captures from them.

use vstd::prelude::*;
use vstd::string::*;
use crate::decode::{percent_decode, percent_decoded, plain_token};
use crate::pattern::{
    is_trailing, path_tokens, tokens, well_formed, PathSegment, Pattern, SegmentView,
};
use crate::text::{join_from, joined, same, views};
use crate::value::{ParamType, ParamTypeView};

verus! {

/// A raw value captured from a path, with the name and the declared type of the segment
/// that captured it.
#[derive(Debug)]
pub struct Capture<'a> {
    pub name: &'a str,
    pub value: String,
    pub ty: &'a ParamType,
}

/// The model of a `Capture`.
pub struct CaptureView {
    pub name: Seq<char>,
    pub value: Seq<char>,
    pub ty: ParamTypeView,
}

impl<'a> View for Capture<'a> {
    type V = CaptureView;

    open spec fn view(&self) -> CaptureView {
        CaptureView { name: self.name@, value: self.value@, ty: self.ty@ }
    }
}

/// Whether a segment that stands for one token accepts `token`: a literal accepts the token
/// equal to it, a dynamic segment any token that is not empty.
pub open spec fn takes(segment: SegmentView, token: Seq<char>) -> bool {
    match segment {
        SegmentView::Literal { text } => text == token,
        SegmentView::Dynamic { .. } => token.len() > 0,
        SegmentView::DynamicIgnored => token.len() > 0,
        SegmentView::TrailingWildcard { .. } => false,
        SegmentView::TrailingIgnored => false,
    }
}

/// What a segment that stands for one token captures from `token`.
pub open spec fn capture_of(segment: SegmentView, token: Seq<char>) -> Seq<CaptureView> {
    match segment {
        SegmentView::Dynamic { name, ty } => seq![CaptureView { name, value: token, ty }],
        _ => Seq::<CaptureView>::empty(),
    }
}

/// What the segments from the `i`-th on capture from the tokens from the `i`-th on, if
/// those tokens have the shape of those segments. A trailing segment takes all the tokens
/// that are left, even if none is; without one, segments and tokens must run out together.
pub open spec fn captured_from(
    segments: Seq<SegmentView>,
    tokens: Seq<Seq<char>>,
    i: int,
) -> Option<Seq<CaptureView>>
    decreases segments.len() - i,
{
    if i < 0 || i > tokens.len() {
        None
    } else if i >= segments.len() {
        if tokens.len() == i {
            Some(Seq::<CaptureView>::empty())
        } else {
            None
        }
    } else {
        match segments[i] {
            SegmentView::TrailingWildcard { name, ty } => Some(
                seq![CaptureView { name, value: joined(tokens.skip(i), '/'), ty }],
            ),
            SegmentView::TrailingIgnored => Some(Seq::<CaptureView>::empty()),
            segment => if i < tokens.len() && takes(segment, tokens[i]) {
                match captured_from(segments, tokens, i + 1) {
                    Some(rest) => Some(capture_of(segment, tokens[i]) + rest),
                    None => None,
                }
            } else {
                None
            },
        }
    }
}

/// What a pattern captures from the tokens of a path: `None` if the tokens do not have the
/// shape of the pattern, else the captures in the order of their segments.
pub open spec fn captured(segments: Seq<SegmentView>, tokens: Seq<Seq<char>>) -> Option<
    Seq<CaptureView>,
> {
    captured_from(segments, tokens, 0)
}

/// The captures of a match, seen as model values.
pub open spec fn capture_views(r: Option<Vec<Capture<'_>>>) -> Option<Seq<CaptureView>> {
    match r {
        Some(captures) => Some(views(captures@)),
        None => None,
    }
}

/// Matching the same tokens against the same pattern gives the same captures.
pub proof fn lemma_match_is_repeatable(
    segments: Seq<SegmentView>,
    tokens: Seq<Seq<char>>,
    first: Option<Seq<CaptureView>>,
    second: Option<Seq<CaptureView>>,
)
    requires
        first == captured(segments, tokens),
        second == captured(segments, tokens),
    ensures
        first == second,
{
}

/// The number of segments that stand for one token each: all of them, or all but a
/// trailing one.
pub open spec fn fixed_count(segments: Seq<SegmentView>) -> int {
    if segments.len() > 0 && is_trailing(segments.last()) {
        segments.len() - 1
    } else {
        segments.len() as int
    }
}

/// Whether the tokens have the shape of the pattern. Without a trailing segment there must
/// be exactly as many tokens as segments; with one, at least as many as there are segments
/// before it. Each segment that stands for one token must accept the token in its place.
pub open spec fn has_shape(segments: Seq<SegmentView>, tokens: Seq<Seq<char>>) -> bool {
    let fixed = fixed_count(segments);
    &&& if fixed < segments.len() {
        tokens.len() >= fixed
    } else {
        tokens.len() == fixed
    }
    &&& forall|i: int| 0 <= i < fixed ==> takes(#[trigger] segments[i], tokens[i])
}

proof fn lemma_shape_from(segments: Seq<SegmentView>, tokens: Seq<Seq<char>>, i: int)
    requires
        well_formed(segments),
        0 <= i <= fixed_count(segments),
        i <= tokens.len(),
    ensures
        captured_from(segments, tokens, i) is Some <==> {
            &&& if fixed_count(segments) < segments.len() {
                tokens.len() >= fixed_count(segments)
            } else {
                tokens.len() == fixed_count(segments)
            }
            &&& forall|k: int| i <= k < fixed_count(segments) ==> takes(#[trigger] segments[k], tokens[k])
        },
    decreases segments.len() - i,
{
    let fixed = fixed_count(segments);
    if i < fixed {
        assert(!is_trailing(segments[i]));
        if i < tokens.len() {
            lemma_shape_from(segments, tokens, i + 1);
        }
    } else if i < segments.len() {
        assert(segments[i] == segments.last());
    }
}

/// A pattern captures from the tokens exactly if the tokens have its shape.
pub proof fn lemma_matches_by_shape(segments: Seq<SegmentView>, tokens: Seq<Seq<char>>)
    requires
        well_formed(segments),
    ensures
        captured(segments, tokens) is Some <==> has_shape(segments, tokens),
{
    lemma_shape_from(segments, tokens, 0);
}

/// Matches `tokens[skip..]` against `pattern`.
pub(crate) fn match_tokens_from<'a>(pattern: &'a Pattern, tokens: &Vec<String>, skip: usize) -> (r:
    Option<Vec<Capture<'a>>>)
    requires
        skip <= tokens.len(),
    ensures
        capture_views(r) == captured(pattern@, views(tokens@).skip(skip as int)),
{
    let segments = pattern.segments();
    let ghost segs = pattern@;
    let ghost toks = views(tokens@).skip(skip as int);
    let mut captures: Vec<Capture<'a>> = Vec::new();
    let mut i: usize = 0;
    assert(views(captures@) + Seq::<CaptureView>::empty() == Seq::<CaptureView>::empty());
    while i < segments.len()
        invariant
            i <= segments.len(),
            i <= toks.len(),
            skip <= tokens.len(),
            segs == views(segments@),
            segs == pattern@,
            toks == views(tokens@).skip(skip as int),
            captured(segs, toks) == (match captured_from(segs, toks, i as int) {
                Some(rest) => Some(views(captures@) + rest),
                None => None,
            }),
        decreases segments.len() - i,
    {
        let ghost before = views(captures@);
        assert(segs[i as int] == segments@[i as int]@);
        match &segments[i] {
            PathSegment::TrailingWildcard { name, ty } => {
                let value = join_from(tokens, skip + i, '/');
                assert(toks.skip(i as int) == views(tokens@).skip(skip + i));
                let capture = Capture { name: name.as_str(), value, ty };
                captures.push(capture);
                assert(views(captures@) == before + seq![capture@]);
                return Some(captures);
            },
            PathSegment::TrailingIgnored => {
                assert(before + Seq::<CaptureView>::empty() == before);
                return Some(captures);
            },
            PathSegment::Literal { text } => {
                if skip + i >= tokens.len() {
                    return None;
                }
                assert(toks[i as int] == tokens@[skip + i]@);
                if !same(text.as_str(), tokens[skip + i].as_str()) {
                    return None;
                }
                proof {
                    let rest = captured_from(segs, toks, i + 1);
                    if rest is Some {
                        assert(Seq::<CaptureView>::empty() + rest->0 == rest->0);
                    }
                }
            },
            PathSegment::DynamicIgnored => {
                if skip + i >= tokens.len() {
                    return None;
                }
                assert(toks[i as int] == tokens@[skip + i]@);
                if tokens[skip + i].as_str().unicode_len() == 0 {
                    return None;
                }
                proof {
                    let rest = captured_from(segs, toks, i + 1);
                    if rest is Some {
                        assert(Seq::<CaptureView>::empty() + rest->0 == rest->0);
                    }
                }
            },
            PathSegment::Dynamic { name, ty } => {
                if skip + i >= tokens.len() {
                    return None;
                }
                assert(toks[i as int] == tokens@[skip + i]@);
                if tokens[skip + i].as_str().unicode_len() == 0 {
                    return None;
                }
                let capture = Capture { name: name.as_str(), value: tokens[skip + i].clone(), ty };
                captures.push(capture);
                proof {
                    assert(views(captures@) == before + seq![capture@]);
                    let rest = captured_from(segs, toks, i + 1);
                    if rest is Some {
                        assert(before + (seq![capture@] + rest->0) == (before + seq![capture@]) + rest->0);
                    }
                }
            },
        }
        i += 1;
    }
    if skip + i == tokens.len() {
        assert(views(captures@) + Seq::<CaptureView>::empty() == views(captures@));
        Some(captures)
    } else {
        None
    }
}

/// The tokens of a request path: what stands between its slashes, each decoded.
pub open spec fn request_tokens(path: Seq<char>) -> Seq<Seq<char>> {
    path_tokens(path).map_values(|raw: Seq<char>| percent_decoded(raw))
}

/// Cuts a request path into its tokens and decodes each. The tokens of a path without
/// escapes are taken as they are written.
pub fn decoded_tokens(path: &str) -> (parts: Vec<String>)
    ensures
        views(parts@) == request_tokens(path@),
        plain_token(path@) ==> views(parts@) == path_tokens(path@),
{
    let raw = tokens(path);
    let ghost all = request_tokens(path@);
    let ghost written = path_tokens(path@);
    proof {
        if plain_token(path@) {
            crate::pattern::lemma_tokens_avoid(path@, '%');
        }
    }
    let mut parts: Vec<String> = Vec::new();
    let mut i: usize = 0;
    while i < raw.len()
        invariant
            i <= raw.len(),
            views(raw@) == written,
            written == path_tokens(path@),
            all == request_tokens(path@),
            views(parts@) == all.take(i as int),
            plain_token(path@) ==> views(parts@) == written.take(i as int),
            plain_token(path@) ==> forall|k: int|
                0 <= k < written.len() ==> plain_token(#[trigger] written[k]),
        decreases raw.len() - i,
    {
        let part = percent_decode(raw[i].as_str());
        let ghost before = views(parts@);
        proof {
            assert(written[i as int] == raw@[i as int]@);
            assert(part@ == all[i as int]);
        }
        parts.push(part);
        proof {
            assert(views(parts@) == before.push(all[i as int]));
            assert(all.take(i + 1) == all.take(i as int).push(all[i as int]));
            assert(written.take(i + 1) == written.take(i as int).push(written[i as int]));
        }
        i += 1;
    }
    proof {
        assert(all.take(raw.len() as int) == all);
        assert(written.take(raw.len() as int) == written);
    }
    parts
}

/// The structural matcher: matches the tokens of a path against a pattern.
pub fn match_tokens<'a>(pattern: &'a Pattern, tokens: &Vec<String>) -> (r: Option<Vec<Capture<'a>>>)
    ensures
        capture_views(r) == captured(pattern@, views(tokens@)),
{
    assert(views(tokens@).skip(0) == views(tokens@));
    match_tokens_from(pattern, tokens, 0)
}

/// Matches a request path against a pattern.
pub fn match_path<'a>(pattern: &'a Pattern, path: &str) -> (r: Option<Vec<Capture<'a>>>)
    ensures
        capture_views(r) == captured(pattern@, request_tokens(path@)),
        plain_token(path@) ==> capture_views(r) == captured(pattern@, path_tokens(path@)),
{
    let parts = decoded_tokens(path);
    match_tokens(pattern, &parts)
}

} // verus!
