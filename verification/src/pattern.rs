//! Path templates and the patterns they compile to.
//!
//! A template is a path whose tokens are either taken literally or written between `<` and
//! `>`: `<name>` captures one token, `<_>` accepts one token and drops it, `<name..>`
//! captures everything that is left, and `<_..>` accepts everything that is left and drops it.

use vstd::prelude::*;
use vstd::string::*;
use crate::error::PatternError;
use crate::text::{from_chars, pieces, same, split_chars, to_chars, views};
use crate::value::{ParamType, ParamTypeView};

verus! {

/// The tokens of a path: what stands between its slashes, after one leading slash if it has
/// one. The root path has no tokens.
pub open spec fn path_tokens(path: Seq<char>) -> Seq<Seq<char>> {
    let inner = if path.len() > 0 && path[0] == '/' { path.skip(1) } else { path };
    if inner.len() == 0 {
        Seq::<Seq<char>>::empty()
    } else {
        pieces(inner, '/')
    }
}

/// A character that a path does not hold is in none of its tokens.
pub proof fn lemma_tokens_avoid(path: Seq<char>, c: char)
    requires
        !path.contains(c),
    ensures
        forall|i: int|
            0 <= i < path_tokens(path).len() ==> !(#[trigger] path_tokens(path)[i]).contains(c),
{
    let inner = if path.len() > 0 && path[0] == '/' {
        path.skip(1)
    } else {
        path
    };
    assert(!inner.contains(c)) by {
        if inner.contains(c) {
            let k = choose|k: int| 0 <= k < inner.len() && inner[k] == c;
            if path.len() > 0 && path[0] == '/' {
                assert(path[k + 1] == c);
            } else {
                assert(path[k] == c);
            }
        }
    }
    if inner.len() > 0 {
        crate::text::lemma_pieces_avoid(inner, '/', c);
    }
}

/// Cuts a path into its tokens.
pub fn tokens(path: &str) -> (parts: Vec<String>)
    ensures
        views(parts@) == path_tokens(path@),
{
    let chars = to_chars(path);
    let from: usize = if chars.len() > 0 && chars[0] == '/' { 1 } else { 0 };
    proof {
        if from == 0 {
            assert(chars@.skip(0) == chars@);
        }
    }
    if from == chars.len() {
        let parts: Vec<String> = Vec::new();
        assert(views(parts@) == Seq::<Seq<char>>::empty());
        parts
    } else {
        split_chars(&chars, from, '/')
    }
}

/// The declared type of a named parameter of a path. The type is given compiled: an
/// enumeration by its alias table.
#[derive(Debug)]
pub struct ParamDecl {
    pub name: String,
    pub ty: ParamType,
}

/// The model of a `ParamDecl`.
pub struct ParamDeclView {
    pub name: Seq<char>,
    pub ty: ParamTypeView,
}

impl View for ParamDecl {
    type V = ParamDeclView;

    open spec fn view(&self) -> ParamDeclView {
        ParamDeclView { name: self.name@, ty: self.ty@ }
    }
}

impl ParamDecl {
    pub fn new(name: &str, ty: ParamType) -> (decl: ParamDecl)
        ensures
            decl@ == (ParamDeclView { name: name@, ty: ty@ }),
    {
        ParamDecl { name: String::from_str(name), ty }
    }
}

/// One segment of a compiled pattern.
#[derive(Debug)]
pub enum PathSegment {
    /// Matches the token that equals `text`.
    Literal { text: String },
    /// Matches any nonempty token and captures it under `name`.
    Dynamic { name: String, ty: ParamType },
    /// Matches any nonempty token and drops it.
    DynamicIgnored,
    /// Matches all remaining tokens and captures them, joined, under `name`.
    TrailingWildcard { name: String, ty: ParamType },
    /// Matches all remaining tokens and drops them.
    TrailingIgnored,
}

/// The model of a `PathSegment`.
pub enum SegmentView {
    Literal { text: Seq<char> },
    Dynamic { name: Seq<char>, ty: ParamTypeView },
    DynamicIgnored,
    TrailingWildcard { name: Seq<char>, ty: ParamTypeView },
    TrailingIgnored,
}

impl View for PathSegment {
    type V = SegmentView;

    open spec fn view(&self) -> SegmentView {
        match self {
            PathSegment::Literal { text } => SegmentView::Literal { text: text@ },
            PathSegment::Dynamic { name, ty } => SegmentView::Dynamic { name: name@, ty: ty@ },
            PathSegment::DynamicIgnored => SegmentView::DynamicIgnored,
            PathSegment::TrailingWildcard { name, ty } => SegmentView::TrailingWildcard {
                name: name@,
                ty: ty@,
            },
            PathSegment::TrailingIgnored => SegmentView::TrailingIgnored,
        }
    }
}

/// Whether a segment takes all the tokens that are left.
pub open spec fn is_trailing(segment: SegmentView) -> bool {
    segment is TrailingWildcard || segment is TrailingIgnored
}

/// What a pattern has to satisfy: only its last segment may be trailing, and a wildcard
/// captures text.
pub open spec fn well_formed(segments: Seq<SegmentView>) -> bool {
    &&& forall|i: int|
        0 <= i < segments.len() && is_trailing(#[trigger] segments[i]) ==> i == segments.len() - 1
    &&& forall|i: int|
        0 <= i < segments.len() ==> (#[trigger] segments[i] matches SegmentView::TrailingWildcard {
            ty,
            ..
        } ==> ty is Text)
}

/// What a token of a template says by its form alone.
pub enum TokenForm {
    Literal,
    Dynamic { name: Seq<char> },
    DynamicIgnored,
    TrailingWildcard { name: Seq<char> },
    TrailingIgnored,
}

/// The form of a token. A token between `<` and `>` is dynamic: `_` inside drops the value,
/// two dots at the end make it a wildcard. Every other token is a literal.
pub open spec fn token_form(token: Seq<char>) -> TokenForm {
    if token.len() >= 2 && token.first() == '<' && token.last() == '>' {
        let inner = token.subrange(1, token.len() - 1);
        if inner.len() >= 2 && inner[inner.len() - 2] == '.' && inner[inner.len() - 1] == '.' {
            let name = inner.take(inner.len() - 2);
            if name == seq!['_'] {
                TokenForm::TrailingIgnored
            } else {
                TokenForm::TrailingWildcard { name }
            }
        } else if inner == seq!['_'] {
            TokenForm::DynamicIgnored
        } else {
            TokenForm::Dynamic { name: inner }
        }
    } else {
        TokenForm::Literal
    }
}

/// The type declared for `name`: that of the first declaration with this name, and text where
/// there is none.
pub open spec fn declared_type(decls: Seq<ParamDeclView>, name: Seq<char>) -> ParamTypeView
    decreases decls.len(),
{
    if decls.len() == 0 {
        ParamTypeView::Text
    } else if decls[0].name == name {
        decls[0].ty
    } else {
        declared_type(decls.drop_first(), name)
    }
}

/// The segment that a token of a template compiles to.
pub open spec fn segment_of(token: Seq<char>, decls: Seq<ParamDeclView>) -> SegmentView {
    match token_form(token) {
        TokenForm::Literal => SegmentView::Literal { text: token },
        TokenForm::Dynamic { name } => SegmentView::Dynamic { name, ty: declared_type(decls, name) },
        TokenForm::DynamicIgnored => SegmentView::DynamicIgnored,
        TokenForm::TrailingWildcard { name } => SegmentView::TrailingWildcard {
            name,
            ty: declared_type(decls, name),
        },
        TokenForm::TrailingIgnored => SegmentView::TrailingIgnored,
    }
}

/// The segments of a template, one for each token, whether or not they make a pattern.
pub open spec fn segments_of(template: Seq<char>, decls: Seq<ParamDeclView>) -> Seq<SegmentView> {
    path_tokens(template).map_values(|token: Seq<char>| segment_of(token, decls))
}

/// Whether two of the segments are trailing.
pub open spec fn two_trailing(segments: Seq<SegmentView>) -> bool {
    exists|i: int, j: int|
        0 <= i < j < segments.len() && is_trailing(#[trigger] segments[i]) && is_trailing(
            #[trigger] segments[j],
        )
}

/// Whether a segment before the last is trailing.
pub open spec fn trailing_inside(segments: Seq<SegmentView>) -> bool {
    exists|i: int| 0 <= i < segments.len() - 1 && is_trailing(#[trigger] segments[i])
}

/// Whether the last segment is a wildcard that is declared with a type other than text.
pub open spec fn typed_wildcard(segments: Seq<SegmentView>) -> bool {
    segments.len() > 0 && (segments.last() matches SegmentView::TrailingWildcard { ty, .. } && !(ty is Text))
}

/// What a template compiles to under the given declarations.
pub open spec fn compiled(template: Seq<char>, decls: Seq<ParamDeclView>) -> Result<
    Seq<SegmentView>,
    PatternError,
> {
    let segments = segments_of(template, decls);
    if two_trailing(segments) {
        Err(PatternError::MultipleWildcards)
    } else if trailing_inside(segments) {
        Err(PatternError::WildcardNotLast)
    } else if typed_wildcard(segments) {
        Err(PatternError::TypedWildcard)
    } else {
        Ok(segments)
    }
}

/// What compiles is a pattern: only its last segment may be trailing, and a wildcard
/// captures text.
pub proof fn lemma_compiled_is_well_formed(template: Seq<char>, decls: Seq<ParamDeclView>)
    requires
        compiled(template, decls) is Ok,
    ensures
        well_formed(compiled(template, decls)->Ok_0),
{
    let segments = segments_of(template, decls);
    assert forall|i: int| 0 <= i < segments.len() && is_trailing(#[trigger] segments[i]) implies i
        == segments.len() - 1 by {
        if i < segments.len() - 1 {
            assert(trailing_inside(segments));
        }
    }
}

/// A token without a dot is not a wildcard.
pub proof fn lemma_token_without_dot(token: Seq<char>, decls: Seq<ParamDeclView>)
    requires
        !token.contains('.'),
    ensures
        !is_trailing(segment_of(token, decls)),
{
    if token.len() >= 2 {
        let inner = token.subrange(1, token.len() - 1);
        if inner.len() >= 2 && inner[inner.len() - 1] == '.' {
            assert(token[token.len() - 2] == '.');
        }
    }
}

/// A template whose tokens before the last hold no dot compiles, unless its last token is a
/// wildcard declared with a type other than text. Here the template is `head`, a slash,
/// and the last token.
pub proof fn lemma_template_compiles(head: Seq<char>, last: Seq<char>, decls: Seq<ParamDeclView>)
    requires
        head.len() > 0,
        head[0] == '/',
        !head.contains('.'),
        !last.contains('/'),
        !typed_wildcard(seq![segment_of(last, decls)]),
    ensures
        compiled(head + seq!['/'] + last, decls) is Ok,
        path_tokens(head + seq!['/'] + last) == pieces(head.skip(1), '/').push(last),
{
    let template = head + seq!['/'] + last;
    let inner = template.skip(1);
    let front = head.skip(1);
    assert(inner == (front + seq!['/']) + last);
    assert((front + seq!['/']).drop_last() == front);
    crate::text::lemma_pieces_nonempty(front, '/');
    crate::text::lemma_pieces_append(front + seq!['/'], last, '/');
    let before = pieces(front, '/');
    assert(pieces(front + seq!['/'], '/') == before.push(Seq::<char>::empty()));
    assert(before.push(Seq::<char>::empty()).drop_last() == before);
    assert(Seq::<char>::empty() + last == last);
    let toks = path_tokens(template);
    assert(toks == before.push(last));
    crate::text::lemma_pieces_hold_only_given(front, '/');
    let segments = segments_of(template, decls);
    assert forall|i: int| 0 <= i < segments.len() - 1 implies !is_trailing(#[trigger] segments[i]) by {
        assert(toks[i] == before[i]);
        assert(!before[i].contains('.')) by {
            if before[i].contains('.') {
                let j = choose|j: int| 0 <= j < before[i].len() && before[i][j] == '.';
                assert(front.contains(before[i][j]));
                let k = choose|k: int| 0 <= k < front.len() && front[k] == '.';
                assert(head[k + 1] == '.');
            }
        }
        lemma_token_without_dot(before[i], decls);
    }
    assert(segments.last() == segment_of(last, decls));
    assert(seq![segment_of(last, decls)].last() == segment_of(last, decls));
}

/// A template that holds no dot compiles, whatever is declared: it has no wildcard.
pub proof fn lemma_template_without_dot_compiles(template: Seq<char>, decls: Seq<ParamDeclView>)
    requires
        !template.contains('.'),
    ensures
        compiled(template, decls) is Ok,
{
    let inner = if template.len() > 0 && template[0] == '/' {
        template.skip(1)
    } else {
        template
    };
    let toks = path_tokens(template);
    let segments = segments_of(template, decls);
    if inner.len() > 0 {
        crate::text::lemma_pieces_hold_only_given(inner, '/');
    }
    assert forall|i: int| 0 <= i < segments.len() implies !is_trailing(#[trigger] segments[i]) by {
        assert(!toks[i].contains('.')) by {
            if toks[i].contains('.') {
                let j = choose|j: int| 0 <= j < toks[i].len() && toks[i][j] == '.';
                assert(inner.contains(toks[i][j]));
                let k = choose|k: int| 0 <= k < inner.len() && inner[k] == '.';
                if template.len() > 0 && template[0] == '/' {
                    assert(template[k + 1] == '.');
                } else {
                    assert(template[k] == '.');
                }
            }
        }
        lemma_token_without_dot(toks[i], decls);
    }
    if segments.len() > 0 {
        assert(!is_trailing(segments[segments.len() - 1]));
    }
}

/// How much a segment adds to the derived rank of its pattern: nothing for a literal, one
/// for a capture, two for a segment that accepts and drops.
pub open spec fn weight(segment: SegmentView) -> nat {
    match segment {
        SegmentView::Literal { .. } => 0,
        SegmentView::Dynamic { .. } => 1,
        SegmentView::TrailingWildcard { .. } => 1,
        SegmentView::DynamicIgnored => 2,
        SegmentView::TrailingIgnored => 2,
    }
}

/// The derived rank of a pattern: the sum of the weights of its segments. The more a
/// pattern lets through, the higher its rank and the later it is tried.
pub open spec fn specificity(segments: Seq<SegmentView>) -> nat
    decreases segments.len(),
{
    if segments.len() == 0 {
        0
    } else {
        specificity(segments.drop_last()) + weight(segments.last())
    }
}

/// The number of segments that are not literals.
pub open spec fn open_segments(segments: Seq<SegmentView>) -> nat
    decreases segments.len(),
{
    if segments.len() == 0 {
        0
    } else {
        open_segments(segments.drop_last()) + (if segments.last() is Literal { 0nat } else { 1nat })
    }
}

/// Whether no segment accepts and drops its tokens.
pub open spec fn drops_nothing(segments: Seq<SegmentView>) -> bool {
    forall|i: int|
        0 <= i < segments.len() ==> !(#[trigger] segments[i] is DynamicIgnored) && !(segments[i] is TrailingIgnored)
}

/// A pattern that drops nothing has as its derived rank the number of its captures.
pub proof fn lemma_specificity_without_drops(segments: Seq<SegmentView>)
    requires
        drops_nothing(segments),
    ensures
        specificity(segments) == open_segments(segments),
    decreases segments.len(),
{
    if segments.len() > 0 {
        assert(drops_nothing(segments.drop_last())) by {
            assert forall|i: int| 0 <= i < segments.drop_last().len() implies !(
            #[trigger] segments.drop_last()[i] is DynamicIgnored) && !(segments.drop_last()[i] is TrailingIgnored) by {
                assert(segments.drop_last()[i] == segments[i]);
            }
        }
        lemma_specificity_without_drops(segments.drop_last());
        assert(segments.last() == segments[segments.len() - 1]);
    }
}

/// The derived rank of a pattern is at least the number of its segments that are not
/// literals.
pub proof fn lemma_specificity_counts_open(segments: Seq<SegmentView>)
    ensures
        specificity(segments) >= open_segments(segments),
    decreases segments.len(),
{
    if segments.len() > 0 {
        lemma_specificity_counts_open(segments.drop_last());
    }
}

/// A pattern with fewer dynamic segments and none that drops its tokens is tried before one
/// that lets more through.
pub proof fn lemma_stricter_pattern_ranks_first(strict: Seq<SegmentView>, loose: Seq<SegmentView>)
    requires
        drops_nothing(strict),
        open_segments(strict) < open_segments(loose),
    ensures
        specificity(strict) < specificity(loose),
{
    lemma_specificity_without_drops(strict);
    lemma_specificity_counts_open(loose);
}

/// A compiled path template.
#[derive(Debug)]
pub struct Pattern {
    segments: Vec<PathSegment>,
}

impl View for Pattern {
    type V = Seq<SegmentView>;

    closed spec fn view(&self) -> Seq<SegmentView> {
        views(self.segments@)
    }
}

/// The type declared for `name`.
fn type_for(decls: &Vec<ParamDecl>, name: &str) -> (ty: ParamType)
    ensures
        ty@ == declared_type(views(decls@), name@),
{
    let ghost all = views(decls@);
    assert(all.skip(0) == all);
    let mut i: usize = 0;
    while i < decls.len()
        invariant
            i <= decls.len(),
            all == views(decls@),
            declared_type(all, name@) == declared_type(all.skip(i as int), name@),
        decreases decls.len() - i,
    {
        proof {
            let rest = all.skip(i as int);
            assert(rest[0] == decls@[i as int]@);
            assert(rest.drop_first() == all.skip(i + 1));
        }
        if same(decls[i].name.as_str(), name) {
            return decls[i].ty.duplicate();
        }
        i += 1;
    }
    ParamType::Text
}

/// Compiles one token of a template.
fn segment_for(token: &str, decls: &Vec<ParamDecl>) -> (segment: PathSegment)
    ensures
        segment@ == segment_of(token@, views(decls@)),
{
    let chars = to_chars(token);
    let n = chars.len();
    if n >= 2 && chars[0] == '<' && chars[n - 1] == '>' {
        let ghost inner = chars@.subrange(1, n - 1);
        if n >= 4 && chars[n - 3] == '.' && chars[n - 2] == '.' {
            assert(inner[inner.len() - 2] == '.' && inner[inner.len() - 1] == '.');
            let name = from_chars(&chars, 1, n - 3);
            assert(name@ == inner.take(inner.len() - 2));
            if n == 5 && chars[1] == '_' {
                assert(name@ == seq!['_']);
                PathSegment::TrailingIgnored
            } else {
                assert(name@ != seq!['_']) by {
                    if name@.len() == 1 {
                        assert(name@[0] == chars@[1]);
                    }
                }
                let ty = type_for(decls, name.as_str());
                PathSegment::TrailingWildcard { name, ty }
            }
        } else {
            assert(!(inner.len() >= 2 && inner[inner.len() - 2] == '.' && inner[inner.len() - 1]
                == '.'));
            if n == 3 && chars[1] == '_' {
                assert(inner == seq!['_']);
                PathSegment::DynamicIgnored
            } else {
                let name = from_chars(&chars, 1, n - 1);
                assert(name@ != seq!['_']) by {
                    if name@.len() == 1 {
                        assert(name@[0] == chars@[1]);
                    }
                }
                let ty = type_for(decls, name.as_str());
                PathSegment::Dynamic { name, ty }
            }
        }
    } else {
        PathSegment::Literal { text: String::from_str(token) }
    }
}

/// The first trailing segment at or after `from`, or the number of segments if there is none.
fn first_trailing(segments: &Vec<PathSegment>, from: usize) -> (at: usize)
    requires
        from <= segments.len(),
    ensures
        from <= at <= segments.len(),
        forall|k: int| from <= k < at ==> !is_trailing(#[trigger] views(segments@)[k]),
        at < segments.len() ==> is_trailing(views(segments@)[at as int]),
{
    let mut i: usize = from;
    while i < segments.len()
        invariant
            from <= i <= segments.len(),
            forall|k: int| from <= k < i ==> !is_trailing(#[trigger] views(segments@)[k]),
        decreases segments.len() - i,
    {
        let found = match &segments[i] {
            PathSegment::TrailingWildcard { .. } => true,
            PathSegment::TrailingIgnored => true,
            _ => false,
        };
        assert(found == is_trailing(views(segments@)[i as int]));
        if found {
            return i;
        }
        i += 1;
    }
    i
}

/// Compiles the tokens of a template one by one.
fn segments_for(parts: &Vec<String>, decls: &Vec<ParamDecl>) -> (segments: Vec<PathSegment>)
    ensures
        views(segments@) == views(parts@).map_values(
            |token: Seq<char>| segment_of(token, views(decls@)),
        ),
{
    let ghost all = views(parts@).map_values(|token: Seq<char>| segment_of(token, views(decls@)));
    let mut segments: Vec<PathSegment> = Vec::new();
    let mut i: usize = 0;
    while i < parts.len()
        invariant
            i <= parts.len(),
            all == views(parts@).map_values(|token: Seq<char>| segment_of(token, views(decls@))),
            views(segments@) == all.take(i as int),
        decreases parts.len() - i,
    {
        let segment = segment_for(parts[i].as_str(), decls);
        let ghost before = views(segments@);
        segments.push(segment);
        proof {
            assert(segment@ == all[i as int]);
            assert(views(segments@) == before.push(segment@));
            assert(all.take(i + 1) == all.take(i as int).push(all[i as int]));
        }
        i += 1;
    }
    proof {
        assert(all.take(parts.len() as int) == all);
    }
    segments
}

impl Pattern {
    #[verifier::type_invariant]
    closed spec fn sound(self) -> bool {
        well_formed(views(self.segments@))
    }

    /// Compiles `template`, taking the type of each named segment from `decls`.
    pub fn compile(template: &str, decls: &Vec<ParamDecl>) -> (r: Result<Pattern, PatternError>)
        ensures
            match r {
                Ok(pattern) => compiled(template@, views(decls@)) == Ok::<
                    Seq<SegmentView>,
                    PatternError,
                >(pattern@) && well_formed(pattern@),
                Err(e) => compiled(template@, views(decls@)) == Err::<Seq<SegmentView>, PatternError>(
                    e,
                ),
            },
    {
        let parts = tokens(template);
        let segments = segments_for(&parts, decls);
        let ghost all = views(segments@);
        let count = segments.len();
        let first = first_trailing(&segments, 0);
        if first < count {
            let second = first_trailing(&segments, first + 1);
            if second < count {
                assert(is_trailing(all[first as int]) && is_trailing(all[second as int]));
                return Err(PatternError::MultipleWildcards);
            }
            assert(!two_trailing(all)) by {
                if two_trailing(all) {
                    let (a, b) = choose|a: int, b: int|
                        0 <= a < b < all.len() && is_trailing(#[trigger] all[a]) && is_trailing(
                            #[trigger] all[b],
                        );
                    assert(a >= first);
                    assert(b > first);
                }
            }
            if first < count - 1 {
                assert(is_trailing(all[first as int]));
                return Err(PatternError::WildcardNotLast);
            }
            assert(!trailing_inside(all)) by {
                if trailing_inside(all) {
                    let k = choose|k: int| 0 <= k < all.len() - 1 && is_trailing(#[trigger] all[k]);
                    assert(k >= first);
                }
            }
            let typed = match &segments[first] {
                PathSegment::TrailingWildcard { ty, .. } => !ty.is_text(),
                _ => false,
            };
            assert(typed == typed_wildcard(all));
            if typed {
                return Err(PatternError::TypedWildcard);
            }
        } else {
            assert(!two_trailing(all));
            assert(!trailing_inside(all));
            assert(!typed_wildcard(all));
        }
        Ok(Pattern { segments })
    }

    /// The segments of the pattern, in order.
    pub fn segments(&self) -> (segments: &Vec<PathSegment>)
        ensures
            views(segments@) == self@,
            well_formed(self@),
    {
        proof {
            use_type_invariant(self);
        }
        &self.segments
    }

    /// The rank that the pattern has where none is given for its route.
    pub fn derived_rank(&self) -> (rank: u128)
        ensures
            rank == specificity(self@),
            rank <= 2 * usize::MAX,
    {
        let mut rank: u128 = 0;
        let mut i: usize = 0;
        while i < self.segments.len()
            invariant
                i <= self.segments.len(),
                rank == specificity(views(self.segments@).take(i as int)),
                rank <= 2 * i,
            decreases self.segments.len() - i,
        {
            proof {
                let seen = views(self.segments@).take(i + 1);
                assert(seen.drop_last() == views(self.segments@).take(i as int));
                assert(seen.last() == self.segments@[i as int]@);
            }
            let w: u128 = match &self.segments[i] {
                PathSegment::Literal { .. } => 0,
                PathSegment::Dynamic { .. } => 1,
                PathSegment::TrailingWildcard { .. } => 1,
                PathSegment::DynamicIgnored => 2,
                PathSegment::TrailingIgnored => 2,
            };
            rank = rank + w;
            i += 1;
        }
        proof {
            assert(views(self.segments@).take(self.segments.len() as int) == views(self.segments@));
        }
        rank
    }
}

} // verus!
