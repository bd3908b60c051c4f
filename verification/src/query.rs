//! Query strings: their key and value pairs, the declared fields of a route, and the binding
//! of the one to the other.

use vstd::prelude::*;
use vstd::string::*;
use crate::decode::{plain_field, url_decode, url_decoded};
use crate::error::{BindMismatch, PatternError};
use crate::text::{join_from, joined, pieces, same, split, views};
use crate::value::{bind_value, bound, decoded, ParamType, ParamTypeView, Value, ValueView};
use crate::binder::value_views;

verus! {

/// One `key=value` of a query string.
#[derive(Debug, PartialEq, Eq)]
pub struct QueryPair {
    pub key: String,
    pub value: String,
}

/// The model of a `QueryPair`.
pub struct QueryPairView {
    pub key: Seq<char>,
    pub value: Seq<char>,
}

impl View for QueryPair {
    type V = QueryPairView;

    open spec fn view(&self) -> QueryPairView {
        QueryPairView { key: self.key@, value: self.value@ }
    }
}

/// The pair that one piece of a query string stands for: the key is what comes before the
/// first `=`, the value all that follows it. A piece without `=` has an empty value. Key
/// and value are decoded if `decode` is set, and taken as they are written if not.
pub open spec fn pair_of(piece: Seq<char>, decode: bool) -> QueryPairView {
    let parts = pieces(piece, '=');
    let key = parts[0];
    let value = joined(parts.skip(1), '=');
    if decode {
        QueryPairView { key: url_decoded(key), value: url_decoded(value) }
    } else {
        QueryPairView { key, value }
    }
}

/// The pairs that the pieces stand for, in order. An empty piece stands for nothing.
pub open spec fn pairs_of(parts: Seq<Seq<char>>, decode: bool) -> Seq<QueryPairView>
    decreases parts.len(),
{
    if parts.len() == 0 {
        Seq::<QueryPairView>::empty()
    } else if parts.last().len() == 0 {
        pairs_of(parts.drop_last(), decode)
    } else {
        pairs_of(parts.drop_last(), decode).push(pair_of(parts.last(), decode))
    }
}

/// The pairs of a query string, in the order in which they are written. Pieces are
/// separated by `&`; keys and values are decoded.
pub open spec fn query_pairs(query: Seq<char>) -> Seq<QueryPairView> {
    pairs_of(pieces(query, '&'), true)
}

/// The pairs of a query string as they are written, without any decoding.
pub open spec fn plain_pairs(query: Seq<char>) -> Seq<QueryPairView> {
    pairs_of(pieces(query, '&'), false)
}

/// The value of the first pair, from the `from`-th on, whose key is `name`.
pub open spec fn first_value_from(pairs: Seq<QueryPairView>, name: Seq<char>, from: int) -> Option<
    Seq<char>,
>
    decreases pairs.len() - from,
{
    if from < 0 || from >= pairs.len() {
        None
    } else if pairs[from].key == name {
        Some(pairs[from].value)
    } else {
        first_value_from(pairs, name, from + 1)
    }
}

/// The value given for `name`: where a key is repeated, its first occurrence counts.
pub open spec fn first_value(pairs: Seq<QueryPairView>, name: Seq<char>) -> Option<Seq<char>> {
    first_value_from(pairs, name, 0)
}

/// The first occurrence of a key is the one that no earlier pair shares its key with.
pub proof fn lemma_first_occurrence_wins(pairs: Seq<QueryPairView>, name: Seq<char>, at: int)
    requires
        0 <= at < pairs.len(),
        pairs[at].key == name,
        forall|k: int| 0 <= k < at ==> (#[trigger] pairs[k]).key != name,
    ensures
        first_value(pairs, name) == Some(pairs[at].value),
{
    lemma_first_value_skips(pairs, name, 0, at);
}

proof fn lemma_first_value_skips(pairs: Seq<QueryPairView>, name: Seq<char>, from: int, at: int)
    requires
        0 <= from <= at < pairs.len(),
        forall|k: int| from <= k < at ==> (#[trigger] pairs[k]).key != name,
    ensures
        first_value_from(pairs, name, from) == first_value_from(pairs, name, at),
    decreases at - from,
{
    if from < at {
        lemma_first_value_skips(pairs, name, from + 1, at);
    }
}

/// One field that does not bind turns the whole query down, whatever the others are bound
/// to.
pub proof fn lemma_one_failed_field_rejects(
    fields: Seq<QueryFieldView>,
    pairs: Seq<QueryPairView>,
    i: int,
)
    requires
        0 <= i < fields.len(),
        field_bound(fields[i], pairs) is None,
    ensures
        fields_bound(fields, pairs) is None,
{
}

proof fn lemma_first_value_after_insert(
    pairs: Seq<QueryPairView>,
    name: Seq<char>,
    extra: QueryPairView,
    at: int,
    from: int,
)
    requires
        0 <= at <= pairs.len(),
        0 <= from <= pairs.len(),
        extra.key != name,
    ensures
        first_value_from(pairs.insert(at, extra), name, if from < at { from } else { from + 1 })
            == first_value_from(pairs, name, from),
        from == at ==> first_value_from(pairs.insert(at, extra), name, from) == first_value_from(
            pairs,
            name,
            from,
        ),
    decreases pairs.len() - from,
{
    let longer = pairs.insert(at, extra);
    pairs.insert_ensures(at, extra);
    if from < pairs.len() {
        lemma_first_value_after_insert(pairs, name, extra, at, from + 1);
        if from < at {
            assert(longer[from] == pairs[from]);
        } else {
            assert(longer[from + 1] == pairs[from]);
        }
    }
    if from == at {
        assert(longer[at] == extra);
    }
}

/// A key that no field declares is passed over: a pair with such a key, wherever it stands
/// among the others, changes nothing of what the fields are bound to.
pub proof fn lemma_undeclared_key_is_ignored(
    fields: Seq<QueryFieldView>,
    pairs: Seq<QueryPairView>,
    extra: QueryPairView,
    at: int,
)
    requires
        0 <= at <= pairs.len(),
        forall|i: int| 0 <= i < fields.len() ==> (#[trigger] fields[i]).name != extra.key,
    ensures
        fields_bound(fields, pairs.insert(at, extra)) == fields_bound(fields, pairs),
{
    let longer = pairs.insert(at, extra);
    assert forall|i: int| 0 <= i < fields.len() implies #[trigger] field_bound(fields[i], longer)
        == field_bound(fields[i], pairs) by {
        lemma_first_value_after_insert(pairs, fields[i].name, extra, at, 0);
    }
    if fields_bound(fields, pairs) is Some {
        assert(fields_bound(fields, longer)->0 =~= fields_bound(fields, pairs)->0);
    } else {
        let i = choose|i: int|
            0 <= i < fields.len() && !((#[trigger] field_bound(fields[i], pairs)) is Some);
        assert(field_bound(fields[i], longer) == field_bound(fields[i], pairs));
    }
}

/// A declared field of a query string.
#[derive(Debug)]
pub struct QueryFieldSpec {
    name: String,
    ty: ParamType,
    optional: bool,
    default: Option<Value>,
}

/// The model of a `QueryFieldSpec`.
pub struct QueryFieldView {
    pub name: Seq<char>,
    pub ty: ParamTypeView,
    pub optional: bool,
    pub default: Option<ValueView>,
}

/// Whether `value` is what some text decodes to under `ty`.
pub open spec fn has_spelling(ty: ParamTypeView, value: ValueView) -> bool {
    exists|raw: Seq<char>| #[trigger] bound(ty, raw) == Some(value)
}

/// What a field has to satisfy: only an optional field has a default, and the default is a
/// value of the field's type.
pub open spec fn field_well_formed(field: QueryFieldView) -> bool {
    match field.default {
        Some(value) => field.optional && has_spelling(field.ty, value),
        None => true,
    }
}

impl View for QueryFieldSpec {
    type V = QueryFieldView;

    closed spec fn view(&self) -> QueryFieldView {
        QueryFieldView {
            name: self.name@,
            ty: self.ty@,
            optional: self.optional,
            default: match self.default {
                Some(value) => Some(value@),
                None => None,
            },
        }
    }
}

/// What a field is bound to: the decoded value of its first occurrence if it occurs; else,
/// for an optional field, its default, or `Missing` where it has none. A required field
/// that does not occur is a mismatch, and so is a value that does not decode.
pub open spec fn field_bound(field: QueryFieldView, pairs: Seq<QueryPairView>) -> Option<ValueView> {
    match first_value(pairs, field.name) {
        Some(raw) => bound(field.ty, raw),
        None => if field.optional {
            match field.default {
                Some(value) => Some(value),
                None => Some(ValueView::Missing),
            }
        } else {
            None
        },
    }
}

/// The values that the declared fields are bound to, in the order of their declaration, if
/// every one of them binds. Keys that no field declares are passed over.
pub open spec fn fields_bound(fields: Seq<QueryFieldView>, pairs: Seq<QueryPairView>) -> Option<
    Seq<ValueView>,
> {
    if forall|i: int| 0 <= i < fields.len() ==> (#[trigger] field_bound(fields[i], pairs)) is Some {
        Some(Seq::new(fields.len(), |i: int| field_bound(fields[i], pairs)->0))
    } else {
        None
    }
}

impl QueryFieldSpec {
    #[verifier::type_invariant]
    closed spec fn sound(self) -> bool {
        field_well_formed(self@)
    }

    /// A field that every request must carry.
    pub fn required(name: &str, ty: ParamType) -> (field: QueryFieldSpec)
        ensures
            field@ == (QueryFieldView { name: name@, ty: ty@, optional: false, default: None }),
    {
        QueryFieldSpec { name: String::from_str(name), ty, optional: false, default: None }
    }

    /// A field that may be absent, and is then `Missing`.
    pub fn optional(name: &str, ty: ParamType) -> (field: QueryFieldSpec)
        ensures
            field@ == (QueryFieldView { name: name@, ty: ty@, optional: true, default: None }),
    {
        QueryFieldSpec { name: String::from_str(name), ty, optional: true, default: None }
    }

    /// A field that may be absent, and then has the value that `default` decodes to.
    pub fn with_default(name: &str, ty: ParamType, default: &str) -> (r: Result<
        QueryFieldSpec,
        PatternError,
    >)
        ensures
            match r {
                Ok(field) => bound(ty@, default@) is Some && field@ == (QueryFieldView {
                    name: name@,
                    ty: ty@,
                    optional: true,
                    default: bound(ty@, default@),
                }),
                Err(e) => bound(ty@, default@) is None && e == PatternError::DefaultMismatch,
            },
    {
        let decoded_default = bind_value(&ty, default);
        match decoded_default {
            Ok(value) => {
                assert(bound(ty@, default@) == Some(value@));
                Ok(QueryFieldSpec {
                    name: String::from_str(name),
                    ty,
                    optional: true,
                    default: Some(value),
                })
            },
            Err(_) => Err(PatternError::DefaultMismatch),
        }
    }

    /// What the field is bound to by `pairs`. As in every field spec, the default is a
    /// value of the field's type.
    pub fn bind(&self, pairs: &Vec<QueryPair>) -> (r: Result<Value, BindMismatch>)
        ensures
            decoded(r) == field_bound(self@, views(pairs@)),
            field_well_formed(self@),
    {
        proof {
            use_type_invariant(self);
        }
        match lookup(pairs, self.name.as_str()) {
            Some(raw) => bind_value(&self.ty, raw),
            None => {
                if self.optional {
                    match &self.default {
                        Some(value) => Ok(value.duplicate()),
                        None => Ok(Value::Missing),
                    }
                } else {
                    Err(BindMismatch)
                }
            },
        }
    }
}

/// Cuts a query string into its pairs and decodes their keys and values. A query string
/// without escapes is taken as it is written.
pub fn parse_query(query: &str) -> (pairs: Vec<QueryPair>)
    ensures
        views(pairs@) == query_pairs(query@),
        plain_field(query@) ==> views(pairs@) == plain_pairs(query@),
{
    let mut pairs: Vec<QueryPair> = Vec::new();
    let parts = split(query, '&');
    let ghost all = views(parts@);
    proof {
        assert(all.take(0) == Seq::<Seq<char>>::empty());
        if plain_field(query@) {
            crate::text::lemma_pieces_avoid(query@, '&', '%');
            crate::text::lemma_pieces_avoid(query@, '&', '+');
        }
    }
    let mut i: usize = 0;
    while i < parts.len()
        invariant
            i <= parts.len(),
            all == views(parts@),
            all == pieces(query@, '&'),
            views(pairs@) == pairs_of(all.take(i as int), true),
            plain_field(query@) ==> views(pairs@) == pairs_of(all.take(i as int), false),
            plain_field(query@) ==> forall|k: int| 0 <= k < all.len() ==> plain_field(#[trigger] all[k]),
        decreases parts.len() - i,
    {
        let ghost piece = parts@[i as int]@;
        proof {
            let seen = all.take(i + 1);
            assert(seen.drop_last() == all.take(i as int));
            assert(seen.last() == piece);
            assert(all[i as int] == piece);
        }
        if parts[i].as_str().unicode_len() > 0 {
            let halves = split(parts[i].as_str(), '=');
            proof {
                crate::text::lemma_pieces_nonempty(piece, '=');
                assert(views(halves@)[0] == halves@[0]@);
                if plain_field(query@) {
                    assert(plain_field(piece));
                    crate::text::lemma_pieces_avoid(piece, '=', '%');
                    crate::text::lemma_pieces_avoid(piece, '=', '+');
                    let rest = pieces(piece, '=').skip(1);
                    assert forall|k: int| 0 <= k < rest.len() implies !(#[trigger] rest[k]).contains(
                        '%',
                    ) && !rest[k].contains('+') by {
                        assert(rest[k] == pieces(piece, '=')[k + 1]);
                    }
                    crate::text::lemma_joined_avoids(rest, '=', '%');
                    crate::text::lemma_joined_avoids(rest, '=', '+');
                }
            }
            let key = url_decode(halves[0].as_str());
            let value = url_decode(join_from(&halves, 1, '=').as_str());
            let pair = QueryPair { key, value };
            let ghost before = views(pairs@);
            pairs.push(pair);
            assert(views(pairs@) == before.push(pair@));
        }
        i += 1;
    }
    proof {
        assert(all.take(parts.len() as int) == all);
    }
    pairs
}

/// The value of the first pair whose key is `name`.
pub fn lookup<'a>(pairs: &'a Vec<QueryPair>, name: &str) -> (r: Option<&'a str>)
    ensures
        match r {
            Some(raw) => first_value(views(pairs@), name@) == Some(raw@),
            None => first_value(views(pairs@), name@) is None,
        },
{
    let ghost all = views(pairs@);
    let mut i: usize = 0;
    while i < pairs.len()
        invariant
            i <= pairs.len(),
            all == views(pairs@),
            first_value(all, name@) == first_value_from(all, name@, i as int),
        decreases pairs.len() - i,
    {
        assert(all[i as int] == pairs@[i as int]@);
        if same(pairs[i].key.as_str(), name) {
            return Some(pairs[i].value.as_str());
        }
        i += 1;
    }
    None
}

/// Binds the declared fields to the pairs of a query string.
pub fn bind_fields(fields: &Vec<QueryFieldSpec>, pairs: &Vec<QueryPair>) -> (r: Result<
    Vec<Value>,
    BindMismatch,
>)
    ensures
        value_views(r) == fields_bound(views(fields@), views(pairs@)),
{
    let ghost all = views(fields@);
    let ghost given = views(pairs@);
    let mut values: Vec<Value> = Vec::new();
    let mut i: usize = 0;
    while i < fields.len()
        invariant
            i <= fields.len(),
            all == views(fields@),
            given == views(pairs@),
            values.len() == i,
            forall|k: int| 0 <= k < i ==> (#[trigger] field_bound(all[k], given)) == Some(values@[k]@),
        decreases fields.len() - i,
    {
        let r = fields[i].bind(pairs);
        assert(decoded(r) == field_bound(all[i as int], given));
        match r {
            Ok(value) => {
                values.push(value);
            },
            Err(e) => {
                return Err(e);
            },
        }
        i += 1;
    }
    proof {
        assert(views(values@) =~= fields_bound(all, given)->0);
    }
    Ok(values)
}

/// Binds the declared fields to a query string.
pub fn bind_query(fields: &Vec<QueryFieldSpec>, query: &str) -> (r: Result<Vec<Value>, BindMismatch>)
    ensures
        value_views(r) == fields_bound(views(fields@), query_pairs(query@)),
        plain_field(query@) ==> value_views(r) == fields_bound(views(fields@), plain_pairs(query@)),
{
    let pairs = parse_query(query);
    bind_fields(fields, &pairs)
}

} // verus!
