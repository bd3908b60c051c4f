//! Declared parameter types, the values they decode to, and the decoding of one raw token.

use vstd::prelude::*;
use vstd::string::*;
use crate::error::{BindMismatch, PatternError};
use crate::number::{integer_within, parse_signed, parse_unsigned};
use crate::text::{same, to_chars, views};

verus! {

/// One accepted spelling of a variant of an enumeration.
#[derive(Debug)]
pub struct Alias {
    pub text: String,
    pub variant: usize,
}

/// The model of an `Alias`.
pub struct AliasView {
    pub text: Seq<char>,
    pub variant: usize,
}

impl View for Alias {
    type V = AliasView;

    open spec fn view(&self) -> AliasView {
        AliasView { text: self.text@, variant: self.variant }
    }
}

impl Alias {
    pub fn new(text: &str, variant: usize) -> (alias: Alias)
        ensures
            alias@ == (AliasView { text: text@, variant }),
    {
        Alias { text: String::from_str(text), variant }
    }
}

/// Whether `raw` is one of the spellings in `aliases`.
pub open spec fn spells(aliases: Seq<AliasView>, raw: Seq<char>) -> bool {
    exists|i: int| 0 <= i < aliases.len() && (#[trigger] aliases[i]).text == raw
}

/// No two aliases are spelled alike. Spellings are compared character by character, so
/// two that differ only in case are different.
pub open spec fn unambiguous(aliases: Seq<AliasView>) -> bool {
    forall|i: int, j: int|
        0 <= i < j < aliases.len() ==> (#[trigger] aliases[i]).text != (#[trigger] aliases[j]).text
}

/// The mapping from each spelling to its variant.
pub open spec fn alias_map(aliases: Seq<AliasView>) -> Map<Seq<char>, usize> {
    Map::new(
        |raw: Seq<char>| spells(aliases, raw),
        |raw: Seq<char>|
            aliases[choose|i: int| 0 <= i < aliases.len() && (#[trigger] aliases[i]).text == raw].variant,
    )
}

/// The accepted spellings of an enumeration, each with the variant it selects.
#[derive(Debug)]
pub struct AliasTable {
    entries: Vec<Alias>,
}

impl View for AliasTable {
    type V = Map<Seq<char>, usize>;

    closed spec fn view(&self) -> Map<Seq<char>, usize> {
        alias_map(views(self.entries@))
    }
}

impl AliasTable {
    #[verifier::type_invariant]
    closed spec fn well_formed(self) -> bool {
        unambiguous(views(self.entries@))
    }

    /// Builds the table, provided that no spelling occurs twice.
    pub fn compile(aliases: Vec<Alias>) -> (r: Result<AliasTable, PatternError>)
        ensures
            match r {
                Ok(table) => unambiguous(views(aliases@)) && table@ == alias_map(views(aliases@)),
                Err(e) => e == PatternError::DuplicateAlias && !unambiguous(views(aliases@)),
            },
    {
        let mut j: usize = 0;
        while j < aliases.len()
            invariant
                j <= aliases.len(),
                forall|a: int, b: int|
                    0 <= a < b < j ==> (#[trigger] views(aliases@)[a]).text != (
                    #[trigger] views(aliases@)[b]).text,
            decreases aliases.len() - j,
        {
            let mut i: usize = 0;
            while i < j
                invariant
                    i <= j < aliases.len(),
                    forall|a: int|
                        0 <= a < i ==> (#[trigger] views(aliases@)[a]).text != views(
                            aliases@,
                        )[j as int].text,
                decreases j - i,
            {
                if same(aliases[i].text.as_str(), aliases[j].text.as_str()) {
                    assert(views(aliases@)[i as int].text == views(aliases@)[j as int].text);
                    return Err(PatternError::DuplicateAlias);
                }
                i += 1;
            }
            j += 1;
        }
        Ok(AliasTable { entries: aliases })
    }

    /// The variant that `raw` spells, if it spells one.
    pub fn lookup(&self, raw: &str) -> (r: Option<usize>)
        ensures
            r == (if self@.contains_key(raw@) { Some(self@[raw@]) } else { None }),
    {
        proof {
            use_type_invariant(self);
        }
        let ghost aliases = views(self.entries@);
        let mut i: usize = 0;
        while i < self.entries.len()
            invariant
                i <= self.entries.len(),
                aliases == views(self.entries@),
                unambiguous(aliases),
                forall|a: int| 0 <= a < i ==> (#[trigger] aliases[a]).text != raw@,
            decreases self.entries.len() - i,
        {
            if same(self.entries[i].text.as_str(), raw) {
                proof {
                    assert(aliases[i as int].text == raw@);
                    let chosen = choose|k: int|
                        0 <= k < aliases.len() && (#[trigger] aliases[k]).text == raw@;
                    assert(chosen == i);
                }
                return Some(self.entries[i].variant);
            }
            i += 1;
        }
        None
    }

    /// A copy of the table.
    pub fn duplicate(&self) -> (copy: AliasTable)
        ensures
            copy@ == self@,
    {
        proof {
            use_type_invariant(self);
        }
        let mut entries: Vec<Alias> = Vec::new();
        let mut i: usize = 0;
        while i < self.entries.len()
            invariant
                i <= self.entries.len(),
                unambiguous(views(self.entries@)),
                views(entries@) == views(self.entries@).take(i as int),
            decreases self.entries.len() - i,
        {
            let ghost before = views(entries@);
            let alias = Alias { text: self.entries[i].text.clone(), variant: self.entries[i].variant };
            entries.push(alias);
            assert(views(entries@) == before.push(alias@));
            i += 1;
        }
        assert(views(self.entries@).take(self.entries.len() as int) == views(self.entries@));
        AliasTable { entries }
    }
}

/// The type that a raw token is declared to have.
#[derive(Debug)]
pub enum ParamType {
    Usize,
    Isize,
    U64,
    Text,
    Flag,
    Choice(AliasTable),
}

/// The model of a `ParamType`: an enumeration is the mapping from its spellings to its
/// variants.
pub enum ParamTypeView {
    Usize,
    Isize,
    U64,
    Text,
    Flag,
    Choice(Map<Seq<char>, usize>),
}

impl View for ParamType {
    type V = ParamTypeView;

    open spec fn view(&self) -> ParamTypeView {
        match self {
            ParamType::Usize => ParamTypeView::Usize,
            ParamType::Isize => ParamTypeView::Isize,
            ParamType::U64 => ParamTypeView::U64,
            ParamType::Text => ParamTypeView::Text,
            ParamType::Flag => ParamTypeView::Flag,
            ParamType::Choice(table) => ParamTypeView::Choice(table@),
        }
    }
}

impl ParamType {
    /// A copy of the type.
    pub fn duplicate(&self) -> (copy: ParamType)
        ensures
            copy@ == self@,
    {
        match self {
            ParamType::Usize => ParamType::Usize,
            ParamType::Isize => ParamType::Isize,
            ParamType::U64 => ParamType::U64,
            ParamType::Text => ParamType::Text,
            ParamType::Flag => ParamType::Flag,
            ParamType::Choice(table) => ParamType::Choice(table.duplicate()),
        }
    }

    pub fn is_text(&self) -> (r: bool)
        ensures
            r == (self@ is Text),
    {
        match self {
            ParamType::Text => true,
            _ => false,
        }
    }
}

/// A decoded value.
#[derive(Debug, PartialEq, Eq)]
pub enum Value {
    Usize(usize),
    Isize(isize),
    U64(u64),
    Text(String),
    Flag(bool),
    /// The variant of an enumeration, by its number.
    Choice(usize),
    /// An optional field that was absent and has no default.
    Missing,
}

/// The model of a `Value`.
pub enum ValueView {
    Usize(usize),
    Isize(isize),
    U64(u64),
    Text(Seq<char>),
    Flag(bool),
    Choice(usize),
    Missing,
}

impl View for Value {
    type V = ValueView;

    open spec fn view(&self) -> ValueView {
        match self {
            Value::Usize(n) => ValueView::Usize(*n),
            Value::Isize(n) => ValueView::Isize(*n),
            Value::U64(n) => ValueView::U64(*n),
            Value::Text(s) => ValueView::Text(s@),
            Value::Flag(b) => ValueView::Flag(*b),
            Value::Choice(v) => ValueView::Choice(*v),
            Value::Missing => ValueView::Missing,
        }
    }
}

impl Value {
    /// A copy of the value.
    pub fn duplicate(&self) -> (copy: Value)
        ensures
            copy@ == self@,
    {
        match self {
            Value::Usize(n) => Value::Usize(*n),
            Value::Isize(n) => Value::Isize(*n),
            Value::U64(n) => Value::U64(*n),
            Value::Text(s) => Value::Text(s.clone()),
            Value::Flag(b) => Value::Flag(*b),
            Value::Choice(v) => Value::Choice(*v),
            Value::Missing => Value::Missing,
        }
    }
}

/// The lower-case form of an upper-case letter of the basic alphabet; any other character
/// unchanged.
pub open spec fn lowered(c: char) -> char {
    if 'A' <= c <= 'Z' {
        (c as int + 32) as char
    } else {
        c
    }
}

/// Whether `raw` is `word` up to the case of its letters, for a `word` in lower case.
pub open spec fn reads_as(raw: Seq<char>, word: Seq<char>) -> bool {
    raw.map_values(|c: char| lowered(c)) == word
}

/// The truth value that `raw` spells: `true` or `false`, in any mix of cases.
pub open spec fn flag_of(raw: Seq<char>) -> Option<bool> {
    if reads_as(raw, "true"@) {
        Some(true)
    } else if reads_as(raw, "false"@) {
        Some(false)
    } else {
        None
    }
}

/// What `raw` decodes to under the type `ty`, if it decodes.
pub open spec fn bound(ty: ParamTypeView, raw: Seq<char>) -> Option<ValueView> {
    match ty {
        ParamTypeView::Usize => match integer_within(raw, false, 0, usize::MAX as int) {
            Some(v) => Some(ValueView::Usize(v as usize)),
            None => None,
        },
        ParamTypeView::Isize => match integer_within(raw, true, isize::MIN as int, isize::MAX as int) {
            Some(v) => Some(ValueView::Isize(v as isize)),
            None => None,
        },
        ParamTypeView::U64 => match integer_within(raw, false, 0, u64::MAX as int) {
            Some(v) => Some(ValueView::U64(v as u64)),
            None => None,
        },
        ParamTypeView::Text => Some(ValueView::Text(raw)),
        ParamTypeView::Flag => match flag_of(raw) {
            Some(b) => Some(ValueView::Flag(b)),
            None => None,
        },
        ParamTypeView::Choice(table) => if table.contains_key(raw) {
            Some(ValueView::Choice(table[raw]))
        } else {
            None
        },
    }
}

/// The outcome of a decoding, seen as a model value.
pub open spec fn decoded(r: Result<Value, BindMismatch>) -> Option<ValueView> {
    match r {
        Ok(v) => Some(v@),
        Err(_) => None,
    }
}

/// Whether `raw` is `word` up to the case of its letters.
fn spelled(raw: &Vec<char>, word: &str) -> (r: bool)
    requires
        forall|i: int| 0 <= i < word@.len() ==> !('A' <= #[trigger] word@[i] <= 'Z'),
    ensures
        r == reads_as(raw@, word@),
{
    let letters = to_chars(word);
    if raw.len() != letters.len() {
        assert(raw@.map_values(|c: char| lowered(c)).len() != word@.len());
        return false;
    }
    let mut i: usize = 0;
    while i < raw.len()
        invariant
            i <= raw.len() == letters.len(),
            letters@ == word@,
            forall|k: int| 0 <= k < i ==> lowered(#[trigger] raw@[k]) == letters@[k],
        decreases raw.len() - i,
    {
        let c = raw[i];
        let low: char = if 'A' <= c && c <= 'Z' { ((c as u32 + 32) as u8) as char } else { c };
        assert(low == lowered(c));
        if low != letters[i] {
            assert(raw@.map_values(|c: char| lowered(c))[i as int] != word@[i as int]);
            return false;
        }
        i += 1;
    }
    assert(raw@.map_values(|c: char| lowered(c)) =~= word@);
    true
}

/// Decodes one raw token as a value of the declared type.
pub fn bind_value(ty: &ParamType, raw: &str) -> (r: Result<Value, BindMismatch>)
    ensures
        decoded(r) == bound(ty@, raw@),
{
    match ty {
        ParamType::Usize => match parse_unsigned(raw, usize::MAX as u64) {
            Some(v) => Ok(Value::Usize(v as usize)),
            None => Err(BindMismatch),
        },
        ParamType::Isize => match parse_signed(raw, isize::MIN as i64, isize::MAX as i64) {
            Some(v) => Ok(Value::Isize(v as isize)),
            None => Err(BindMismatch),
        },
        ParamType::U64 => match parse_unsigned(raw, u64::MAX) {
            Some(v) => Ok(Value::U64(v)),
            None => Err(BindMismatch),
        },
        ParamType::Text => Ok(Value::Text(String::from_str(raw))),
        ParamType::Flag => {
            let chars = to_chars(raw);
            proof {
                reveal_strlit("true");
                reveal_strlit("false");
            }
            if spelled(&chars, "true") {
                Ok(Value::Flag(true))
            } else if spelled(&chars, "false") {
                Ok(Value::Flag(false))
            } else {
                Err(BindMismatch)
            }
        },
        ParamType::Choice(table) => match table.lookup(raw) {
            Some(v) => Ok(Value::Choice(v)),
            None => Err(BindMismatch),
        },
    }
}

} // verus!
