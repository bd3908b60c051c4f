//! The compiler of query and form declarations: the named fields that a route declares are
//! turned into typed field specs, and the spellings of an enumeration into its alias table.

use vstd::prelude::*;
use vstd::string::*;
use crate::error::PatternError;
use crate::query::{QueryFieldSpec, QueryFieldView};
use crate::text::views;
use crate::value::{
    alias_map, bound, unambiguous, Alias, AliasTable, AliasView, ParamType, ParamTypeView,
};

verus! {

/// The type of a field as it is declared: an enumeration is declared by its spellings.
#[derive(Debug)]
pub enum TypeDecl {
    Usize,
    Isize,
    U64,
    Text,
    Flag,
    Choice(Vec<Alias>),
}

/// The model of a `TypeDecl`.
pub enum TypeDeclView {
    Usize,
    Isize,
    U64,
    Text,
    Flag,
    Choice(Seq<AliasView>),
}

impl View for TypeDecl {
    type V = TypeDeclView;

    open spec fn view(&self) -> TypeDeclView {
        match self {
            TypeDecl::Usize => TypeDeclView::Usize,
            TypeDecl::Isize => TypeDeclView::Isize,
            TypeDecl::U64 => TypeDeclView::U64,
            TypeDecl::Text => TypeDeclView::Text,
            TypeDecl::Flag => TypeDeclView::Flag,
            TypeDecl::Choice(aliases) => TypeDeclView::Choice(views(aliases@)),
        }
    }
}

/// A field as it is declared: its default, if it has one, is given as text.
#[derive(Debug)]
pub struct FieldDecl {
    pub name: String,
    pub ty: TypeDecl,
    pub optional: bool,
    pub default: Option<String>,
}

/// The model of a `FieldDecl`.
pub struct FieldDeclView {
    pub name: Seq<char>,
    pub ty: TypeDeclView,
    pub optional: bool,
    pub default: Option<Seq<char>>,
}

impl View for FieldDecl {
    type V = FieldDeclView;

    open spec fn view(&self) -> FieldDeclView {
        FieldDeclView {
            name: self.name@,
            ty: self.ty@,
            optional: self.optional,
            default: match self.default {
                Some(raw) => Some(raw@),
                None => None,
            },
        }
    }
}

impl FieldDecl {
    /// A field that every request must carry.
    pub fn required(name: &str, ty: TypeDecl) -> (decl: FieldDecl)
        ensures
            decl@ == (FieldDeclView { name: name@, ty: ty@, optional: false, default: None }),
    {
        FieldDecl { name: String::from_str(name), ty, optional: false, default: None }
    }

    /// A field that may be absent, and is then `Missing`.
    pub fn optional(name: &str, ty: TypeDecl) -> (decl: FieldDecl)
        ensures
            decl@ == (FieldDeclView { name: name@, ty: ty@, optional: true, default: None }),
    {
        FieldDecl { name: String::from_str(name), ty, optional: true, default: None }
    }

    /// A field that may be absent, and then has the value that `default` spells.
    pub fn with_default(name: &str, ty: TypeDecl, default: &str) -> (decl: FieldDecl)
        ensures
            decl@ == (FieldDeclView {
                name: name@,
                ty: ty@,
                optional: true,
                default: Some(default@),
            }),
    {
        FieldDecl {
            name: String::from_str(name),
            ty,
            optional: true,
            default: Some(String::from_str(default)),
        }
    }
}

/// The type that a declared type compiles to. An enumeration is refused if two of its
/// spellings are alike.
pub open spec fn compiled_type(decl: TypeDeclView) -> Result<ParamTypeView, PatternError> {
    match decl {
        TypeDeclView::Usize => Ok(ParamTypeView::Usize),
        TypeDeclView::Isize => Ok(ParamTypeView::Isize),
        TypeDeclView::U64 => Ok(ParamTypeView::U64),
        TypeDeclView::Text => Ok(ParamTypeView::Text),
        TypeDeclView::Flag => Ok(ParamTypeView::Flag),
        TypeDeclView::Choice(aliases) => if unambiguous(aliases) {
            Ok(ParamTypeView::Choice(alias_map(aliases)))
        } else {
            Err(PatternError::DuplicateAlias)
        },
    }
}

/// The field spec that a declared field compiles to. The default of an optional field must
/// decode to the type of the field; the default of a required field is never used and is
/// dropped.
pub open spec fn compiled_field(decl: FieldDeclView) -> Result<QueryFieldView, PatternError> {
    match compiled_type(decl.ty) {
        Ok(ty) => if decl.optional && decl.default is Some {
            match bound(ty, decl.default->0) {
                Some(value) => Ok(
                    QueryFieldView { name: decl.name, ty, optional: true, default: Some(value) },
                ),
                None => Err(PatternError::DefaultMismatch),
            }
        } else {
            Ok(QueryFieldView { name: decl.name, ty, optional: decl.optional, default: None })
        },
        Err(e) => Err(e),
    }
}

/// The field specs that the declared fields compile to, in the order of their declaration,
/// or what is wrong with the first of them that does not compile.
pub open spec fn compiled_fields(decls: Seq<FieldDeclView>) -> Result<
    Seq<QueryFieldView>,
    PatternError,
>
    decreases decls.len(),
{
    if decls.len() == 0 {
        Ok(Seq::<QueryFieldView>::empty())
    } else {
        match compiled_fields(decls.drop_last()) {
            Ok(before) => match compiled_field(decls.last()) {
                Ok(field) => Ok(before.push(field)),
                Err(e) => Err(e),
            },
            Err(e) => Err(e),
        }
    }
}

/// The outcome of compiling a type, seen as a model value.
pub open spec fn type_view(r: Result<ParamType, PatternError>) -> Result<ParamTypeView, PatternError> {
    match r {
        Ok(ty) => Ok(ty@),
        Err(e) => Err(e),
    }
}

/// The outcome of compiling a field, seen as a model value.
pub open spec fn field_view(r: Result<QueryFieldSpec, PatternError>) -> Result<
    QueryFieldView,
    PatternError,
> {
    match r {
        Ok(field) => Ok(field@),
        Err(e) => Err(e),
    }
}

/// The outcome of compiling fields, seen as a model value.
pub open spec fn fields_view(r: Result<Vec<QueryFieldSpec>, PatternError>) -> Result<
    Seq<QueryFieldView>,
    PatternError,
> {
    match r {
        Ok(fields) => Ok(views(fields@)),
        Err(e) => Err(e),
    }
}

/// A copy of the spellings.
fn copy_aliases(aliases: &Vec<Alias>) -> (copy: Vec<Alias>)
    ensures
        views(copy@) == views(aliases@),
{
    let mut copy: Vec<Alias> = Vec::new();
    let mut i: usize = 0;
    while i < aliases.len()
        invariant
            i <= aliases.len(),
            views(copy@) == views(aliases@).take(i as int),
        decreases aliases.len() - i,
    {
        let ghost before = views(copy@);
        let alias = Alias::new(aliases[i].text.as_str(), aliases[i].variant);
        copy.push(alias);
        proof {
            assert(views(copy@) == before.push(alias@));
            assert(views(aliases@).take(i + 1) == views(aliases@).take(i as int).push(
                aliases@[i as int]@,
            ));
        }
        i += 1;
    }
    proof {
        assert(views(aliases@).take(aliases.len() as int) == views(aliases@));
    }
    copy
}

/// Compiles a declared type.
pub fn compile_type(decl: &TypeDecl) -> (r: Result<ParamType, PatternError>)
    ensures
        type_view(r) == compiled_type(decl@),
{
    match decl {
        TypeDecl::Usize => Ok(ParamType::Usize),
        TypeDecl::Isize => Ok(ParamType::Isize),
        TypeDecl::U64 => Ok(ParamType::U64),
        TypeDecl::Text => Ok(ParamType::Text),
        TypeDecl::Flag => Ok(ParamType::Flag),
        TypeDecl::Choice(aliases) => match AliasTable::compile(copy_aliases(aliases)) {
            Ok(table) => Ok(ParamType::Choice(table)),
            Err(e) => Err(e),
        },
    }
}

/// Compiles a declared field.
pub fn compile_field(decl: &FieldDecl) -> (r: Result<QueryFieldSpec, PatternError>)
    ensures
        field_view(r) == compiled_field(decl@),
{
    let ty = match compile_type(&decl.ty) {
        Ok(ty) => ty,
        Err(e) => {
            return Err(e);
        },
    };
    if decl.optional {
        match &decl.default {
            Some(raw) => QueryFieldSpec::with_default(decl.name.as_str(), ty, raw.as_str()),
            None => Ok(QueryFieldSpec::optional(decl.name.as_str(), ty)),
        }
    } else {
        Ok(QueryFieldSpec::required(decl.name.as_str(), ty))
    }
}

/// Compiles the fields that a route declares for its query string.
pub fn compile_fields(decls: &Vec<FieldDecl>) -> (r: Result<Vec<QueryFieldSpec>, PatternError>)
    ensures
        fields_view(r) == compiled_fields(views(decls@)),
{
    let ghost all = views(decls@);
    let mut fields: Vec<QueryFieldSpec> = Vec::new();
    let mut i: usize = 0;
    assert(all.take(0) == Seq::<FieldDeclView>::empty());
    assert(views(fields@) == Seq::<QueryFieldView>::empty());
    while i < decls.len()
        invariant
            i <= decls.len(),
            all == views(decls@),
            compiled_fields(all.take(i as int)) == Ok::<Seq<QueryFieldView>, PatternError>(
                views(fields@),
            ),
        decreases decls.len() - i,
    {
        proof {
            let seen = all.take(i + 1);
            assert(seen.drop_last() == all.take(i as int));
            assert(seen.last() == decls@[i as int]@);
        }
        match compile_field(&decls[i]) {
            Ok(field) => {
                let ghost before = views(fields@);
                fields.push(field);
                assert(views(fields@) == before.push(field@));
            },
            Err(e) => {
                proof {
                    lemma_error_stays(all, i + 1);
                }
                return Err(e);
            },
        }
        i += 1;
    }
    proof {
        assert(all.take(decls.len() as int) == all);
    }
    Ok(fields)
}

/// Once a declaration has failed to compile, declarations after it change nothing.
proof fn lemma_error_stays(decls: Seq<FieldDeclView>, k: int)
    requires
        0 <= k <= decls.len(),
        compiled_fields(decls.take(k)) is Err,
    ensures
        compiled_fields(decls) == compiled_fields(decls.take(k)),
    decreases decls.len() - k,
{
    if k == decls.len() {
        assert(decls.take(k) == decls);
    } else {
        let longer = decls.take(k + 1);
        assert(longer.drop_last() == decls.take(k));
        lemma_error_stays(decls, k + 1);
    }
}

} // verus!
