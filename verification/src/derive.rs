//! Deriving a provider for a record: which fields it offers, and under
//! which keys. The record is described by plain values; the code that is
//! generated from the plan is not this module's business.

use crate::text::option_view;
use vstd::prelude::*;
use vstd::string::{StrSliceExecFns, StringExecFns};

verus! {

/// The literal of a `name = literal` attribute.
#[derive(Debug, Clone, PartialEq, Eq, Hash)]
pub enum Lit {
    /// A string literal, with its value.
    Str(String),
    /// Any other literal.
    Other,
}

/// The mathematical content of a `Lit`.
pub enum LitView {
    Str(Seq<char>),
    Other,
}

impl View for Lit {
    type V = LitView;

    open spec fn view(&self) -> LitView {
        match self {
            Lit::Str(s) => LitView::Str(s@),
            Lit::Other => LitView::Other,
        }
    }
}

/// The content of an attribute. A path is held as its single identifier,
/// if it is one.
#[derive(Debug, Clone, PartialEq, Eq, Hash)]
pub enum Meta {
    /// `#[path]`
    Path(Option<String>),
    /// `#[path(..)]`
    List,
    /// `#[path = literal]`
    NameValue(Option<String>, Lit),
}

/// The mathematical content of a `Meta`.
pub enum MetaView {
    Path(Option<Seq<char>>),
    List,
    NameValue(Option<Seq<char>>, LitView),
}

impl View for Meta {
    type V = MetaView;

    open spec fn view(&self) -> MetaView {
        match self {
            Meta::Path(p) => MetaView::Path(option_view(*p)),
            Meta::List => MetaView::List,
            Meta::NameValue(p, l) => MetaView::NameValue(option_view(*p), l@),
        }
    }
}

/// An attribute of a field: its content, if it has the form of one.
#[derive(Debug, Clone, PartialEq, Eq, Hash)]
pub struct Attribute {
    pub meta: Option<Meta>,
}

impl View for Attribute {
    type V = Option<MetaView>;

    open spec fn view(&self) -> Option<MetaView> {
        match self.meta {
            Some(m) => Some(m@),
            None => None,
        }
    }
}

/// A field of a record: its name, if it has one, and its attributes.
#[derive(Debug, Clone, PartialEq, Eq, Hash)]
pub struct Field {
    pub ident: Option<String>,
    pub attrs: Vec<Attribute>,
}

/// The mathematical content of a `Field`.
pub struct FieldView {
    pub ident: Option<Seq<char>>,
    pub attrs: Seq<Option<MetaView>>,
}

impl View for Field {
    type V = FieldView;

    open spec fn view(&self) -> FieldView {
        FieldView {
            ident: option_view(self.ident),
            attrs: Seq::new(self.attrs@.len(), |i: int| self.attrs@[i]@),
        }
    }
}

/// The attribute that keeps a field out of the provider.
pub open spec fn ignore_marker() -> Seq<char> {
    "curly_ignore"@
}

/// The attribute that gives a field another key.
pub open spec fn rename_marker() -> Seq<char> {
    "curly_rename"@
}

/// Whether an attribute is the ignore marker: the path `curly_ignore`
/// and nothing else.
pub open spec fn is_ignore(attr: Option<MetaView>) -> bool {
    attr == Some(MetaView::Path(Some(ignore_marker())))
}

/// Whether one of the attributes is the ignore marker, wherever it
/// stands among them.
pub open spec fn has_ignore_marker(attrs: Seq<Option<MetaView>>) -> bool {
    exists|i: int| 0 <= i < attrs.len() && is_ignore(#[trigger] attrs[i])
}

/// Whether a name starts with an underscore.
pub open spec fn is_hidden(ident: Option<Seq<char>>) -> bool {
    match ident {
        Some(name) => name.len() > 0 && name[0] == '_',
        None => false,
    }
}

/// Whether a provider offers a field: not if its name starts with an
/// underscore, and not if it carries the ignore marker.
pub open spec fn should_provide_spec(field: FieldView) -> bool {
    !(is_hidden(field.ident) || has_ignore_marker(field.attrs))
}

/// The literal of the first attribute at or after `from` that has the
/// form `curly_rename = literal`.
pub open spec fn rename_literal(attrs: Seq<Option<MetaView>>, from: int) -> Option<LitView>
    decreases attrs.len() - from,
{
    if from < 0 || from >= attrs.len() {
        None
    } else {
        match attrs[from] {
            Some(MetaView::NameValue(path, literal)) => if path == Some(rename_marker()) {
                Some(literal)
            } else {
                rename_literal(attrs, from + 1)
            },
            _ => rename_literal(attrs, from + 1),
        }
    }
}

/// Whether a field can be given a key: its rename attribute, if it has
/// one, holds a string.
pub open spec fn rename_is_text(field: FieldView) -> bool {
    !(rename_literal(field.attrs, 0) == Some(LitView::Other))
}

/// Whether an optional name is this name.
fn is_name(path: &Option<String>, name: &str) -> (b: bool)
    ensures
        b == (option_view(*path) == Some(name@)),
{
    match path {
        Some(p) => *p == String::from_str(name),
        None => false,
    }
}

/// Whether a provider offers this field.
pub fn should_provide(field: &Field) -> (provide: bool)
    ensures
        provide == should_provide_spec(field@),
{
    match &field.ident {
        Some(name) => {
            if !name.as_str().is_empty() && name.as_str().get_char(0) == '_' {
                return false;
            }
        },
        None => {},
    }
    let mut i: usize = 0;
    while i < field.attrs.len()
        invariant
            i <= field.attrs.len(),
            !is_hidden(field@.ident),
            forall|k: int| 0 <= k < i ==> !is_ignore(#[trigger] field@.attrs[k]),
        decreases field.attrs.len() - i,
    {
        match &field.attrs[i].meta {
            Some(Meta::Path(path)) => {
                if is_name(path, "curly_ignore") {
                    assert(is_ignore(field@.attrs[i as int]));
                    return false;
                }
            },
            _ => {},
        }
        i += 1;
    }
    true
}

/// The rename literal of a field, if it has one.
pub fn find_rename(field: &Field) -> (literal: Option<&Lit>)
    ensures
        match literal {
            Some(l) => rename_literal(field@.attrs, 0) == Some(l@),
            None => rename_literal(field@.attrs, 0) is None,
        },
{
    let mut i: usize = 0;
    while i < field.attrs.len()
        invariant
            i <= field.attrs.len(),
            rename_literal(field@.attrs, 0) == rename_literal(field@.attrs, i as int),
        decreases field.attrs.len() - i,
    {
        match &field.attrs[i].meta {
            Some(Meta::NameValue(path, literal)) => {
                if is_name(path, "curly_rename") {
                    return Some(literal);
                }
            },
            _ => {},
        }
        i += 1;
    }
    None
}

/// The key that a rename attribute gives a field.
pub open spec fn provided_name(field: FieldView) -> Option<Seq<char>> {
    match rename_literal(field.attrs, 0) {
        Some(LitView::Str(value)) => Some(value),
        _ => None,
    }
}

/// The key that a rename attribute gives a field: the text of its string,
/// character for character. There is none if the field has no rename
/// attribute.
pub fn get_provided_name(field: &Field) -> (name: Option<String>)
    requires
        rename_is_text(field@),
    ensures
        option_view(name) == provided_name(field@),
{
    match find_rename(field) {
        Some(Lit::Str(value)) => Some(value.clone()),
        _ => None,
    }
}

/// The key of a field: the name that its rename attribute gave, or else
/// its own.
pub fn provided_key(ident: &str, renamed: Option<String>) -> (key: String)
    ensures
        key@ == (match renamed {
            Some(name) => name@,
            None => ident@,
        }),
{
    match renamed {
        Some(name) => name,
        None => String::from_str(ident),
    }
}

/// The fields of a record.
#[derive(Debug, Clone, PartialEq, Eq, Hash)]
pub enum Fields {
    /// Fields with names, in braces.
    Named(Vec<Field>),
    /// Fields without names, in parentheses.
    Unnamed,
    /// No fields and no braces.
    Unit,
}

/// What a type is made of.
#[derive(Debug, Clone, PartialEq, Eq, Hash)]
pub enum Data {
    Struct(Fields),
    Enum,
    Union,
}

/// The type for which a provider is derived.
#[derive(Debug, Clone, PartialEq, Eq, Hash)]
pub struct DeriveInput {
    pub ident: String,
    pub data: Data,
}

/// The mathematical content of a sequence of fields.
pub open spec fn fields_view(fields: Seq<Field>) -> Seq<FieldView> {
    Seq::new(fields.len(), |i: int| fields[i]@)
}

/// The shape of a type, as far as deriving a provider looks at it.
pub enum ShapeView {
    NotAStruct,
    Unit,
    Unnamed,
    Named(Seq<FieldView>),
}

/// The mathematical content of a `DeriveInput`: its name and its shape.
pub struct DeriveInputView {
    pub ident: Seq<char>,
    pub shape: ShapeView,
}

impl DeriveInput {
    /// The shape of the type.
    pub open spec fn shape(&self) -> ShapeView {
        match self.data {
            Data::Struct(Fields::Named(fields)) => ShapeView::Named(fields_view(fields@)),
            Data::Struct(Fields::Unnamed) => ShapeView::Unnamed,
            Data::Struct(Fields::Unit) => ShapeView::Unit,
            _ => ShapeView::NotAStruct,
        }
    }
}

impl View for DeriveInput {
    type V = DeriveInputView;

    open spec fn view(&self) -> DeriveInputView {
        DeriveInputView { ident: self.ident@, shape: self.shape() }
    }
}

/// Why no provider can be derived for a type.
#[derive(Debug, Clone, Copy, PartialEq, Eq, Hash, Structural)]
pub enum DeriveError {
    /// The type is an enum or a union.
    NotAStruct,
    /// The type is a struct without fields and without braces.
    UnitStruct,
    /// The fields of the struct have no names.
    UnnamedFields,
    /// The struct has braces and no fields in them.
    NoFields,
    /// A rename attribute holds something other than a string.
    InvalidRenameLiteral,
}

impl DeriveError {
    /// The words that say what is wrong.
    pub fn message(&self) -> (words: &'static str)
        ensures
            words@ == derive_message(*self),
    {
        match self {
            DeriveError::NotAStruct => "Deriving a provider only works on structs",
            DeriveError::UnitStruct => "Deriving a provider on a unit struct does nothing",
            DeriveError::UnnamedFields => {
                "Deriving a provider only works on structs with named fields"
            },
            DeriveError::NoFields => "Deriving a provider on a struct with no fields does nothing",
            DeriveError::InvalidRenameLiteral => {
                "Invalid literal for `#[curly_rename]`, must be a UTF-8 string literal"
            },
        }
    }
}

/// The words that say what is wrong.
pub open spec fn derive_message(error: DeriveError) -> Seq<char> {
    match error {
        DeriveError::NotAStruct => "Deriving a provider only works on structs"@,
        DeriveError::UnitStruct => "Deriving a provider on a unit struct does nothing"@,
        DeriveError::UnnamedFields => "Deriving a provider only works on structs with named fields"@,
        DeriveError::NoFields => "Deriving a provider on a struct with no fields does nothing"@,
        DeriveError::InvalidRenameLiteral => "Invalid literal for `#[curly_rename]`, must be a UTF-8 string literal"@,
    }
}

/// What is wrong with the first field at or after `from` that is at
/// fault: a field without a name, or a field that the provider offers
/// and whose rename attribute holds no string.
pub open spec fn field_error(fields: Seq<FieldView>, from: int) -> Option<DeriveError>
    decreases fields.len() - from,
{
    if from < 0 || from >= fields.len() {
        None
    } else if fields[from].ident is None {
        Some(DeriveError::UnnamedFields)
    } else if should_provide_spec(fields[from]) && !rename_is_text(fields[from]) {
        Some(DeriveError::InvalidRenameLiteral)
    } else {
        field_error(fields, from + 1)
    }
}

/// Why no provider can be derived for a type of this shape, if none can.
pub open spec fn derive_error(shape: ShapeView) -> Option<DeriveError> {
    match shape {
        ShapeView::NotAStruct => Some(DeriveError::NotAStruct),
        ShapeView::Unit => Some(DeriveError::UnitStruct),
        ShapeView::Unnamed => Some(DeriveError::UnnamedFields),
        ShapeView::Named(fields) => if fields.len() == 0 {
            Some(DeriveError::NoFields)
        } else {
            field_error(fields, 0)
        },
    }
}

/// One arm of a derived provider: the key that selects it, and the field
/// that it renders.
#[derive(Debug, Clone, PartialEq, Eq, Hash)]
pub struct Arm {
    pub key: String,
    pub field: String,
}

/// What a derived provider consists of.
#[derive(Debug, Clone, PartialEq, Eq, Hash)]
pub struct ProviderPlan {
    /// The name of the module that holds the generated code.
    pub module_name: String,
    /// The arms of the provider, in the order of the fields.
    pub arms: Vec<Arm>,
}

/// The mathematical content of an `Arm`.
pub struct ArmView {
    pub key: Seq<char>,
    pub field: Seq<char>,
}

impl View for Arm {
    type V = ArmView;

    open spec fn view(&self) -> ArmView {
        ArmView { key: self.key@, field: self.field@ }
    }
}

/// The mathematical content of a sequence of arms.
pub open spec fn arms_view(arms: Seq<Arm>) -> Seq<ArmView> {
    Seq::new(arms.len(), |i: int| arms[i]@)
}

/// The name of a field, empty for a field without one.
pub open spec fn name_of(field: FieldView) -> Seq<char> {
    match field.ident {
        Some(name) => name,
        None => Seq::empty(),
    }
}

/// The key of a field: the text of its rename attribute, if it has one,
/// or else its own name.
pub open spec fn key_of(field: FieldView) -> Seq<char> {
    match provided_name(field) {
        Some(name) => name,
        None => name_of(field),
    }
}

/// The arm of a field: its key selects it, and it renders the field.
pub open spec fn arm_of(field: FieldView) -> ArmView {
    ArmView { key: key_of(field), field: name_of(field) }
}

/// The arms for `fields`: one arm for each field that the provider
/// offers, in the order of the fields.
pub open spec fn planned_arms(fields: Seq<FieldView>) -> Seq<ArmView>
    decreases fields.len(),
{
    if fields.len() == 0 {
        Seq::empty()
    } else if should_provide_spec(fields.last()) {
        planned_arms(fields.drop_last()).push(arm_of(fields.last()))
    } else {
        planned_arms(fields.drop_last())
    }
}

/// The name of the module that holds the provider of a type.
pub open spec fn module_name_of(ident: Seq<char>) -> Seq<char> {
    "__curly_internal_provider_implement_for_"@ + ident
}

/// The arms for `fields`, or what is wrong with the first field at fault.
fn plan_arms(fields: &Vec<Field>) -> (r: Result<Vec<Arm>, DeriveError>)
    ensures
        match r {
            Ok(arms) => field_error(fields_view(fields@), 0) is None && arms_view(arms@)
                == planned_arms(fields_view(fields@)),
            Err(e) => field_error(fields_view(fields@), 0) == Some(e),
        },
{
    let ghost all = fields_view(fields@);
    let mut arms: Vec<Arm> = Vec::new();
    let mut i: usize = 0;
    assert(arms_view(arms@) =~= Seq::empty());
    assert(all.take(0) =~= Seq::empty());
    while i < fields.len()
        invariant
            i <= fields.len(),
            all == fields_view(fields@),
            field_error(all, 0) == field_error(all, i as int),
            arms_view(arms@) == planned_arms(all.take(i as int)),
        decreases fields.len() - i,
    {
        let field = &fields[i];
        proof {
            assert(all.take(i + 1).drop_last() == all.take(i as int));
            assert(all.take(i + 1).last() == field@);
        }
        let ident = match &field.ident {
            Some(ident) => ident,
            None => {
                return Err(DeriveError::UnnamedFields);
            },
        };
        if should_provide(field) {
            match find_rename(field) {
                Some(Lit::Other) => {
                    return Err(DeriveError::InvalidRenameLiteral);
                },
                _ => {},
            }
            let key = provided_key(ident.as_str(), get_provided_name(field));
            let arm = Arm { key, field: ident.clone() };
            proof {
                assert(arm@ == arm_of(field@));
                assert(arms_view(arms@.push(arm)) =~= arms_view(arms@).push(arm@));
            }
            arms.push(arm);
        }
        i += 1;
    }
    assert(all.take(fields.len() as int) == all);
    Ok(arms)
}

/// The mathematical content of a `ProviderPlan`.
pub struct PlanView {
    pub module_name: Seq<char>,
    pub arms: Seq<ArmView>,
}

impl View for ProviderPlan {
    type V = PlanView;

    open spec fn view(&self) -> PlanView {
        PlanView { module_name: self.module_name@, arms: arms_view(self.arms@) }
    }
}

/// The plan of the provider of a type, or why it has none: a type that is
/// no struct with named fields, or has no fields, or has a field at
/// fault, has none. The plan names the module after the type and has the
/// arms for the fields.
pub open spec fn planned(input: DeriveInputView) -> Result<PlanView, DeriveError> {
    match derive_error(input.shape) {
        Some(e) => Err(e),
        None => Ok(
            PlanView {
                module_name: module_name_of(input.ident),
                arms: match input.shape {
                    ShapeView::Named(fields) => planned_arms(fields),
                    _ => Seq::empty(),
                },
            },
        ),
    }
}

/// The mathematical content of the result of `provider_plan`.
pub open spec fn plan_result_view(r: Result<ProviderPlan, DeriveError>) -> Result<
    PlanView,
    DeriveError,
> {
    match r {
        Ok(plan) => Ok(plan@),
        Err(e) => Err(e),
    }
}

/// Plans the provider of a type: a type that is no struct with named
/// fields, or has no fields, or has a field at fault, gets none.
pub fn provider_plan(input: &DeriveInput) -> (r: Result<ProviderPlan, DeriveError>)
    ensures
        plan_result_view(r) == planned(input@),
{
    let fields = match &input.data {
        Data::Struct(Fields::Named(fields)) => fields,
        Data::Struct(Fields::Unit) => {
            return Err(DeriveError::UnitStruct);
        },
        Data::Struct(Fields::Unnamed) => {
            return Err(DeriveError::UnnamedFields);
        },
        _ => {
            return Err(DeriveError::NotAStruct);
        },
    };
    if fields.len() == 0 {
        return Err(DeriveError::NoFields);
    }
    match plan_arms(fields) {
        Ok(arms) => {
            let module_name = String::from_str("__curly_internal_provider_implement_for_").concat(
                input.ident.as_str(),
            );
            Ok(ProviderPlan { module_name, arms })
        },
        Err(e) => Err(e),
    }
}

} // verus!
