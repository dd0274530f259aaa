use curly::derive::{
    find_rename, get_provided_name, provided_key, provider_plan, should_provide, Arm, Attribute,
    Data, DeriveError, DeriveInput, Field, Fields, Lit, Meta, ProviderPlan,
};
use syn::parse::Parser;

/// What the library looks at in a parsed attribute.
fn attribute_of(attr: &syn::Attribute) -> Attribute {
    let name = |path: &syn::Path| path.get_ident().map(|ident| ident.to_string());
    let meta = match attr.parse_meta() {
        Ok(syn::Meta::Path(path)) => Some(Meta::Path(name(&path))),
        Ok(syn::Meta::List(_)) => Some(Meta::List),
        Ok(syn::Meta::NameValue(pair)) => Some(Meta::NameValue(
            name(&pair.path),
            match pair.lit {
                syn::Lit::Str(text) => Lit::Str(text.value()),
                _ => Lit::Other,
            },
        )),
        Err(_) => None,
    };
    Attribute { meta }
}

/// What the library looks at in a parsed field.
fn field_of(field: &syn::Field) -> Field {
    Field {
        ident: field.ident.as_ref().map(|ident| ident.to_string()),
        attrs: field.attrs.iter().map(attribute_of).collect(),
    }
}

/// The field that `source` declares.
fn named_field(source: &str) -> Field {
    let field: syn::Field = Parser::parse_str(syn::Field::parse_named, source).unwrap();
    field_of(&field)
}

/// The type that `source` declares.
fn input_of(source: &str) -> DeriveInput {
    let input: syn::DeriveInput = syn::parse_str(source).unwrap();
    let data = match &input.data {
        syn::Data::Struct(data) => Data::Struct(match &data.fields {
            syn::Fields::Named(fields) => Fields::Named(fields.named.iter().map(field_of).collect()),
            syn::Fields::Unnamed(_) => Fields::Unnamed,
            syn::Fields::Unit => Fields::Unit,
        }),
        syn::Data::Enum(_) => Data::Enum,
        syn::Data::Union(_) => Data::Union,
    };
    DeriveInput { ident: input.ident.to_string(), data }
}

fn arm(key: &str, field: &str) -> Arm {
    Arm { key: String::from(key), field: String::from(field) }
}

#[test]
fn should_not_provide_prefix() {
    let field = named_field("_should_be_ignored: String");
    assert!(!should_provide(&field));
}

#[test]
fn should_not_provide_explicit() {
    let field = named_field("#[curly_ignore] should_be_ignored: String");
    assert!(!should_provide(&field));
}

#[test]
fn should_provide_field() {
    let field = named_field("should_be_provided: String");
    assert!(should_provide(&field));
}

#[test]
fn rename_field() {
    let field = named_field("#[curly_rename = \"renamed\"] some_name: String");
    assert_eq!(get_provided_name(&field), Some(String::from("renamed")));
}

#[test]
fn dont_rename_field() {
    let field = named_field("some_name: String");
    assert!(get_provided_name(&field).is_none());
}

#[test]
fn field_model_holds_what_was_parsed() {
    assert_eq!(
        named_field("#[curly_ignore] #[doc = \"text\"] #[serde(skip)] #[curly_rename = 5] a: u8"),
        Field {
            ident: Some(String::from("a")),
            attrs: vec![
                Attribute { meta: Some(Meta::Path(Some(String::from("curly_ignore")))) },
                Attribute {
                    meta: Some(Meta::NameValue(
                        Some(String::from("doc")),
                        Lit::Str(String::from("text"))
                    ))
                },
                Attribute { meta: Some(Meta::List) },
                Attribute {
                    meta: Some(Meta::NameValue(Some(String::from("curly_rename")), Lit::Other))
                },
            ],
        }
    );
}

#[test]
fn ignore_marker_counts_wherever_it_stands() {
    assert!(!should_provide(&named_field("#[deprecated] #[curly_ignore] x: String")));
    assert!(!should_provide(&named_field("#[other] #[curly_ignore] a: u8")));
    assert!(!should_provide(&named_field("#[doc = \"x\"] #[curly_ignore] #[other] a: u8")));
    assert!(!should_provide(&named_field("#[curly_ignore] #[other] a: u8")));
    assert!(!should_provide(&named_field("#[a] #[b(c)] #[d = 1] #[curly_ignore] a: u8")));
    assert!(should_provide(&named_field("#[deprecated] #[other] x: String")));
}

#[test]
fn only_the_bare_path_is_the_ignore_marker() {
    assert!(should_provide(&named_field("#[some::curly_ignore] a: u8")));
    assert!(should_provide(&named_field("#[curly_ignore(now)] a: u8")));
    assert!(should_provide(&named_field("#[curly_ignore = \"yes\"] a: u8")));
    assert!(should_provide(&named_field("#[curly_ignored] a: u8")));
    assert!(should_provide(&Field {
        ident: Some(String::from("a")),
        attrs: vec![Attribute { meta: None }, Attribute { meta: Some(Meta::Path(None)) }],
    }));
}

#[test]
fn hidden_names_start_with_an_underscore() {
    assert!(!should_provide(&named_field("#[curly_rename = \"b\"] _a: u8")));
    assert!(!should_provide(&named_field("_: u8")));
    assert!(should_provide(&named_field("a_: u8")));
    assert!(should_provide(&Field { ident: None, attrs: vec![] }));
    assert!(should_provide(&Field { ident: Some(String::new()), attrs: vec![] }));
}

#[test]
fn first_rename_attribute_decides() {
    let field = named_field("#[curly_rename = \"one\"] #[curly_rename = \"two\"] a: u8");
    assert_eq!(find_rename(&field), Some(&Lit::Str(String::from("one"))));
    assert_eq!(get_provided_name(&field), Some(String::from("one")));
    let field = named_field("#[doc = \"d\"] #[curly_rename = \"two\"] a: u8");
    assert_eq!(get_provided_name(&field), Some(String::from("two")));
    assert_eq!(find_rename(&named_field("#[rename = \"x\"] a: u8")), None);
    assert_eq!(find_rename(&named_field("#[curly_rename = 5] a: u8")), Some(&Lit::Other));
}

#[test]
fn rename_is_taken_character_for_character() {
    let field = named_field("#[curly_rename = \"a.b\"] some_name: String");
    assert_eq!(get_provided_name(&field), Some(String::from("a.b")));
    let field = named_field("#[curly_rename = \"struct Test{}\"] a: u8");
    assert_eq!(get_provided_name(&field), Some(String::from("struct Test{}")));
    let field = named_field("#[curly_rename = \"not ( closed\"] a: u8");
    assert_eq!(get_provided_name(&field), Some(String::from("not ( closed")));
    let field = named_field("#[curly_rename = \"\"] a: u8");
    assert_eq!(get_provided_name(&field), Some(String::new()));
    let field = named_field("#[curly_rename = \"tab\\there \\\"q\\\"\"] a: u8");
    assert_eq!(get_provided_name(&field), Some(String::from("tab\there \"q\"")));
}

#[test]
fn key_is_the_new_name_or_the_own_name() {
    assert_eq!(provided_key("own", Some(String::from("new"))), "new");
    assert_eq!(provided_key("own", None), "own");
}

#[test]
fn plans_a_single_field() {
    let input = input_of("struct TestDerive { some_field: String }");
    assert_eq!(
        provider_plan(&input),
        Ok(ProviderPlan {
            module_name: String::from("__curly_internal_provider_implement_for_TestDerive"),
            arms: vec![arm("some_field", "some_field")],
        })
    );
}

#[test]
fn plans_fields_in_their_order() {
    let input = input_of("struct TestDerive { some_field: String, other_field: String, }");
    assert_eq!(
        provider_plan(&input).unwrap().arms,
        vec![arm("some_field", "some_field"), arm("other_field", "other_field")]
    );
}

#[test]
fn plan_leaves_ignored_fields_out() {
    let input = input_of(
        "struct TestDerive { some_field: String, _ignored: String, #[curly_ignore] ignored: String }",
    );
    assert_eq!(provider_plan(&input).unwrap().arms, vec![arm("some_field", "some_field")]);
    let input = input_of("struct AllHidden { _a: u8, #[curly_ignore] b: u8 }");
    assert_eq!(provider_plan(&input).unwrap().arms, vec![]);
    let input = input_of("struct T { #[deprecated] #[curly_ignore] x: String, y: String }");
    assert_eq!(provider_plan(&input).unwrap().arms, vec![arm("y", "y")]);
}

#[test]
fn plan_renames_fields() {
    let input = input_of("struct TestDerive { #[curly_rename = \"other_field\"] some_field: String }");
    assert_eq!(provider_plan(&input).unwrap().arms, vec![arm("other_field", "some_field")]);
    let input = input_of("struct TestDerive { #[curly_rename = \"a.b\"] some_field: String }");
    assert_eq!(provider_plan(&input).unwrap().arms, vec![arm("a.b", "some_field")]);
    let input = input_of(
        "struct T { #[curly_rename = \"x\"] a: u8, b: u8, #[curly_rename = \"z\"] #[curly_ignore] c: u8 }",
    );
    assert_eq!(provider_plan(&input).unwrap().arms, vec![arm("x", "a"), arm("b", "b")]);
}

#[test]
fn plan_for_a_generic_struct() {
    let input = input_of("struct TestDerive<T> where T: PartialEq { some_field: String }");
    assert_eq!(
        provider_plan(&input),
        Ok(ProviderPlan {
            module_name: String::from("__curly_internal_provider_implement_for_TestDerive"),
            arms: vec![arm("some_field", "some_field")],
        })
    );
}

#[test]
fn no_plan_for_a_unit_struct() {
    let error = provider_plan(&input_of("struct TestStruct;")).unwrap_err();
    assert_eq!(error, DeriveError::UnitStruct);
    assert_eq!(error.message(), "Deriving a provider on a unit struct does nothing");
}

#[test]
fn no_plan_for_an_empty_struct() {
    let error = provider_plan(&input_of("struct TestStruct {}")).unwrap_err();
    assert_eq!(error, DeriveError::NoFields);
    assert_eq!(error.message(), "Deriving a provider on a struct with no fields does nothing");
}

#[test]
fn no_plan_for_unnamed_fields() {
    let error = provider_plan(&input_of("struct TestStruct(String);")).unwrap_err();
    assert_eq!(error, DeriveError::UnnamedFields);
    assert_eq!(error.message(), "Deriving a provider only works on structs with named fields");
    let nameless = DeriveInput {
        ident: String::from("T"),
        data: Data::Struct(Fields::Named(vec![Field { ident: None, attrs: vec![] }])),
    };
    assert_eq!(provider_plan(&nameless), Err(DeriveError::UnnamedFields));
}

#[test]
fn no_plan_for_what_is_no_struct() {
    let error = provider_plan(&input_of("enum NonStruct { Var1, Var2 }")).unwrap_err();
    assert_eq!(error, DeriveError::NotAStruct);
    assert_eq!(error.message(), "Deriving a provider only works on structs");
    assert_eq!(
        provider_plan(&input_of("union U { a: u8, b: u16 }")),
        Err(DeriveError::NotAStruct)
    );
}

#[test]
fn no_plan_with_a_rename_that_is_no_string() {
    let input = input_of("struct T { a: u8, #[curly_rename = 5] some_name: String }");
    let error = provider_plan(&input).unwrap_err();
    assert_eq!(error, DeriveError::InvalidRenameLiteral);
    assert_eq!(
        error.message(),
        "Invalid literal for `#[curly_rename]`, must be a UTF-8 string literal"
    );
    let input = input_of("struct T { #[curly_rename = 5] _hidden: String, b: u8 }");
    assert_eq!(provider_plan(&input).unwrap().arms, vec![arm("b", "b")]);
    let input = input_of("struct T { #[other] #[curly_ignore] #[curly_rename = 5] c: u8, b: u8 }");
    assert_eq!(provider_plan(&input).unwrap().arms, vec![arm("b", "b")]);
}
