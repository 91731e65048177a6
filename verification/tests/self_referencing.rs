use ouroboros_macro::covariance_detection::{
    apparent_std_container_type, type_is_covariant_over_this_lifetime, StdContainer,
};
use ouroboros_macro::diagnostics::{Error, ErrorKind};
use ouroboros_macro::generate::constructor::create_builder_and_constructor;
use ouroboros_macro::generate::derives::create_derives;
use ouroboros_macro::generate::drop::create_drop_impl;
use ouroboros_macro::generate::into_heads::{destruct_into_heads, make_into_heads};
use ouroboros_macro::generate::struc::{create_actual_struct_def, create_internal_struct_def};
use ouroboros_macro::generate::summon_borrowchk::generate_borrowchk_summoner;
use ouroboros_macro::generate::summon_checker::generate_checker_summoner;
use ouroboros_macro::generate::try_constructor::create_try_builder_and_constructor;
use ouroboros_macro::generate::type_asserts::make_type_asserts;
use ouroboros_macro::generate::with::make_with_all_function;
use ouroboros_macro::generate::with_each::{
    field_accessors, make_with_functions, Accessor, ProcessingError,
};
use ouroboros_macro::generate::with_mut::make_with_all_mut_function;
use ouroboros_macro::info_structures::{
    ArgType, BorrowRequest, BuilderType, Derive, FieldType, Options, StructInfo,
};
use ouroboros_macro::lifecycle::{
    drop_order, into_heads, try_new_or_recover, with_field, BuilderOutcome, Content,
    FieldInput, Slot,
};
use ouroboros_macro::parse::{handle_borrows_attr, parse_options, parse_struct};
use ouroboros_macro::syntax::{
    Attribute, FieldDecl, FieldsDecl, GenericArgument, GenericParam, GenericParamKind, Generics,
    PathArguments, PathSegment, StructDecl, TypeExpr, TypeShape, Visibility,
};
use ouroboros_macro::tokens::{Delimiter, Spacing, Token, TokenStream};
use ouroboros_macro::{generate_items, self_referencing_impl};
use quote::ToTokens;

fn stream_from(tokens: proc_macro2::TokenStream) -> TokenStream {
    let mut trees = Vec::new();
    for tree in tokens {
        trees.push(match tree {
            proc_macro2::TokenTree::Ident(ident) => Token::Ident(ident.to_string()),
            proc_macro2::TokenTree::Punct(punct) => Token::Punct(
                punct.as_char(),
                match punct.spacing() {
                    proc_macro2::Spacing::Alone => Spacing::Alone,
                    proc_macro2::Spacing::Joint => Spacing::Joint,
                },
            ),
            proc_macro2::TokenTree::Literal(literal) => Token::Literal(literal.to_string()),
            proc_macro2::TokenTree::Group(group) => Token::Group(
                match group.delimiter() {
                    proc_macro2::Delimiter::Parenthesis => Delimiter::Parenthesis,
                    proc_macro2::Delimiter::Brace => Delimiter::Brace,
                    proc_macro2::Delimiter::Bracket => Delimiter::Bracket,
                    proc_macro2::Delimiter::None => Delimiter::Invisible,
                },
                stream_from(group.stream()),
            ),
        });
    }
    TokenStream { trees }
}

fn stream_into(tokens: &TokenStream) -> proc_macro2::TokenStream {
    let mut out = proc_macro2::TokenStream::new();
    for token in &tokens.trees {
        let tree: proc_macro2::TokenTree = match token {
            Token::Ident(name) => {
                proc_macro2::Ident::new(name, proc_macro2::Span::call_site()).into()
            }
            Token::Punct(c, spacing) => proc_macro2::Punct::new(
                *c,
                match spacing {
                    Spacing::Alone => proc_macro2::Spacing::Alone,
                    Spacing::Joint => proc_macro2::Spacing::Joint,
                },
            )
            .into(),
            Token::Literal(text) => text
                .parse::<proc_macro2::Literal>()
                .expect("a literal")
                .into(),
            Token::Group(delimiter, inner) => proc_macro2::Group::new(
                match delimiter {
                    Delimiter::Parenthesis => proc_macro2::Delimiter::Parenthesis,
                    Delimiter::Brace => proc_macro2::Delimiter::Brace,
                    Delimiter::Bracket => proc_macro2::Delimiter::Bracket,
                    Delimiter::Invisible => proc_macro2::Delimiter::None,
                },
                stream_into(inner),
            )
            .into(),
        };
        out.extend(std::iter::once(tree));
    }
    out
}

fn tokens_of<T: ToTokens>(node: &T) -> TokenStream {
    stream_from(node.to_token_stream())
}

fn visibility_from(vis: &syn::Visibility) -> Visibility {
    match vis {
        syn::Visibility::Public(_) => Visibility::Public,
        syn::Visibility::Crate(_) => Visibility::Crate,
        syn::Visibility::Restricted(restricted) => Visibility::Restricted {
            in_token: restricted.in_token.is_some(),
            path: tokens_of(&restricted.path),
        },
        syn::Visibility::Inherited => Visibility::Inherited,
    }
}

fn attribute_from(attr: &syn::Attribute) -> Attribute {
    Attribute {
        leading_colon: attr.path.leading_colon.is_some(),
        segments: attr
            .path
            .segments
            .iter()
            .map(|segment| segment.ident.to_string())
            .collect(),
        tokens: stream_from(attr.tokens.clone()),
    }
}

fn type_from(ty: &syn::Type) -> TypeExpr {
    let boxed = |elem: &syn::Type| Box::new(type_from(elem));
    let shape = match ty {
        syn::Type::Array(array) => TypeShape::Array(boxed(&array.elem)),
        syn::Type::BareFn(_) => TypeShape::BareFn,
        syn::Type::Group(group) => TypeShape::Group(boxed(&group.elem)),
        syn::Type::ImplTrait(_) => TypeShape::ImplTrait,
        syn::Type::Infer(_) => TypeShape::Infer,
        syn::Type::Macro(_) => TypeShape::Macro,
        syn::Type::Never(_) => TypeShape::Never,
        syn::Type::Paren(paren) => TypeShape::Paren(boxed(&paren.elem)),
        syn::Type::Path(path) => TypeShape::Path {
            qself: path.qself.as_ref().map(|qself| boxed(&qself.ty)),
            segments: path.path.segments.iter().map(segment_from).collect(),
        },
        syn::Type::Ptr(ptr) => TypeShape::Ptr {
            mutable: ptr.mutability.is_some(),
            elem: boxed(&ptr.elem),
        },
        syn::Type::Reference(reference) => TypeShape::Reference {
            mutable: reference.mutability.is_some(),
            elem: boxed(&reference.elem),
        },
        syn::Type::Slice(slice) => TypeShape::Slice(boxed(&slice.elem)),
        syn::Type::TraitObject(_) => TypeShape::TraitObject,
        syn::Type::Tuple(tuple) => TypeShape::Tuple(tuple.elems.iter().map(type_from).collect()),
        _ => TypeShape::Other,
    };
    TypeExpr {
        tokens: tokens_of(ty),
        shape,
    }
}

fn segment_from(segment: &syn::PathSegment) -> PathSegment {
    let arguments = match &segment.arguments {
        syn::PathArguments::None => PathArguments::Empty,
        syn::PathArguments::AngleBracketed(args) => PathArguments::AngleBracketed(
            args.args
                .iter()
                .map(|arg| match arg {
                    syn::GenericArgument::Lifetime(lifetime) => {
                        GenericArgument::Lifetime(lifetime.ident.to_string())
                    }
                    syn::GenericArgument::Type(ty) => GenericArgument::Type(type_from(ty)),
                    _ => GenericArgument::Other,
                })
                .collect(),
        ),
        syn::PathArguments::Parenthesized(args) => PathArguments::Parenthesized {
            inputs: args.inputs.iter().map(type_from).collect(),
            output: match &args.output {
                syn::ReturnType::Default => None,
                syn::ReturnType::Type(_, ty) => Some(Box::new(type_from(ty))),
            },
        },
    };
    PathSegment {
        ident: segment.ident.to_string(),
        arguments,
    }
}

fn generic_param_from(param: &syn::GenericParam) -> GenericParam {
    match param {
        syn::GenericParam::Type(ty) => {
            let mut declared = ty.clone();
            declared.eq_token = None;
            declared.default = None;
            let mut default = proc_macro2::TokenStream::new();
            ty.eq_token.to_tokens(&mut default);
            ty.default.to_tokens(&mut default);
            GenericParam {
                kind: GenericParamKind::Type,
                ident: ty.ident.to_string(),
                tokens: tokens_of(&declared),
                has_bounds: !ty.bounds.is_empty(),
                default: stream_from(default),
            }
        }
        syn::GenericParam::Lifetime(lifetime) => GenericParam {
            kind: GenericParamKind::Lifetime,
            ident: lifetime.lifetime.ident.to_string(),
            tokens: tokens_of(lifetime),
            has_bounds: !lifetime.bounds.is_empty(),
            default: TokenStream { trees: Vec::new() },
        },
        syn::GenericParam::Const(constant) => {
            let mut declared = constant.clone();
            declared.eq_token = None;
            declared.default = None;
            let mut default = proc_macro2::TokenStream::new();
            constant.eq_token.to_tokens(&mut default);
            constant.default.to_tokens(&mut default);
            GenericParam {
                kind: GenericParamKind::Const,
                ident: constant.ident.to_string(),
                tokens: tokens_of(&declared),
                has_bounds: false,
                default: stream_from(default),
            }
        }
    }
}

fn generics_from(generics: &syn::Generics) -> Generics {
    Generics {
        params: generics.params.iter().map(generic_param_from).collect(),
        where_clause: generics
            .where_clause
            .as_ref()
            .map(|clause| clause.predicates.iter().map(tokens_of).collect()),
    }
}

fn declaration_from(item: &syn::ItemStruct) -> StructDecl {
    let fields = match &item.fields {
        syn::Fields::Named(named) => FieldsDecl::Named(
            named
                .named
                .iter()
                .map(|field| FieldDecl {
                    attrs: field.attrs.iter().map(attribute_from).collect(),
                    vis: visibility_from(&field.vis),
                    ident: field.ident.as_ref().expect("a named field").to_string(),
                    ty: type_from(&field.ty),
                })
                .collect(),
        ),
        syn::Fields::Unnamed(_) => FieldsDecl::Unnamed,
        syn::Fields::Unit => FieldsDecl::Unit,
    };
    StructDecl {
        attrs: item.attrs.iter().map(attribute_from).collect(),
        vis: visibility_from(&item.vis),
        ident: item.ident.to_string(),
        generics: generics_from(&item.generics),
        fields,
    }
}

fn declaration(source: &str) -> StructDecl {
    declaration_from(&syn::parse_str::<syn::ItemStruct>(source).expect("a struct"))
}

fn analysed(source: &str) -> StructInfo {
    parse_struct(declaration(source)).expect("an accepted declaration")
}

fn spelled(tokens: proc_macro2::TokenStream) -> Vec<String> {
    let mut out = Vec::new();
    for tree in tokens {
        match tree {
            proc_macro2::TokenTree::Group(group) => {
                let (open, close) = match group.delimiter() {
                    proc_macro2::Delimiter::Parenthesis => ("(", ")"),
                    proc_macro2::Delimiter::Brace => ("{", "}"),
                    proc_macro2::Delimiter::Bracket => ("[", "]"),
                    proc_macro2::Delimiter::None => ("", ""),
                };
                out.push(open.to_string());
                out.extend(spelled(group.stream()));
                out.push(close.to_string());
            }
            other => out.push(other.to_string()),
        }
    }
    out
}

fn text(tokens: &TokenStream) -> String {
    spelled(stream_into(tokens)).join(" ")
}

fn source(code: &str) -> String {
    spelled(code.parse::<proc_macro2::TokenStream>().expect("tokens")).join(" ")
}

const NO_OPTIONS: Options = Options {
    do_no_doc: true,
    do_pub_extras: false,
};

const BOX_AND_REF: &str = "struct BoxAndRef { data: i32, #[borrows(data)] dref: &'this i32 }";

const BOX_AND_MUT_REF: &str =
    "struct BoxAndMutRef { data: i32, #[borrows(mut data)] dref: &'this mut i32 }";

const CHAINED: &str = "pub struct Chained {
    data: i32,
    #[borrows(data)]
    ref1: &'this i32,
    #[borrows(data, ref1)]
    ref2: &'this &'this i32,
}";

fn rejected(source: &str) -> Error {
    parse_struct(declaration(source)).expect_err("a rejected declaration")
}

fn at_call_site(kind: ErrorKind) -> Error {
    Error {
        kind,
        field: None,
        attr: None,
        token: None,
    }
}

fn roles(info: &StructInfo) -> Vec<FieldType> {
    info.fields.iter().map(|field| field.field_type).collect()
}

fn borrow(index: usize, mutable: bool) -> BorrowRequest {
    BorrowRequest { index, mutable }
}

fn covariance(ty: &str) -> Option<bool> {
    type_is_covariant_over_this_lifetime(&type_from(&syn::parse_str::<syn::Type>(ty).expect("a type")))
}

fn container(ty: &str) -> Option<(StdContainer, String)> {
    let parsed = type_from(&syn::parse_str::<syn::Type>(ty).expect("a type"));
    apparent_std_container_type(&parsed).map(|(kind, elem)| (kind, text(&elem.tokens)))
}

fn options(source: &str) -> Result<Options, Error> {
    parse_options(&stream_from(source.parse().expect("tokens")))
}

// The field classifier.

#[test]
fn borrowed_field_and_tail_field() {
    let info = analysed(BOX_AND_REF);
    assert_eq!(info.ident, "BoxAndRef");
    assert_eq!(info.internal_ident, "BoxAndRefInternal");
    assert_eq!(info.first_lifetime, "static");
    assert_eq!(info.fields.len(), 2);
    assert_eq!(info.fields[0].name, "data");
    assert_eq!(info.fields[1].name, "dref");
    assert_eq!(roles(&info), vec![FieldType::Borrowed, FieldType::Tail]);
    assert_eq!(info.fields[0].borrows, vec![]);
    assert_eq!(info.fields[1].borrows, vec![borrow(0, false)]);
    assert!(!info.fields[0].self_referencing);
    assert!(info.fields[1].self_referencing);
    assert_eq!(text(&info.fields[0].typ.tokens), source("i32"));
    assert_eq!(text(&info.fields[1].typ.tokens), source("&'this i32"));
    assert_eq!(info.fields[0].vis, Visibility::pub_super());
    assert_eq!(info.vis, Visibility::Inherited);
    assert!(info.derives.is_empty());
    assert!(info.attributes.is_empty());
}

#[test]
fn mutable_borrow_makes_the_field_mutably_borrowed() {
    let info = analysed(BOX_AND_MUT_REF);
    assert_eq!(roles(&info), vec![FieldType::BorrowedMut, FieldType::Tail]);
    assert_eq!(info.fields[1].borrows, vec![borrow(0, true)]);
    assert!(info.fields[0].is_borrowed());
    assert!(info.fields[0].is_mutably_borrowed());
    assert!(!info.fields[1].is_borrowed());
    assert!(!info.fields[1].is_mutably_borrowed());
}

#[test]
fn two_immutable_borrows_leave_the_field_borrowed() {
    let info = analysed(CHAINED);
    assert_eq!(
        roles(&info),
        vec![FieldType::Borrowed, FieldType::Borrowed, FieldType::Tail]
    );
    assert_eq!(info.fields[1].borrows, vec![borrow(0, false)]);
    assert_eq!(
        info.fields[2].borrows,
        vec![borrow(0, false), borrow(1, false)]
    );
    assert!(info.fields[0].is_borrowed());
    assert!(!info.fields[0].is_mutably_borrowed());
}

#[test]
fn exactly_the_named_fields_are_not_tail() {
    let info = analysed(
        "struct S { a: u8, b: u8, c: u8, #[borrows(a, mut c)] d: u8, #[borrows(a)] e: u8 }",
    );
    assert_eq!(
        roles(&info),
        vec![
            FieldType::Borrowed,
            FieldType::Tail,
            FieldType::BorrowedMut,
            FieldType::Tail,
            FieldType::Tail,
        ]
    );
    assert!(FieldType::Tail.is_tail());
    assert!(!FieldType::Borrowed.is_tail());
    assert!(!FieldType::BorrowedMut.is_tail());
}

#[test]
fn immutable_after_mutable_is_rejected() {
    let error = rejected("struct S { a: u8, #[borrows(mut a)] b: u8, #[borrows(a)] c: u8 }");
    assert_eq!(
        error,
        Error {
            kind: ErrorKind::ImmutableAfterMutable,
            field: Some(2),
            attr: Some(0),
            token: Some(0),
        }
    );
    assert_eq!(
        error.message(),
        "Cannot borrow as immutable as it was previously borrowed mutably."
    );
}

#[test]
fn mutable_after_immutable_is_rejected() {
    let error = rejected("struct S { a: u8, #[borrows(a)] b: u8, #[borrows(mut a)] c: u8 }");
    assert_eq!(
        error,
        Error {
            kind: ErrorKind::MutableAfterImmutable,
            field: Some(2),
            attr: Some(0),
            token: Some(1),
        }
    );
    assert_eq!(
        error.message(),
        "Cannot borrow mutably, this field was previously borrowed immutably."
    );
}

#[test]
fn mutable_twice_is_rejected() {
    let error = rejected("struct S { a: u8, #[borrows(mut a)] b: u8, #[borrows(mut a)] c: u8 }");
    assert_eq!(error.kind, ErrorKind::MutableTwice);
    assert_eq!(error.field, Some(2));
    assert_eq!(error.message(), "Cannot borrow mutably twice.");
    let same_attribute = rejected("struct S { a: u8, #[borrows(mut a, mut a)] b: u8 }");
    assert_eq!(
        same_attribute,
        Error {
            kind: ErrorKind::MutableTwice,
            field: Some(1),
            attr: Some(0),
            token: Some(4),
        }
    );
}

#[test]
fn unknown_forward_and_self_references_are_rejected() {
    let unknown = rejected("struct S { a: u8, #[borrows(nothing)] b: u8 }");
    assert_eq!(
        unknown,
        Error {
            kind: ErrorKind::UnknownField,
            field: Some(1),
            attr: Some(0),
            token: Some(0),
        }
    );
    let forward = rejected("struct S { #[borrows(b)] a: u8, b: u8 }");
    assert_eq!(forward.kind, ErrorKind::UnknownField);
    assert_eq!(forward.field, Some(0));
    let own = rejected("struct S { a: u8, #[borrows(b)] b: u8 }");
    assert_eq!(own.kind, ErrorKind::UnknownField);
    assert_eq!(own.field, Some(1));
}

#[test]
fn malformed_borrows_are_rejected() {
    let kind = |source: &str| rejected(source).kind;
    assert_eq!(
        kind("struct S { a: u8, b: u8, #[borrows(a b)] c: u8 }"),
        ErrorKind::ExpectedComma
    );
    assert_eq!(
        kind("struct S { a: u8, #[borrows(mut mut a)] b: u8 }"),
        ErrorKind::DoubleMut
    );
    assert_eq!(
        kind("struct S { a: u8, #[borrows(, a)] b: u8 }"),
        ErrorKind::ExtraComma
    );
    assert_eq!(
        kind("struct S { a: u8, #[borrows(a,, )] b: u8 }"),
        ErrorKind::ExtraComma
    );
    assert_eq!(
        kind("struct S { a: u8, #[borrows(a; a)] b: u8 }"),
        ErrorKind::UnexpectedPunctuation
    );
    assert_eq!(
        kind("struct S { a: u8, #[borrows(\"a\")] b: u8 }"),
        ErrorKind::UnexpectedToken
    );
    assert_eq!(
        kind("struct S { a: u8, #[borrows((a))] b: u8 }"),
        ErrorKind::UnexpectedToken
    );
    assert_eq!(
        kind("struct S { a: u8, #[borrows] b: u8 }"),
        ErrorKind::InvalidBorrowsSyntax
    );
    assert_eq!(
        kind("struct S { a: u8, #[borrows = \"a\"] b: u8 }"),
        ErrorKind::InvalidBorrowsSyntax
    );
}

#[test]
fn the_first_bad_token_gives_the_error() {
    assert_eq!(
        rejected("struct S { a: u8, #[borrows(nothing, , )] b: u8 }"),
        Error {
            kind: ErrorKind::UnknownField,
            field: Some(1),
            attr: Some(0),
            token: Some(0),
        }
    );
    assert_eq!(
        rejected("struct S { a: u8, #[doc = \"x\"] #[borrows(a, ; nothing)] b: u8 }"),
        Error {
            kind: ErrorKind::UnexpectedPunctuation,
            field: Some(1),
            attr: Some(1),
            token: Some(2),
        }
    );
}

#[test]
fn trailing_comma_and_empty_borrows_are_accepted() {
    let trailing = analysed("struct S { a: u8, #[borrows(a,)] b: u8 }");
    assert_eq!(trailing.fields[1].borrows, vec![borrow(0, false)]);
    let empty = analysed("struct S { a: u8, #[borrows(a)] b: u8, #[borrows()] c: u8 }");
    assert_eq!(empty.fields[2].borrows, vec![]);
    assert!(empty.fields[2].self_referencing);
    assert_eq!(empty.fields[2].field_type, FieldType::Tail);
}

#[test]
fn other_delimiters_hold_borrows_too() {
    let info = analysed("struct S { a: u8, #[borrows[a]] b: u8 }");
    assert_eq!(info.fields[1].borrows, vec![borrow(0, false)]);
}

#[test]
fn attributes_with_longer_paths_are_passed_over() {
    let info = analysed("struct S { a: u8, #[borrows(a)] #[some::borrows(b)] #[::covariant] b: &'this u8 }");
    assert_eq!(info.fields[1].borrows, vec![borrow(0, false)]);
    assert_eq!(info.fields[1].covariant, Some(true));
}

#[test]
fn borrows_twice_is_rejected() {
    assert_eq!(
        rejected("struct S { a: u8, #[borrows(a)] #[borrows(a)] b: u8 }"),
        Error {
            kind: ErrorKind::DuplicateBorrows,
            field: Some(1),
            attr: Some(1),
            token: None,
        }
    );
}

#[test]
fn covariance_may_be_stated_once_where_it_is_unknown() {
    let stated = analysed("struct S { a: u8, #[borrows(a)] #[covariant] b: Vec<&'this u8> }");
    assert_eq!(stated.fields[1].covariant, Some(true));
    let denied = analysed("struct S { a: u8, #[borrows(a)] #[not_covariant] b: Vec<&'this u8> }");
    assert_eq!(denied.fields[1].covariant, Some(false));
    let unknown = analysed("struct S { a: u8, #[borrows(a)] b: Vec<&'this u8> }");
    assert_eq!(unknown.fields[1].covariant, None);
    assert_eq!(
        rejected("struct S { a: u8, #[borrows(a)] #[covariant] #[not_covariant] b: Vec<&'this u8> }"),
        Error {
            kind: ErrorKind::DuplicateCovariance,
            field: Some(1),
            attr: Some(2),
            token: None,
        }
    );
    assert_eq!(
        rejected("struct S { a: u8, #[borrows(a)] #[covariant] b: &'this u8 }").kind,
        ErrorKind::DuplicateCovariance
    );
}

#[test]
fn shapes_without_named_fields_are_rejected() {
    assert_eq!(
        rejected("struct S(u8, u8);"),
        at_call_site(ErrorKind::TupleStruct)
    );
    assert_eq!(rejected("struct S;"), at_call_site(ErrorKind::UnitStruct));
    assert_eq!(
        rejected("struct S;").message(),
        "Unit structs cannot be self-referential."
    );
    assert_eq!(
        rejected("struct S(u8, u8);").message(),
        "Tuple structs are not supported yet."
    );
}

#[test]
fn fewer_than_two_fields_are_rejected() {
    assert_eq!(
        rejected("struct S { a: u8 }"),
        at_call_site(ErrorKind::TooFewFields)
    );
    assert_eq!(rejected("struct S {}"), at_call_site(ErrorKind::TooFewFields));
    assert_eq!(
        rejected("struct S { a: u8 }").message(),
        "Self-referencing structs must have at least 2 fields."
    );
}

#[test]
fn struct_of_tail_fields_is_rejected() {
    assert_eq!(
        rejected("struct S { a: u8, b: u8 }"),
        at_call_site(ErrorKind::AllTail)
    );
    assert_eq!(
        rejected("struct S { a: u8, #[borrows()] b: u8 }"),
        at_call_site(ErrorKind::AllTail)
    );
}

#[test]
fn errors_come_in_the_order_of_the_checks() {
    // A field is checked before the number of fields.
    assert_eq!(
        rejected("struct S { #[borrows(a)] a: u8 }").kind,
        ErrorKind::UnknownField
    );
    // The fields are checked before the attributes of the struct.
    assert_eq!(
        rejected("#[repr(C)] struct S { a: u8, b: u8 }").kind,
        ErrorKind::AllTail
    );
    // The first field that is wrong gives the error.
    assert_eq!(
        rejected("struct S { a: u8, #[borrows(mut a, a)] b: u8, #[borrows(x)] c: u8 }"),
        Error {
            kind: ErrorKind::ImmutableAfterMutable,
            field: Some(1),
            attr: Some(0),
            token: Some(3),
        }
    );
}

#[test]
fn struct_attributes_are_passed_through_or_rejected() {
    let info = analysed(
        "#[doc = \"text\"] #[allow(dead_code)] #[deny(warnings)] #[clippy::all] struct S { a: u8, #[borrows(a)] b: u8 }",
    );
    assert_eq!(info.attributes.len(), 4);
    assert_eq!(info.attributes[0].segments, vec!["doc".to_string()]);
    assert_eq!(info.attributes[1].segments, vec!["allow".to_string()]);
    assert_eq!(text(&info.attributes[1].tokens), source("(dead_code)"));
    assert_eq!(
        info.attributes[3].segments,
        vec!["clippy".to_string(), "all".to_string()]
    );
    assert_eq!(
        rejected("#[allow(dead_code)] #[repr(C)] struct S { a: u8, #[borrows(a)] b: u8 }"),
        Error {
            kind: ErrorKind::UnsupportedAttribute,
            field: None,
            attr: Some(1),
            token: None,
        }
    );
}

#[test]
fn derives_are_read() {
    let info = analysed("#[derive(Debug, PartialEq, Eq)] struct S { a: u8, #[borrows(a)] b: u8 }");
    assert_eq!(info.derives, vec![Derive::Debug, Derive::PartialEq, Derive::Eq]);
    let none = analysed("#[derive()] struct S { a: u8, #[borrows(a)] b: u8 }");
    assert!(none.derives.is_empty());
}

#[test]
fn derives_of_other_traits_are_rejected() {
    assert_eq!(
        rejected("#[derive(Debug, Clone)] struct S { a: u8, #[borrows(a)] b: u8 }"),
        Error {
            kind: ErrorKind::UnderivableTrait,
            field: None,
            attr: Some(0),
            token: Some(2),
        }
    );
    assert_eq!(
        rejected("#[derive(Debug)] #[derive(Eq)] struct S { a: u8, #[borrows(a)] b: u8 }"),
        Error {
            kind: ErrorKind::MultipleDerives,
            field: None,
            attr: Some(1),
            token: None,
        }
    );
    assert_eq!(
        rejected("#[derive = \"Debug\"] struct S { a: u8, #[borrows(a)] b: u8 }").kind,
        ErrorKind::BadDeriveSyntax
    );
    assert_eq!(
        rejected("#[derive[Debug]] struct S { a: u8, #[borrows(a)] b: u8 }").kind,
        ErrorKind::BadDeriveSyntax
    );
    assert_eq!(
        rejected("#[derive(Debug, (Eq))] struct S { a: u8, #[borrows(a)] b: u8 }"),
        Error {
            kind: ErrorKind::BadDeriveSyntax,
            field: None,
            attr: Some(0),
            token: Some(2),
        }
    );
}

#[test]
fn first_lifetime_parameter_is_the_internal_lifetime() {
    let first = analysed("struct S<'a, 'b, T> { a: &'a T, #[borrows(a)] b: &'this &'b T }");
    assert_eq!(first.first_lifetime, "a");
    assert_eq!(first.fake_lifetime(), "a");
    let later = analysed("struct S<T, 'a> { a: &'a T, #[borrows(a)] b: &'this T }");
    assert_eq!(later.first_lifetime, "static");
    assert_eq!(later.generic_params().len(), 2);
}

#[test]
fn field_visibility_moves_one_module_down() {
    let info = analysed(
        "pub(crate) struct S { pub a: u8, pub(super) b: u8, pub(in super::x) c: u8, #[borrows(a)] d: u8 }",
    );
    assert_eq!(text(&info.vis.to_tokens()), source("pub(crate)"));
    assert_eq!(text(&info.fields[0].vis.to_tokens()), source("pub"));
    assert_eq!(
        text(&info.fields[1].vis.to_tokens()),
        source("pub(in super::super)")
    );
    assert_eq!(
        text(&info.fields[2].vis.to_tokens()),
        source("pub(in super::super::x)")
    );
    assert_eq!(text(&info.fields[3].vis.to_tokens()), source("pub(super)"));
}

// The options of the attribute.

#[test]
fn options_are_read() {
    assert_eq!(
        options(""),
        Ok(Options {
            do_no_doc: false,
            do_pub_extras: false,
        })
    );
    assert_eq!(
        options("no_doc"),
        Ok(Options {
            do_no_doc: true,
            do_pub_extras: false,
        })
    );
    assert_eq!(
        options("pub_extras, no_doc,"),
        Ok(Options {
            do_no_doc: true,
            do_pub_extras: true,
        })
    );
}

#[test]
fn malformed_options_are_rejected() {
    let error = |source: &str| options(source).expect_err("rejected options");
    assert_eq!(
        error("no_doc pub_extras"),
        Error {
            kind: ErrorKind::OptionExpectedComma,
            field: None,
            attr: None,
            token: Some(1),
        }
    );
    assert_eq!(error("docs").kind, ErrorKind::UnknownOption);
    assert_eq!(error(", no_doc").kind, ErrorKind::OptionExpectedIdentifier);
    assert_eq!(
        error("no_doc; pub_extras"),
        Error {
            kind: ErrorKind::OptionUnknownPunctuation,
            field: None,
            attr: None,
            token: Some(1),
        }
    );
    assert_eq!(error("(no_doc)").kind, ErrorKind::OptionUnknownSyntax);
    assert_eq!(error("\"no_doc\"").kind, ErrorKind::OptionUnknownSyntax);
    assert_eq!(
        error("docs").message(),
        "Unknown identifier, expected 'no_doc' or 'pub_extras'."
    );
}

// The covariance analyzer.

#[test]
fn types_without_this_are_covariant() {
    assert_eq!(covariance("i32"), Some(true));
    assert_eq!(covariance("&'a mut Vec<fn(&'a ())>"), Some(true));
    assert_eq!(covariance("dyn Fn(&u8)"), Some(true));
}

#[test]
fn references_follow_their_target() {
    assert_eq!(covariance("&'this i32"), Some(true));
    assert_eq!(covariance("&'a &'this i32"), Some(true));
    assert_eq!(covariance("&'this Vec<&'this i32>"), None);
    // Only the lifetime of the reference itself names 'this.
    assert_eq!(covariance("&'this mut i32"), Some(true));
    assert_eq!(covariance("&'a mut &'this i32"), Some(false));
    assert_eq!(covariance("&'this mut Vec<&'this i32>"), Some(false));
}

#[test]
fn pointers_follow_their_target_unless_mutable() {
    assert_eq!(covariance("*const &'this i32"), Some(true));
    assert_eq!(covariance("*mut &'this i32"), Some(false));
    assert_eq!(covariance("*const fn(&'this ())"), None);
}

#[test]
fn wrappers_follow_their_element() {
    assert_eq!(covariance("[&'this i32; 4]"), Some(true));
    assert_eq!(covariance("[&'this i32]"), Some(true));
    assert_eq!(covariance("(&'this i32)"), Some(true));
    assert_eq!(covariance("[&'a mut &'this i32; 2]"), Some(false));
    assert_eq!(covariance("[fn(&'this ())]"), None);
}

#[test]
fn trusted_containers_are_covariant_in_their_element() {
    assert_eq!(covariance("Box<&'this i32>"), Some(true));
    assert_eq!(covariance("Rc<Arc<&'this i32>>"), Some(true));
    assert_eq!(covariance("std::boxed::Box<&'this ()>"), Some(true));
    assert_eq!(covariance("Box<&'a mut &'this ()>"), Some(false));
    assert_eq!(covariance("Box<Vec<&'this ()>>"), None);
    assert_eq!(covariance("Box<dyn Fn(&'this ())>"), None);
}

#[test]
fn other_paths_with_this_are_unknown() {
    assert_eq!(covariance("Vec<&'this i32>"), None);
    assert_eq!(covariance("Option<&'this i32>"), None);
    assert_eq!(covariance("Foo<'this>"), None);
    assert_eq!(covariance("Fn(&'this u8) -> u8"), None);
    assert_eq!(covariance("Fn(u8) -> &'this u8"), None);
    assert_eq!(covariance("Box<&'this i32, Global>"), None);
    assert_eq!(covariance("a::Foo<'this>::Bar<u8>"), None);
}

#[test]
fn qualified_self_type_is_examined_first() {
    assert_eq!(covariance("<&'this u8 as Trait>::Out"), Some(true));
    assert_eq!(covariance("<&'a mut &'this u8 as Trait>::Out"), Some(false));
    assert_eq!(covariance("<Vec<&'this u8> as Trait>::Out"), None);
    assert_eq!(covariance("<&'this u8 as Trait>::Out<&'this u8>"), None);
}

#[test]
fn shapes_that_do_not_tell_are_unknown() {
    assert_eq!(covariance("fn(&'this ())"), None);
    assert_eq!(covariance("dyn Fn(&'this ())"), None);
    assert_eq!(covariance("impl Fn(&'this ())"), None);
    assert_eq!(covariance("m!('this)"), None);
}

#[test]
fn tuples_combine_their_elements() {
    assert_eq!(covariance("(&'this i32, u8)"), Some(true));
    assert_eq!(covariance("(&'this i32, Vec<&'this u8>)"), None);
    assert_eq!(covariance("(&'this i32, &'a mut &'this u8)"), Some(false));
    // An element that is not covariant decides, even after one that does not tell.
    assert_eq!(
        covariance("(Vec<&'this u8>, &'a mut &'this u8)"),
        Some(false)
    );
    assert_eq!(
        covariance("(&'a mut &'this u8, Vec<&'this u8>)"),
        Some(false)
    );
}

#[test]
fn standard_containers_are_recognised_by_name_and_shape() {
    assert_eq!(
        container("Box<i32>"),
        Some((StdContainer::Box, source("i32")))
    );
    assert_eq!(
        container("std::sync::Arc<Vec<u8>>"),
        Some((StdContainer::Arc, source("Vec<u8>")))
    );
    assert_eq!(
        container("Rc<&'this u8>"),
        Some((StdContainer::Rc, source("&'this u8")))
    );
    assert_eq!(container("Box"), None);
    assert_eq!(container("Box<i32, Global>"), None);
    assert_eq!(container("Box<'a>"), None);
    assert_eq!(container("Vec<i32>"), None);
    assert_eq!(container("Box<i32>::Inner"), None);
    assert_eq!(container("&Box<i32>"), None);
    assert_eq!(container("Fn(u8)"), None);
}

fn assert_same(actual: &TokenStream, expected: &str) {
    let left = spelled(stream_into(actual));
    let right = spelled(expected.parse::<proc_macro2::TokenStream>().expect("tokens"));
    let mut at = 0;
    while at < left.len() && at < right.len() && left[at] == right[at] {
        at += 1;
    }
    if at < left.len() || at < right.len() {
        let from = at.saturating_sub(6);
        panic!(
            "token {} differs:\n  actual:   {}\n  expected: {}",
            at,
            left[from..left.len().min(at + 8)].join(" "),
            right[from..right.len().min(at + 8)].join(" "),
        );
    }
}

fn assert_glued(tokens: &TokenStream) {
    // What is printed from the tokens reads back as the same tokens: the
    // spacing of compound punctuation is right.
    let printed = stream_into(tokens).to_string();
    let read = printed.parse::<proc_macro2::TokenStream>().expect("tokens");
    assert_eq!(spelled(read), spelled(stream_into(tokens)));
}

const DOCUMENTED: Options = Options {
    do_no_doc: false,
    do_pub_extras: false,
};

const PUBLIC_EXTRAS: Options = Options {
    do_no_doc: true,
    do_pub_extras: true,
};

const MESS: &str = "pub struct Mess<'d, A: ?Sized, const N: usize> where A: 'd {
    external: &'d A,
    data1: Box<u8>,
    #[borrows(data1)]
    data2: &'this u8,
    data3: [u8; N],
    #[borrows(mut data3, data1)]
    #[covariant]
    data4: Holder<'this>,
}";

// The layout synthesizer.

#[test]
fn actual_struct_holds_the_stored_fields() {
    assert_same(
        &create_actual_struct_def(&analysed(BOX_AND_REF)).unwrap(),
        "#[repr(transparent)]
        pub(super) struct BoxAndRef <> {
            actual_data: ::core::mem::MaybeUninit<BoxAndRefInternal<>>,
        }",
    );
    assert_same(
        &create_actual_struct_def(&analysed(MESS)).unwrap(),
        "#[repr(transparent)]
        pub struct Mess <'d, A: ?Sized, const N: usize> where A: 'd {
            actual_data: ::core::mem::MaybeUninit<MessInternal<'d, A, N>>,
        }",
    );
}

#[test]
fn internal_struct_stores_the_fields_in_reverse() {
    assert_same(
        &create_internal_struct_def(&analysed(BOX_AND_REF)).unwrap(),
        "struct BoxAndRefInternal {
            #[doc(hidden)]
            dref: &'static i32,
            #[doc(hidden)]
            data: ::ouroboros::macro_help::AliasableBox<i32>
        }",
    );
}

#[test]
fn internal_struct_boxes_borrowed_fields_and_uses_the_internal_lifetime() {
    assert_same(
        &create_internal_struct_def(&analysed(MESS)).unwrap(),
        "struct MessInternal <'d, A: ?Sized, const N: usize> where A: 'd {
            #[doc(hidden)]
            data4: Holder<'d>,
            #[doc(hidden)]
            data3: ::ouroboros::macro_help::AliasableBox<[u8; N]>,
            #[doc(hidden)]
            data2: &'d u8,
            #[doc(hidden)]
            data1: ::ouroboros::macro_help::AliasableBox<Box<u8> >,
            #[doc(hidden)]
            external: &'d A
        }",
    );
}

#[test]
fn stored_type_is_boxed_exactly_for_borrowed_fields() {
    let info = analysed(BOX_AND_REF);
    assert_same(
        &info.fields[0].stored_type(),
        "::ouroboros::macro_help::AliasableBox<i32>",
    );
    assert_same(&info.fields[1].stored_type(), "&'this i32");
    assert_same(
        &info.fields[0].boxed(),
        "::ouroboros::macro_help::aliasable_boxed(data)",
    );
}

#[test]
fn destructor_destroys_the_stored_fields_in_place() {
    assert_same(
        &create_drop_impl(&analysed(MESS)).unwrap(),
        "impl <'d, A: ?Sized, const N: usize> ::core::ops::Drop for Mess<'d, A, N,> where A: 'd {
            fn drop(&mut self) {
                unsafe { self.actual_data.assume_init_drop() };
            }
        }",
    );
    assert_same(
        &create_drop_impl(&analysed(BOX_AND_REF)).unwrap(),
        "impl ::core::ops::Drop for BoxAndRef<> {
            fn drop(&mut self) {
                unsafe { self.actual_data.assume_init_drop() };
            }
        }",
    );
}

// Names and argument types.

#[test]
fn names_derive_from_the_field() {
    let info = analysed(BOX_AND_REF);
    assert_eq!(info.fields[1].builder_name(), "dref_builder");
    assert_eq!(
        info.fields[0].illegal_ref_name(),
        "data_illegal_static_reference"
    );
}

#[test]
fn erased_references_are_taken_through_the_runtime_support() {
    let info = analysed(BOX_AND_REF);
    assert_same(
        &info.fields[0].make_illegal_static_reference(),
        "let data_illegal_static_reference = unsafe {
            ::ouroboros::macro_help::change_lifetime(&*data)
        };",
    );
    assert_same(
        &info.fields[0].make_illegal_static_mut_reference(),
        "let data_illegal_static_reference = unsafe {
            ::ouroboros::macro_help::change_lifetime_mut(&mut *data)
        };",
    );
}

#[test]
fn plain_argument_has_the_type_of_the_field() {
    let info = analysed("struct S<'a> { a: &'a u8, #[borrows()] b: &'this u8, #[borrows(a)] c: u8 }");
    for builder_type in [BuilderType::Sync, BuilderType::Async, BuilderType::AsyncSend] {
        match info.fields[1].make_constructor_arg_type(&info, builder_type).unwrap() {
            ArgType::Plain(plain) => assert_same(&plain, "&'a u8"),
            ArgType::TraitBound(_) => panic!("a field that borrows nothing has no builder"),
        }
        match info.fields[1].make_try_constructor_arg_type(&info, builder_type).unwrap() {
            ArgType::Plain(plain) => assert_same(&plain, "&'a u8"),
            ArgType::TraitBound(_) => panic!("a field that borrows nothing has no builder"),
        }
    }
}

fn bound(info: &StructInfo, field: usize, builder_type: BuilderType, fallible: bool) -> TokenStream {
    let made = if fallible {
        info.fields[field].make_try_constructor_arg_type(info, builder_type)
    } else {
        info.fields[field].make_constructor_arg_type(info, builder_type)
    };
    match made.unwrap() {
        ArgType::TraitBound(bound) => bound,
        ArgType::Plain(_) => panic!("a field that borrows has a builder"),
    }
}

#[test]
fn builder_receives_one_reference_for_each_borrow() {
    let info = analysed(MESS);
    assert_same(
        &bound(&info, 4, BuilderType::Sync, false),
        "for<'this> ::core::ops::FnOnce(&'this mut [u8; N], &'this Box<u8>) -> Holder<'this>",
    );
    assert_same(
        &bound(&info, 2, BuilderType::Sync, true),
        "for<'this> ::core::ops::FnOnce(&'this Box<u8>) -> ::core::result::Result<&'this u8, Error_>",
    );
}

#[test]
fn asynchronous_builders_return_boxed_futures() {
    let info = analysed(BOX_AND_REF);
    assert_same(
        &bound(&info, 1, BuilderType::Async, false),
        "for<'this> ::core::ops::FnOnce(&'this i32) -> ::core::pin::Pin<::ouroboros::macro_help::alloc::boxed::Box<
            dyn ::core::future::Future<Output=&'this i32> + 'this> >",
    );
    assert_same(
        &bound(&info, 1, BuilderType::AsyncSend, false),
        "for<'this> ::core::ops::FnOnce(&'this i32) -> ::core::pin::Pin<::ouroboros::macro_help::alloc::boxed::Box<
            dyn ::core::future::Future<Output=&'this i32> + ::core::marker::Send + 'this> >",
    );
    assert_same(
        &bound(&info, 1, BuilderType::Async, true),
        "for<'this> ::core::ops::FnOnce(&'this i32) -> ::core::pin::Pin<::ouroboros::macro_help::alloc::boxed::Box<
            dyn ::core::future::Future<Output=::core::result::Result<&'this i32, Error_> > + 'this> >",
    );
    assert_same(
        &bound(&info, 1, BuilderType::AsyncSend, true),
        "for<'this> ::core::ops::FnOnce(&'this i32) -> ::core::pin::Pin<::ouroboros::macro_help::alloc::boxed::Box<
            dyn ::core::future::Future<Output=::core::result::Result<&'this i32, Error_> >
                + ::core::marker::Send + 'this> >",
    );
    assert_glued(&bound(&info, 1, BuilderType::AsyncSend, true));
    assert!(BuilderType::Async.is_async());
    assert!(BuilderType::AsyncSend.is_async());
    assert!(!BuilderType::Sync.is_async());
}

#[test]
fn generic_parameters_get_the_borrow_lifetimes_in_front() {
    let info = analysed(MESS);
    assert_same(
        &info.borrowed_generic_params(),
        "<'outer_borrow, 'this, 'd, A: ?Sized, const N: usize>",
    );
    assert_same(&info.borrowed_generic_params_inferred(), "<'_, '_, 'd, A, N,>");
    assert_same(
        &TokenStream::separated(&info.borrowed_generic_arguments(), ','),
        "'outer_borrow, 'this, 'd, A, N",
    );
    assert_same(&TokenStream::separated(&info.generic_arguments(), ','), "'d, A, N");
    let names: Vec<String> = info
        .generic_consumers()
        .into_iter()
        .map(|(_, name)| name)
        .collect();
    assert_eq!(
        names,
        vec![
            "_consume_template_lifetime_d",
            "_consume_template_type_a",
            "_comsume_template_const_parameter_n",
        ]
    );
    let plain = analysed(BOX_AND_REF);
    assert_same(&plain.borrowed_generic_params(), "<'outer_borrow, 'this>");
    assert_same(&plain.borrowed_generic_params_inferred(), "<'_, '_,>");
}

// The constructor generator.

#[test]
fn constructor_builds_the_fields_in_declaration_order() {
    let (name, builder, constructor) =
        create_builder_and_constructor(&analysed(BOX_AND_REF), NO_OPTIONS, BuilderType::Sync)
            .unwrap();
    assert_eq!(name, "BoxAndRefBuilder");
    assert_same(
        &constructor,
        "#[doc(hidden)]
        pub(super) fn new(
            data: i32,
            dref_builder: impl for<'this> ::core::ops::FnOnce(&'this i32) -> &'this i32
        ) -> BoxAndRef <> {
            let data = ::ouroboros::macro_help::aliasable_boxed(data);
            let data_illegal_static_reference = unsafe {
                ::ouroboros::macro_help::change_lifetime(&*data)
            };
            let dref = dref_builder(data_illegal_static_reference);
            unsafe {
                Self {
                    actual_data: ::core::mem::MaybeUninit::new(BoxAndRefInternal {
                        data, dref
                    })
                }
            }
        }",
    );
    assert_same(
        &builder,
        "#[doc(hidden)]
        pub(super) struct BoxAndRefBuilder <DrefBuilder_: for<'this> ::core::ops::FnOnce(&'this i32) -> &'this i32> {
            pub(super) data: i32,
            pub(super) dref_builder: DrefBuilder_
        }
        impl<DrefBuilder_: for<'this> ::core::ops::FnOnce(&'this i32) -> &'this i32> BoxAndRefBuilder <DrefBuilder_> {
            #[doc=\"Calls the constructor with the provided values.\"]
            pub(super) fn build(self) -> BoxAndRef <> {
                BoxAndRef::new(self.data, self.dref_builder)
            }
        }",
    );
}

#[test]
fn mutably_borrowed_field_is_boxed_in_a_mutable_local() {
    let (_, _, constructor) =
        create_builder_and_constructor(&analysed(MESS), PUBLIC_EXTRAS, BuilderType::Sync).unwrap();
    assert_same(
        &constructor,
        "#[doc(hidden)]
        pub fn new(
            external: &'d A,
            data1: Box<u8>,
            data2_builder: impl for<'this> ::core::ops::FnOnce(&'this Box<u8>) -> &'this u8,
            data3: [u8; N],
            data4_builder: impl for<'this> ::core::ops::FnOnce(&'this mut [u8; N], &'this Box<u8>) -> Holder<'this>
        ) -> Mess <'d, A, N> {
            let data1 = ::ouroboros::macro_help::aliasable_boxed(data1);
            let data1_illegal_static_reference = unsafe {
                ::ouroboros::macro_help::change_lifetime(&*data1)
            };
            let data2 = data2_builder(data1_illegal_static_reference);
            let mut data3 = ::ouroboros::macro_help::aliasable_boxed(data3);
            let data3_illegal_static_reference = unsafe {
                ::ouroboros::macro_help::change_lifetime_mut(&mut *data3)
            };
            let data4 = data4_builder(data3_illegal_static_reference, data1_illegal_static_reference);
            unsafe {
                Self {
                    actual_data: ::core::mem::MaybeUninit::new(MessInternal {
                        external, data1, data2, data3, data4
                    })
                }
            }
        }",
    );
}

#[test]
fn asynchronous_constructors_await_their_builders() {
    let info = analysed(BOX_AND_REF);
    let (name, builder, constructor) =
        create_builder_and_constructor(&info, NO_OPTIONS, BuilderType::Async).unwrap();
    assert_eq!(name, "BoxAndRefAsyncBuilder");
    assert_same(
        &constructor,
        "#[doc(hidden)]
        pub(super) async fn new_async(
            data: i32,
            dref_builder: impl for<'this> ::core::ops::FnOnce(&'this i32) -> ::core::pin::Pin<::ouroboros::macro_help::alloc::boxed::Box<
                dyn ::core::future::Future<Output=&'this i32> + 'this> >
        ) -> BoxAndRef <> {
            let data = ::ouroboros::macro_help::aliasable_boxed(data);
            let data_illegal_static_reference = unsafe {
                ::ouroboros::macro_help::change_lifetime(&*data)
            };
            let dref = dref_builder(data_illegal_static_reference).await;
            unsafe {
                Self {
                    actual_data: ::core::mem::MaybeUninit::new(BoxAndRefInternal {
                        data, dref
                    })
                }
            }
        }",
    );
    assert!(text(&builder).contains(&source(
        "pub(super) async fn build(self) -> BoxAndRef <> {
            BoxAndRef::new_async(self.data, self.dref_builder).await
        }"
    )));
    let (name, builder, constructor) =
        create_builder_and_constructor(&info, NO_OPTIONS, BuilderType::AsyncSend).unwrap();
    assert_eq!(name, "BoxAndRefAsyncSendBuilder");
    assert!(text(&constructor).contains(&source("pub(super) async fn new_async_send")));
    assert!(text(&builder).contains(&source(
        "pub(super) async fn build(self) -> BoxAndRef <> {
            BoxAndRef::new_async_send(self.data, self.dref_builder).await
        }"
    )));
}

#[test]
fn builder_struct_has_one_parameter_for_each_builder() {
    let (name, builder, _) =
        create_builder_and_constructor(&analysed(MESS), PUBLIC_EXTRAS, BuilderType::Sync).unwrap();
    assert_eq!(name, "MessBuilder");
    assert_same(
        &builder,
        "#[doc(hidden)]
        pub struct MessBuilder <
            'd, A: ?Sized, const N: usize,
            Data2Builder_: for<'this> ::core::ops::FnOnce(&'this Box<u8>) -> &'this u8,
            Data4Builder_: for<'this> ::core::ops::FnOnce(&'this mut [u8; N], &'this Box<u8>) -> Holder<'this>
        > where A: 'd {
            pub external: &'d A,
            pub data1: Box<u8>,
            pub data2_builder: Data2Builder_,
            pub data3: [u8; N],
            pub data4_builder: Data4Builder_
        }
        impl<
            'd, A: ?Sized, const N: usize,
            Data2Builder_: for<'this> ::core::ops::FnOnce(&'this Box<u8>) -> &'this u8,
            Data4Builder_: for<'this> ::core::ops::FnOnce(&'this mut [u8; N], &'this Box<u8>) -> Holder<'this>
        > MessBuilder <'d, A, N, Data2Builder_, Data4Builder_> where A: 'd {
            #[doc=\"Calls the constructor with the provided values.\"]
            pub fn build(self) -> Mess <'d, A, N> {
                Mess::new(self.external, self.data1, self.data2_builder, self.data3, self.data4_builder)
            }
        }",
    );
}

#[test]
fn documentation_is_written_unless_switched_off() {
    let (_, builder, constructor) =
        create_builder_and_constructor(&analysed(BOX_AND_REF), DOCUMENTED, BuilderType::Sync)
            .unwrap();
    assert!(text(&constructor).starts_with(&source(
        "#[doc = \"Constructs a new instance of this self-referential struct. Each argument is a field of the new struct. Fields that refer to other fields inside the struct are initialized using functions instead of directly passing their value.\"] pub(super) fn new"
    )));
    assert!(text(&builder).starts_with(&source(
        "#[doc = \"A more verbose but stable way to construct self-referencing structs. Call build() to construct the actual struct.\"] pub(super) struct"
    )));
}

// The fallible constructors.

#[test]
fn fallible_constructor_returns_the_heads_on_failure() {
    let (name, builder, constructors) =
        create_try_builder_and_constructor(&analysed(BOX_AND_REF), NO_OPTIONS, BuilderType::Sync)
            .unwrap();
    assert_eq!(name, "BoxAndRefTryBuilder");
    assert_same(
        &constructors,
        "#[doc(hidden)]
        pub(super) fn try_new<Error_>(
            data: i32,
            dref_builder: impl for<'this> ::core::ops::FnOnce(&'this i32) -> ::core::result::Result<&'this i32, Error_>
        ) -> ::core::result::Result<BoxAndRef <>, Error_> {
            BoxAndRef::try_new_or_recover(data, dref_builder).map_err(|(error, _heads)| error)
        }
        #[doc(hidden)]
        pub(super) fn try_new_or_recover<Error_>(
            data: i32,
            dref_builder: impl for<'this> ::core::ops::FnOnce(&'this i32) -> ::core::result::Result<&'this i32, Error_>
        ) -> ::core::result::Result<BoxAndRef <>, (Error_, Heads<>)> {
            let data = ::ouroboros::macro_help::aliasable_boxed(data);
            let data_illegal_static_reference = unsafe {
                ::ouroboros::macro_help::change_lifetime(&*data)
            };
            let dref = match dref_builder(data_illegal_static_reference) {
                ::core::result::Result::Ok(value) => value,
                ::core::result::Result::Err(err)
                    => return ::core::result::Result::Err((err, Heads { data: ::ouroboros::macro_help::unbox(data) })),
            };
            ::core::result::Result::Ok(unsafe {
                Self {
                    actual_data: ::core::mem::MaybeUninit::new(BoxAndRefInternal {
                        data, dref
                    })
                }
            })
        }",
    );
    assert_same(
        &builder,
        "#[doc(hidden)]
        pub(super) struct BoxAndRefTryBuilder <DrefBuilder_: for<'this> ::core::ops::FnOnce(&'this i32) -> ::core::result::Result<&'this i32, Error_>, Error_> {
            pub(super) data: i32,
            pub(super) dref_builder: DrefBuilder_
        }
        impl<DrefBuilder_: for<'this> ::core::ops::FnOnce(&'this i32) -> ::core::result::Result<&'this i32, Error_>, Error_> BoxAndRefTryBuilder <DrefBuilder_, Error_> {
            #[doc=\"Calls the fallible constructor with the provided values.\"]
            pub(super) fn try_build(self) -> ::core::result::Result<BoxAndRef <>, Error_> {
                BoxAndRef::try_new(self.data, self.dref_builder)
            }
            #[doc=\"Calls the fallible constructor that recovers the head fields with the provided values.\"]
            pub(super) fn try_build_or_recover(self) -> ::core::result::Result<BoxAndRef <>, (Error_, Heads<>)> {
                BoxAndRef::try_new_or_recover(self.data, self.dref_builder)
            }
        }",
    );
}

#[test]
fn heads_declared_after_the_failing_field_are_still_arguments() {
    let (_, _, constructors) =
        create_try_builder_and_constructor(&analysed(MESS), NO_OPTIONS, BuilderType::Async)
            .unwrap();
    let made = text(&constructors);
    // When the builder of data2 fails, data1 is boxed and data3 is not yet.
    assert!(made.contains(&source(
        "let data2 = match data2_builder(data1_illegal_static_reference).await {
            ::core::result::Result::Ok(value) => value,
            ::core::result::Result::Err(err) => return ::core::result::Result::Err((err, Heads {
                external,
                data1: ::ouroboros::macro_help::unbox(data1),
                data3,
                _consume_template_lifetime_d: ::core::marker::PhantomData,
                _consume_template_type_a: ::core::marker::PhantomData,
                _comsume_template_const_parameter_n: ::core::marker::PhantomData
            })),
        };"
    )));
    // When the builder of data4 fails, both are boxed.
    assert!(made.contains(&source(
        "let data4 = match data4_builder(data3_illegal_static_reference, data1_illegal_static_reference).await {
            ::core::result::Result::Ok(value) => value,
            ::core::result::Result::Err(err) => return ::core::result::Result::Err((err, Heads {
                external,
                data1: ::ouroboros::macro_help::unbox(data1),
                data3: ::ouroboros::macro_help::unbox(data3),
                _consume_template_lifetime_d: ::core::marker::PhantomData,
                _consume_template_type_a: ::core::marker::PhantomData,
                _comsume_template_const_parameter_n: ::core::marker::PhantomData
            })),
        };"
    )));
    assert!(made.contains(&source(
        "pub(super) async fn try_new_async<Error_>"
    )));
    assert!(made.contains(&source(
        "Mess::try_new_or_recover_async(external, data1, data2_builder, data3, data4_builder).await.map_err(|(error, _heads)| error)"
    )));
    // The builder of data2 is called before that of data4.
    assert!(
        made.find(&source("= match data2_builder")).unwrap()
            < made.find(&source("= match data4_builder")).unwrap()
    );
}

#[test]
fn fallible_builders_are_named_after_their_flavour() {
    let info = analysed(BOX_AND_REF);
    let (name, builder, constructors) =
        create_try_builder_and_constructor(&info, NO_OPTIONS, BuilderType::AsyncSend).unwrap();
    assert_eq!(name, "BoxAndRefAsyncSendTryBuilder");
    assert!(text(&constructors).contains(&source("async fn try_new_async_send<Error_>")));
    assert!(text(&constructors).contains(&source("async fn try_new_or_recover_async_send<Error_>")));
    assert!(text(&builder).contains(&source(
        "BoxAndRef::try_new_or_recover_async_send(self.data, self.dref_builder).await"
    )));
    assert!(text(&builder).contains(&source("pub(super) async fn try_build_or_recover(self)")));
    let (name, _, _) =
        create_try_builder_and_constructor(&info, NO_OPTIONS, BuilderType::Async).unwrap();
    assert_eq!(name, "BoxAndRefAsyncTryBuilder");
}

// The accessor generator.

#[test]
fn accessors_depend_on_role_and_covariance() {
    let info = analysed(
        "struct S {
            a: u8,
            b: u8,
            c: u8,
            #[borrows(a, mut b)] #[not_covariant] d: Vec<&'this u8>,
            #[borrows(a)] #[covariant] e: Vec<&'this u8>,
            #[borrows(d)] f: &'this u8,
        }",
    );
    let lists: Vec<Vec<Accessor>> = info.fields.iter().map(field_accessors).collect();
    assert_eq!(
        lists,
        vec![
            // Borrowed and covariant.
            vec![Accessor::With, Accessor::Borrow],
            // Mutably borrowed.
            vec![],
            // Tail and covariant.
            vec![Accessor::With, Accessor::Borrow, Accessor::WithMut],
            // Borrowed and stated not to be covariant.
            vec![Accessor::With],
            // Tail and stated to be covariant.
            vec![Accessor::With, Accessor::Borrow, Accessor::WithMut],
            vec![Accessor::With, Accessor::Borrow, Accessor::WithMut],
        ]
    );
    let (users, errors) = make_with_functions(&info, NO_OPTIONS);
    assert_eq!(users.len(), 12);
    assert!(errors.is_empty());
    let all: Vec<String> = users.iter().map(text).collect();
    assert!(all.iter().any(|user| user.contains("fn borrow_a <")));
    assert!(!all.iter().any(|user| user.contains("with_b ")));
    assert!(!all.iter().any(|user| user.contains("borrow_b ")));
    assert!(!all.iter().any(|user| user.contains("fn borrow_d <")));
    assert!(all.iter().any(|user| user.contains("fn with_d <")));
    assert!(all.iter().any(|user| user.contains("fn borrow_e <")));
}

#[test]
fn unknown_covariance_is_an_error_at_the_field() {
    let info = analysed("struct S { a: u8, #[borrows(a)] b: Vec<&'this u8>, #[borrows(mut b)] c: Vec<&'this u8> }");
    let (users, errors) = make_with_functions(&info, NO_OPTIONS);
    // The mutably borrowed field b gets no accessor and needs no covariance.
    assert_eq!(
        errors,
        vec![Error {
            kind: ErrorKind::UnknownCovariance,
            field: Some(2),
            attr: None,
            token: None,
        }]
    );
    assert_eq!(users.len(), 4);
    assert_eq!(
        info.fields[2].covariance_error().message(),
        "Ouroboros cannot automatically determine if this type is covariant. To resolve this error, add #[covariant] or #[not_covariant] to the field."
    );
}

#[test]
fn field_accessors_hand_out_scoped_references() {
    let (users, errors) = make_with_functions(&analysed(BOX_AND_REF), NO_OPTIONS);
    assert!(errors.is_empty());
    assert_eq!(users.len(), 5);
    assert_same(
        &users[0],
        "#[doc(hidden)]
        #[inline(always)]
        pub(super) fn with_data <'outer_borrow, ReturnType>(
            &'outer_borrow self,
            user: impl for<'this> ::core::ops::FnOnce(&'outer_borrow i32) -> ReturnType,
        ) -> ReturnType {
            let field = &unsafe { self.actual_data.assume_init_ref() }.data;
            user(field)
        }",
    );
    assert_same(
        &users[1],
        "#[doc(hidden)]
        #[inline(always)]
        pub(super) fn borrow_data<'this>(
            &'this self,
        ) -> &'this i32 {
            &unsafe { self.actual_data.assume_init_ref() }.data
        }",
    );
    assert_same(
        &users[2],
        "#[doc(hidden)]
        #[inline(always)]
        pub(super) fn with_dref <'outer_borrow, ReturnType>(
            &'outer_borrow self,
            user: impl for<'this> ::core::ops::FnOnce(&'outer_borrow &'this i32) -> ReturnType,
        ) -> ReturnType {
            let field = &unsafe { self.actual_data.assume_init_ref() }.dref;
            user(field)
        }",
    );
    assert_same(
        &users[3],
        "#[doc(hidden)]
        #[inline(always)]
        pub(super) fn borrow_dref<'this>(
            &'this self,
        ) -> &'this &'this i32 {
            &unsafe { self.actual_data.assume_init_ref() }.dref
        }",
    );
    assert_same(
        &users[4],
        "#[doc(hidden)]
        #[inline(always)]
        pub(super) fn with_dref_mut <'outer_borrow, ReturnType>(
            &'outer_borrow mut self,
            user: impl for<'this> ::core::ops::FnOnce(&'outer_borrow mut &'this i32) -> ReturnType,
        ) -> ReturnType {
            let field = &mut unsafe { self.actual_data.assume_init_mut() }.dref;
            user(field)
        }",
    );
}

#[test]
fn accessors_have_the_visibility_of_their_field() {
    let info = analysed("struct S { pub a: u8, #[borrows(a)] pub(crate) b: &'this u8 }");
    let (users, _) = make_with_functions(&info, DOCUMENTED);
    assert!(text(&users[0]).starts_with(&source(
        "#[doc = \"Provides an immutable reference to this field.\"] #[inline(always)] pub fn with_a"
    )));
    assert!(text(&users[1]).starts_with(&source(
        "#[doc = \"Returns an immutable reference to this field.\"] #[inline(always)] pub fn borrow_a"
    )));
    assert!(text(&users[4]).contains(&source("pub(crate) fn with_b_mut")));
}

#[test]
fn with_hands_out_every_field_that_can_be_read() {
    let (aggregate, accessor) = make_with_all_function(&analysed(MESS), NO_OPTIONS).unwrap();
    assert_same(
        &aggregate,
        "#[doc=\"A struct for holding immutable references to all tail and immutably borrowed fields in an instance of the self-referencing struct.\"]
        pub(super) struct BorrowedFields <'outer_borrow, 'this, 'd, A: ?Sized, const N: usize>
        where A: 'd, 'd: 'this, 'this: 'outer_borrow {
            pub(super) data4: &'outer_borrow Holder<'this>,
            pub(super) data2: &'outer_borrow &'this u8,
            pub(super) data1: &'this Box<u8>,
            pub(super) external: &'outer_borrow &'d A,
            _consume_template_lifetime_d: ::core::marker::PhantomData<&'d ()>,
            _consume_template_type_a: ::core::marker::PhantomData<A>,
            _comsume_template_const_parameter_n: ::core::marker::PhantomData<()>
        }",
    );
    assert_same(
        &accessor,
        "#[doc(hidden)]
        #[inline(always)]
        pub(super) fn with <'outer_borrow, ReturnType>(
            &'outer_borrow self,
            user: impl for<'this> ::core::ops::FnOnce(BorrowedFields<'outer_borrow, 'this, 'd, A, N>) -> ReturnType
        ) -> ReturnType {
            let this = unsafe { self.actual_data.assume_init_ref() };
            user(BorrowedFields {
                data4: &this.data4,
                data2: &this.data2,
                data1: unsafe {
                    ::ouroboros::macro_help::change_lifetime(
                        &*this.data1
                    )
                },
                external: &this.external,
                _consume_template_lifetime_d: ::core::marker::PhantomData,
                _consume_template_type_a: ::core::marker::PhantomData,
                _comsume_template_const_parameter_n: ::core::marker::PhantomData
            })
        }",
    );
}

#[test]
fn with_adds_its_bounds_where_no_clause_is_written() {
    let (aggregate, _) = make_with_all_function(&analysed(BOX_AND_REF), PUBLIC_EXTRAS).unwrap();
    assert_same(
        &aggregate,
        "#[doc=\"A struct for holding immutable references to all tail and immutably borrowed fields in an instance of the self-referencing struct.\"]
        struct BorrowedFields <'outer_borrow, 'this>
        where 'static: 'this, 'this: 'outer_borrow {
            dref: &'outer_borrow &'this i32,
            data: &'this i32
        }",
    );
}

#[test]
fn references_cannot_move_between_fields() {
    // Two fields that hold references into different fields get lifetimes of
    // their own in the mutable aggregate, so that the reference of one cannot
    // be stored in the other.
    let info = analysed(
        "struct S { data: u8, other: u8, #[borrows(data)] ref1: &'this u8, #[borrows(other)] ref2: &'this u8 }",
    );
    let (aggregate, accessor) = make_with_all_mut_function(&info, NO_OPTIONS).unwrap();
    assert_same(
        &aggregate,
        "#[doc=\"A struct for holding mutable references to all tail fields in an instance of the self-referencing struct.\"]
        pub(super) struct BorrowedMutFields <'outer_borrow, 'this1, 'this0>
        where 'static: 'this0, 'static: 'this1, 'this1: 'this0 {
            pub(super) ref2: &'outer_borrow mut &'this0 u8,
            pub(super) ref1: &'outer_borrow mut &'this1 u8
        }",
    );
    assert!(text(&accessor).contains(&source(
        "user: impl for<'this0, 'this1> ::core::ops::FnOnce(BorrowedMutFields<'outer_borrow, 'this1, 'this0>) -> ReturnType"
    )));
    // The borrowed fields themselves are not handed out mutably, and have
    // no mutable accessor of their own.
    let (users, _) = make_with_functions(&info, NO_OPTIONS);
    let all: Vec<String> = users.iter().map(text).collect();
    assert!(!all.iter().any(|user| user.contains("fn with_data_mut ")));
    assert!(!all.iter().any(|user| user.contains("fn with_other_mut ")));
    assert!(all.iter().any(|user| user.contains("fn with_ref1_mut ")));
}

#[test]
fn with_mut_gives_every_field_a_lifetime_of_its_own() {
    let (aggregate, accessor) = make_with_all_mut_function(&analysed(MESS), NO_OPTIONS).unwrap();
    assert_same(
        &aggregate,
        "#[doc=\"A struct for holding mutable references to all tail fields in an instance of the self-referencing struct.\"]
        pub(super) struct BorrowedMutFields <'outer_borrow, 'this2, 'this0, 'd, A: ?Sized, const N: usize>
        where A: 'd, 'd: 'this0, 'd: 'this2, 'this2: 'this0 {
            pub(super) data4: &'outer_borrow mut Holder<'this0>,
            pub(super) data2: &'outer_borrow mut &'this2 u8,
            pub(super) external: &'outer_borrow mut &'d A,
            _consume_template_lifetime_d: ::core::marker::PhantomData<&'d ()>,
            _consume_template_type_a: ::core::marker::PhantomData<A>,
            _comsume_template_const_parameter_n: ::core::marker::PhantomData<()>
        }",
    );
    assert_same(
        &accessor,
        "#[doc(hidden)]
        #[inline(always)]
        pub(super) fn with_mut <'outer_borrow, ReturnType>(
            &'outer_borrow mut self,
            user: impl for<'this0, 'this2> ::core::ops::FnOnce(BorrowedMutFields<'outer_borrow, 'this2, 'this0, 'd, A, N>) -> ReturnType
        ) -> ReturnType {
            let this = unsafe { self.actual_data.assume_init_mut() };
            user(BorrowedMutFields {
                data4: &mut this.data4,
                data2: &mut this.data2,
                external: &mut this.external,
                _consume_template_lifetime_d: ::core::marker::PhantomData,
                _consume_template_type_a: ::core::marker::PhantomData,
                _comsume_template_const_parameter_n: ::core::marker::PhantomData
            })
        }",
    );
}

// The teardown generator.

#[test]
fn into_heads_drops_borrowers_before_it_takes_the_heads() {
    let (heads, into_heads) = make_into_heads(&analysed(MESS), NO_OPTIONS);
    assert_same(
        &heads,
        "#[doc=\"A struct which contains only the head fields of the self-referencing struct.\"]
        pub(super) struct Heads <'d, A: ?Sized, const N: usize> where A: 'd {
            pub(super) data3: [u8; N],
            pub(super) data1: Box<u8>,
            pub(super) external: &'d A,
            _consume_template_lifetime_d: ::core::marker::PhantomData<&'d ()>,
            _consume_template_type_a: ::core::marker::PhantomData<A>,
            _comsume_template_const_parameter_n: ::core::marker::PhantomData<()>
        }",
    );
    assert_same(
        &into_heads,
        "#[doc(hidden)]
        #[allow(clippy::drop_ref)]
        #[allow(clippy::drop_copy)]
        #[allow(clippy::drop_non_drop)]
        pub(super) fn into_heads(self) -> Heads<'d, A, N> {
            let this_ptr = &self as *const _;
            let this: MessInternal<'d, A, N> = unsafe { ::core::mem::transmute_copy(&*this_ptr) };
            ::core::mem::forget(self);
            ::core::mem::drop(this.data4);
            let data3 = this.data3;
            ::core::mem::drop(this.data2);
            let data1 = this.data1;
            let external = this.external;
            Heads {
                data3: ::ouroboros::macro_help::unbox(data3),
                data1: ::ouroboros::macro_help::unbox(data1),
                external,
                _consume_template_lifetime_d: ::core::marker::PhantomData,
                _consume_template_type_a: ::core::marker::PhantomData,
                _comsume_template_const_parameter_n: ::core::marker::PhantomData
            }
        }",
    );
}

#[test]
fn heads_of_the_smallest_struct() {
    let (heads, into_heads) = make_into_heads(&analysed(BOX_AND_REF), DOCUMENTED);
    assert_same(
        &heads,
        "#[doc=\"A struct which contains only the head fields of the self-referencing struct.\"]
        pub(super) struct Heads <> {
            pub(super) data: i32
        }",
    );
    assert!(text(&into_heads).starts_with(&source(
        "#[doc = \"This function drops all internally referencing fields and returns only the head fields of this struct.\"] #[allow(clippy::drop_ref)]"
    )));
    assert!(text(&into_heads).contains(&source(
        "::core::mem::forget(self);
        ::core::mem::drop(this.dref);
        let data = this.data;
        Heads { data: ::ouroboros::macro_help::unbox(data) }"
    )));
}

// The checks that the compiler is left with.

#[test]
fn checker_builds_the_fields_with_ordinary_borrows() {
    assert_same(
        &generate_checker_summoner(&analysed(MESS)).unwrap(),
        "fn check_if_okay_according_to_checkers<'d, A: ?Sized, const N: usize>(
            external: &'d A,
            data1: Box<u8>,
            data2_builder: impl for<'this> ::core::ops::FnOnce(&'this Box<u8>) -> &'this u8,
            data3: [u8; N],
            data4_builder: impl for<'this> ::core::ops::FnOnce(&'this mut [u8; N], &'this Box<u8>) -> Holder<'this>,
        )
        where A: 'd
        {
            let external = external;;
            let data1 = data1;;
            let data2 = data2_builder(&data1);;
            let data2 = data2;;
            let mut data3 = data3;;
            let data4 = data4_builder(&mut data3, &data1);;
            let data4 = data4;;
            BorrowedFields::<'_, '_, 'd, A, N,> {
                external: &external,
                data1: &data1,
                data2: &data2,
                data4: &data4,
                _consume_template_lifetime_d: ::core::marker::PhantomData,
                _consume_template_type_a: ::core::marker::PhantomData,
                _comsume_template_const_parameter_n: ::core::marker::PhantomData,
            };
        }",
    );
}

#[test]
fn containers_of_the_standard_library_are_asserted() {
    assert_same(
        &make_type_asserts(&analysed(MESS)),
        "fn type_asserts <'d, A: ?Sized, const N: usize>() where A: 'd {
            ::ouroboros::macro_help::CheckIfTypeIsStd::<Box<u8> >::is_std_box_type();
        }",
    );
    let info = analysed(
        "struct S { a: Rc<u8>, b: std::sync::Arc<u8>, #[borrows(a, b)] c: Box<&'this u8>, d: Vec<u8> }",
    );
    assert_same(
        &make_type_asserts(&info),
        "fn type_asserts <>() {
            ::ouroboros::macro_help::CheckIfTypeIsStd::<Rc<u8> >::is_std_rc_type();
            ::ouroboros::macro_help::CheckIfTypeIsStd::<std::sync::Arc<u8> >::is_std_arc_type();
            ::ouroboros::macro_help::CheckIfTypeIsStd::<Box<&'static u8> >::is_std_box_type();
        }",
    );
}

#[test]
fn derived_traits_pass_over_mutably_borrowed_fields() {
    let info = analysed(
        "#[derive(Debug, PartialEq, Eq)] struct D<'a, T, U: Clone = u8> { a: T, #[borrows(mut a)] b: &'this mut T, c: &'a U }",
    );
    assert_same(
        &create_derives(&info).unwrap(),
        "impl <'a, T: ::core::fmt::Debug, U: Clone + ::core::fmt::Debug = u8> ::core::fmt::Debug for D <'a, T, U> {
            fn fmt(&self, f: &mut ::core::fmt::Formatter) -> ::core::fmt::Result {
                self.with(|safe_self| {
                    f.debug_struct(stringify!(D))
                    .field(stringify!(b), &safe_self.b)
                    .field(stringify!(c), &safe_self.c)
                    .finish()
                })
            }
        }
        impl <'a, T: ::core::cmp::PartialEq, U: Clone + ::core::cmp::PartialEq = u8> ::core::cmp::PartialEq for D <'a, T, U> {
            fn eq(&self, other: &Self) -> bool {
                self.with(|safe_self| {
                    other.with(|safe_other| {
                        &*safe_self.b == &*safe_other.b && &*safe_self.c == &*safe_other.c
                    })
                })
            }
        }
        impl <'a, T: ::core::cmp::Eq, U: Clone + ::core::cmp::Eq = u8> ::core::cmp::Eq for D <'a, T, U> {
        }",
    );
    assert!(text(&create_derives(&analysed(BOX_AND_REF)).unwrap()).is_empty());
}

#[test]
fn borrow_checker_sees_the_boxed_fields() {
    assert_same(
        &generate_borrowchk_summoner(&analysed(BOX_AND_MUT_REF)).unwrap(),
        "fn check_if_okay_according_to_borrow_checker<>(
            data: i32,
            dref_builder: impl for<'this> ::core::ops::FnOnce(&'this mut i32) -> &'this mut i32,
        ) {
            let mut data = ::ouroboros::macro_help::aliasable_boxed(data);;
            let dref = dref_builder(&mut data);;
            BorrowedFields {
                dref: &dref,
            };
        }",
    );
}

#[test]
fn aggregates_of_a_struct_that_is_read_from_self() {
    let (aggregates, accessors) =
        ouroboros_macro::generate::with_all::make_with_all_function(&analysed(CHAINED), NO_OPTIONS)
            .unwrap();
    assert_same(
        &aggregates,
        "#[doc=\"A struct for holding immutable references to all tail and immutably borrowed fields in an instance of the self-referencing struct.\"]
        pub(super) struct BorrowedFields <'outer_borrow, 'this> where 'static: 'this {
            pub(super) ref2: &'outer_borrow &'this &'this i32,
            pub(super) ref1: &'this &'this i32,
            pub(super) data: &'this i32
        }
        #[doc=\"A struct for holding mutable references to all tail fields in an instance of the self-referencing struct.\"]
        pub(super) struct BorrowedMutFields <'outer_borrow, 'this> where 'static: 'this {
            pub(super) ref2: &'outer_borrow mut &'this &'this i32
        }",
    );
    assert_same(
        &accessors,
        "#[doc(hidden)]
        #[inline(always)]
        pub(super) fn with <'outer_borrow, ReturnType>(
            &'outer_borrow self,
            user: impl for<'this> ::core::ops::FnOnce(BorrowedFields<'outer_borrow, 'this>) -> ReturnType
        ) -> ReturnType {
            user(BorrowedFields {
                ref2: &self.ref2,
                ref1: unsafe { ::ouroboros::macro_help::change_lifetime(&*self.ref1) },
                data: unsafe { ::ouroboros::macro_help::change_lifetime(&*self.data) }
            })
        }
        #[doc(hidden)]
        #[inline(always)]
        pub(super) fn with_mut <'outer_borrow, ReturnType>(
            &'outer_borrow mut self,
            user: impl for<'this> ::core::ops::FnOnce(BorrowedMutFields<'outer_borrow, 'this>) -> ReturnType
        ) -> ReturnType {
            user(BorrowedMutFields {
                ref2: &mut self.ref2
            })
        }",
    );
}

#[test]
fn destruct_hands_the_owned_tails_to_the_callback() {
    let info = analysed(
        "struct S<T> { a: T, #[borrows(a)] b: &'this T, #[borrows(b)] c: &'this &'this T, d: u8 }",
    );
    let (aggregate, function) = destruct_into_heads(&info, PUBLIC_EXTRAS).unwrap();
    assert_same(
        &aggregate,
        "#[doc=\"A struct for holding tail fields in an instance of the self-referencing struct.\"]
        struct OwnedTailFields <'this, T> {
            c: &'this &'this T,
            _consume_template_type_t: ::core::marker::PhantomData<T>
        }",
    );
    assert_same(
        &function,
        "#[doc(hidden)]
        #[inline(always)]
        fn destruct_into_heads <ReturnType>(
            self,
            user: impl for<'this> ::core::ops::FnOnce(OwnedTailFields<'this, T>) -> ReturnType
        ) -> (ReturnType, Heads<T>) {
            let this_ptr = &self as *const _;
            let this: SInternal<T> = unsafe { ::core::mem::transmute_copy(&*this_ptr) };
            ::core::mem::forget(self);
            let user_return = user(OwnedTailFields {
                c: this.c,
                _consume_template_type_t: ::core::marker::PhantomData
            });
            let heads = {
                let d = this.d;
                let a = this.a;
                Heads {
                    d,
                    a: ::ouroboros::macro_help::unbox(a),
                    _consume_template_type_t: ::core::marker::PhantomData
                }
            };
            (user_return, heads)
        }",
    );
}

// The assembler.

#[test]
fn expansion_is_a_module_and_its_reexports() {
    let out = self_referencing_impl(declaration(MESS), PUBLIC_EXTRAS).unwrap();
    assert_glued(&out);
    let file = syn::parse2::<syn::File>(stream_into(&out)).expect("items");
    assert_eq!(file.items.len(), 8);
    let module = match &file.items[0] {
        syn::Item::Mod(module) => module,
        _ => panic!("a module"),
    };
    assert_eq!(module.ident.to_string(), "ouroboros_impl_mess");
    let names: Vec<String> = module
        .content
        .as_ref()
        .expect("contents")
        .1
        .iter()
        .map(|item| match item {
            syn::Item::Use(_) => "use".to_string(),
            syn::Item::Struct(item) => format!("struct {}", item.ident),
            syn::Item::Impl(item) => match &item.trait_ {
                Some((_, path, _)) => format!("impl {}", path.segments.last().unwrap().ident),
                None => format!("impl with {} items", item.items.len()),
            },
            syn::Item::Fn(item) => format!("fn {}", item.sig.ident),
            _ => "other".to_string(),
        })
        .collect();
    assert_eq!(
        names,
        vec![
            "use",
            "struct Mess",
            "struct MessInternal",
            "impl Drop",
            "fn check_if_okay_according_to_checkers",
            "struct MessBuilder",
            "impl with 1 items",
            "struct MessAsyncBuilder",
            "impl with 1 items",
            "struct MessAsyncSendBuilder",
            "impl with 1 items",
            "struct MessTryBuilder",
            "impl with 2 items",
            "struct MessAsyncTryBuilder",
            "impl with 2 items",
            "struct MessAsyncSendTryBuilder",
            "impl with 2 items",
            "struct BorrowedFields",
            "struct BorrowedMutFields",
            "struct Heads",
            // 9 constructors, 11 accessors of single fields, with, with_mut, into_heads
            "impl with 23 items",
            "fn type_asserts",
        ]
    );
    let uses: Vec<String> = file.items[1..]
        .iter()
        .map(|item| spelled(item.to_token_stream()).join(" "))
        .collect();
    assert_eq!(
        uses,
        vec![
            source("pub use ouroboros_impl_mess::Mess;"),
            source("pub use ouroboros_impl_mess::MessBuilder;"),
            source("pub use ouroboros_impl_mess::MessAsyncBuilder;"),
            source("pub use ouroboros_impl_mess::MessAsyncSendBuilder;"),
            source("pub use ouroboros_impl_mess::MessTryBuilder;"),
            source("pub use ouroboros_impl_mess::MessAsyncTryBuilder;"),
            source("pub use ouroboros_impl_mess::MessAsyncSendTryBuilder;"),
        ]
    );
}

#[test]
fn module_is_named_in_snake_case() {
    let out = self_referencing_impl(declaration(BOX_AND_REF), NO_OPTIONS).unwrap();
    let made = text(&out);
    assert!(made.starts_with(&source(
        "#[doc=\"Encapsulates implementation details for a self-referencing struct. This module is only visible when using --document-private-items.\"]
        mod ouroboros_impl_box_and_ref"
    )));
    assert!(made.contains(&source(
        "use super::*;
        #[doc=\"The self-referencing struct.\"]
        #[repr(transparent)]"
    )));
    // The struct keeps its visibility, the builders are private.
    assert!(made.ends_with(&source(
        "use ouroboros_impl_box_and_ref::BoxAndRef;
        use ouroboros_impl_box_and_ref::BoxAndRefBuilder;
        use ouroboros_impl_box_and_ref::BoxAndRefAsyncBuilder;
        use ouroboros_impl_box_and_ref::BoxAndRefAsyncSendBuilder;
        use ouroboros_impl_box_and_ref::BoxAndRefTryBuilder;
        use ouroboros_impl_box_and_ref::BoxAndRefAsyncTryBuilder;
        use ouroboros_impl_box_and_ref::BoxAndRefAsyncSendTryBuilder;"
    )));
    syn::parse2::<syn::File>(stream_into(&out)).expect("items");
}

#[test]
fn rejected_declaration_gives_no_expansion() {
    match self_referencing_impl(declaration("struct S { a: u8, b: u8 }"), NO_OPTIONS) {
        Err(ProcessingError::Syntax(error)) => assert_eq!(error, at_call_site(ErrorKind::AllTail)),
        _ => panic!("a rejected declaration"),
    }
}

#[test]
fn unknown_covariance_gives_no_expansion() {
    let source = "struct S { a: u8, #[borrows(a)] b: Vec<&'this u8>, #[borrows(a)] c: fn(&'this u8) }";
    match self_referencing_impl(declaration(source), NO_OPTIONS) {
        Err(ProcessingError::Covariance(errors)) => {
            let fields: Vec<Option<usize>> = errors.iter().map(|error| error.field).collect();
            assert_eq!(fields, vec![Some(1), Some(2)]);
            assert!(errors.iter().all(|error| error.kind == ErrorKind::UnknownCovariance));
        }
        _ => panic!("an error about covariance"),
    }
    match generate_items(&analysed(source), NO_OPTIONS) {
        Err(ProcessingError::Covariance(errors)) => assert_eq!(errors.len(), 2),
        _ => panic!("an error about covariance"),
    }
}

// What the generated struct does when it runs.

fn run(source: &str, inputs: Vec<FieldInput>) -> (StructInfo, ouroboros_macro::lifecycle::Construction) {
    let info = analysed(source);
    let run = try_new_or_recover(&info, &inputs);
    (info, run)
}

#[test]
fn box_and_ref() {
    let (info, run) = run(
        BOX_AND_REF,
        vec![
            FieldInput::Value(12),
            FieldInput::Builder(BuilderOutcome::Borrows),
        ],
    );
    assert_eq!(run.called, vec![1]);
    let instance = run.result.expect("a struct");
    assert_eq!(
        instance.slots,
        vec![
            Slot {
                boxed: true,
                content: Content::Value(12),
            },
            Slot {
                boxed: false,
                content: Content::Reference(0),
            },
        ]
    );
    assert_eq!(with_field(&info, &instance, 1), 12);
    assert_eq!(with_field(&info, &instance, 0), 12);
}

#[test]
fn into_heads_returns_the_plain_value() {
    let (info, run) = run(
        BOX_AND_REF,
        vec![
            FieldInput::Value(12),
            FieldInput::Builder(BuilderOutcome::Borrows),
        ],
    );
    let instance = run.result.expect("a struct");
    assert_eq!(into_heads(&info, instance), vec![(0, 12)]);
}

#[test]
fn try_new() {
    let info = analysed(BOX_AND_REF);
    let inputs = vec![
        FieldInput::Value(12),
        FieldInput::Builder(BuilderOutcome::Borrows),
    ];
    let instance = ouroboros_macro::lifecycle::try_new(&info, &inputs).expect("a struct");
    assert_eq!(with_field(&info, &instance, 1), 12);
}

#[test]
fn try_new_err() {
    let info = analysed(BOX_AND_REF);
    let inputs = vec![
        FieldInput::Value(12),
        FieldInput::Builder(BuilderOutcome::Fails(56)),
    ];
    assert_eq!(ouroboros_macro::lifecycle::try_new(&info, &inputs), Err(56));
}

#[test]
fn try_new_recover_heads() {
    let (_, run) = run(
        BOX_AND_REF,
        vec![
            FieldInput::Value(12),
            FieldInput::Builder(BuilderOutcome::Fails(56)),
        ],
    );
    let failure = run.result.expect_err("a failure");
    assert_eq!(failure.error, 56);
    assert_eq!(failure.heads, vec![(0, 12)]);
}

#[test]
fn failing_builder_stops_the_construction() {
    let (_, run) = run(
        "struct S { a: u8, #[borrows(a)] b: &'this u8, #[borrows(a, b)] c: &'this &'this u8 }",
        vec![
            FieldInput::Value(7),
            FieldInput::Builder(BuilderOutcome::Fails(3)),
            FieldInput::Builder(BuilderOutcome::Fails(4)),
        ],
    );
    // The builder of c is never called.
    assert_eq!(run.called, vec![1]);
    let failure = run.result.expect_err("a failure");
    assert_eq!(failure.error, 3);
    assert_eq!(failure.heads, vec![(0, 7)]);
}

#[test]
fn later_heads_are_recovered_too() {
    let (_, run) = run(
        "struct S { a: u8, #[borrows(a)] b: &'this u8, c: u8, #[borrows(c)] d: &'this u8 }",
        vec![
            FieldInput::Value(1),
            FieldInput::Builder(BuilderOutcome::Returns(2)),
            FieldInput::Value(3),
            FieldInput::Builder(BuilderOutcome::Fails(9)),
        ],
    );
    assert_eq!(run.called, vec![1, 3]);
    let failure = run.result.expect_err("a failure");
    assert_eq!(failure.error, 9);
    assert_eq!(failure.heads, vec![(0, 1), (2, 3)]);
}

#[test]
fn heads_round_trip() {
    let (info, run) = run(
        "struct S { a: u8, #[borrows(a)] b: &'this u8, c: u8, #[borrows(c, b)] d: &'this u8, #[borrows()] e: u8 }",
        vec![
            FieldInput::Value(1),
            FieldInput::Builder(BuilderOutcome::Borrows),
            FieldInput::Value(3),
            FieldInput::Builder(BuilderOutcome::Returns(4)),
            FieldInput::Value(5),
        ],
    );
    assert_eq!(run.called, vec![1, 3]);
    let instance = run.result.expect("a struct");
    assert_eq!(with_field(&info, &instance, 1), 1);
    assert_eq!(with_field(&info, &instance, 3), 4);
    assert_eq!(with_field(&info, &instance, 4), 5);
    // The field e carries a borrows attribute: it is no head.
    assert_eq!(into_heads(&info, instance), vec![(0, 1), (2, 3)]);
}

#[test]
fn references_are_followed_to_the_value() {
    let (info, run) = run(
        CHAINED,
        vec![
            FieldInput::Value(12),
            FieldInput::Builder(BuilderOutcome::Borrows),
            FieldInput::Builder(BuilderOutcome::Borrows),
        ],
    );
    let instance = run.result.expect("a struct");
    assert_eq!(instance.slots[1].content, Content::Reference(0));
    assert_eq!(instance.slots[2].content, Content::Reference(0));
    assert!(instance.slots[1].boxed);
    assert_eq!(with_field(&info, &instance, 2), 12);
}

#[test]
fn fields_are_dropped_in_reverse() {
    assert_eq!(drop_order(&analysed(BOX_AND_REF)), vec![1, 0]);
    assert_eq!(drop_order(&analysed(MESS)), vec![4, 3, 2, 1, 0]);
}

// What a rejected borrow leaves behind.

fn borrows_attribute(source: &str) -> Attribute {
    let item = syn::parse_str::<syn::ItemStruct>(&format!("{} struct S;", source)).expect("a struct");
    attribute_from(&item.attrs[0])
}

fn read_borrows(
    declared: &str,
    attribute: &str,
) -> (Result<(), Error>, Vec<FieldType>, Vec<BorrowRequest>) {
    let mut fields = analysed(declared).fields;
    let mut borrows = Vec::new();
    let result = handle_borrows_attr(&mut fields, &borrows_attribute(attribute), &mut borrows);
    (result, fields.iter().map(|field| field.field_type).collect(), borrows)
}

const ONE_OF_EACH: &str =
    "struct S { tail: u8, shared: u8, exclusive: u8, #[borrows(shared, mut exclusive)] last: u8 }";

#[test]
fn accepted_borrows_change_roles_and_are_recorded() {
    let (result, roles, borrows) = read_borrows(ONE_OF_EACH, "#[borrows(mut tail, shared)]");
    assert_eq!(result, Ok(()));
    assert_eq!(
        roles,
        vec![
            FieldType::BorrowedMut,
            FieldType::Borrowed,
            FieldType::BorrowedMut,
            FieldType::Tail,
        ]
    );
    assert_eq!(borrows, vec![borrow(0, true), borrow(1, false)]);
}

#[test]
fn borrow_of_a_mutably_borrowed_field_changes_nothing() {
    for attribute in ["#[borrows(exclusive)]", "#[borrows(mut exclusive)]"] {
        let (result, roles, borrows) = read_borrows(ONE_OF_EACH, attribute);
        assert!(result.is_err());
        assert_eq!(
            roles,
            vec![
                FieldType::Tail,
                FieldType::Borrowed,
                FieldType::BorrowedMut,
                FieldType::Tail,
            ]
        );
        assert_eq!(borrows, vec![]);
    }
    let (result, _, _) = read_borrows(ONE_OF_EACH, "#[borrows(exclusive)]");
    assert_eq!(result.unwrap_err().kind, ErrorKind::ImmutableAfterMutable);
    let (result, _, _) = read_borrows(ONE_OF_EACH, "#[borrows(mut exclusive)]");
    assert_eq!(result.unwrap_err().kind, ErrorKind::MutableTwice);
}

#[test]
fn mutable_borrow_of_a_borrowed_field_changes_nothing() {
    let (result, roles, borrows) = read_borrows(ONE_OF_EACH, "#[borrows(mut shared)]");
    assert_eq!(result.unwrap_err().kind, ErrorKind::MutableAfterImmutable);
    assert_eq!(roles[1], FieldType::Borrowed);
    assert_eq!(roles[0], FieldType::Tail);
    assert_eq!(borrows, vec![]);
}

#[test]
fn borrow_of_an_unknown_field_changes_nothing() {
    for attribute in ["#[borrows(nothing)]", "#[borrows(mut nothing)]"] {
        let (result, roles, borrows) = read_borrows(ONE_OF_EACH, attribute);
        assert_eq!(result.unwrap_err().kind, ErrorKind::UnknownField);
        assert_eq!(
            roles,
            vec![
                FieldType::Tail,
                FieldType::Borrowed,
                FieldType::BorrowedMut,
                FieldType::Tail,
            ]
        );
        assert_eq!(borrows, vec![]);
    }
}

#[test]
fn borrows_read_before_the_bad_token_stay() {
    let (result, roles, borrows) = read_borrows(ONE_OF_EACH, "#[borrows(tail, shared, mut shared)]");
    assert_eq!(
        result,
        Err(Error {
            kind: ErrorKind::MutableAfterImmutable,
            field: None,
            attr: None,
            token: Some(5),
        })
    );
    assert_eq!(roles[0], FieldType::Borrowed);
    assert_eq!(roles[1], FieldType::Borrowed);
    assert_eq!(borrows, vec![borrow(0, false), borrow(1, false)]);
    let (result, roles, borrows) = read_borrows(ONE_OF_EACH, "#[borrows = tail]");
    assert_eq!(result.unwrap_err().kind, ErrorKind::InvalidBorrowsSyntax);
    assert_eq!(roles[0], FieldType::Tail);
    assert_eq!(borrows, vec![]);
}
