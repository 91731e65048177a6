//! Analysis and code synthesis for self-referencing structs.
//!
//! A struct declaration whose fields may borrow from the fields declared before
//! them is classified, checked and turned into the token streams of a storage
//! type, its constructors, its accessors and its teardown operations.

pub mod covariance_detection;
pub mod diagnostics;
pub mod generate;
pub mod info_structures;
pub mod lifecycle;
pub mod parse;
pub mod syntax;
pub mod tokens;
pub mod utils;

use vstd::prelude::*;
use vstd::string::*;
use crate::diagnostics::Error;
use crate::generate::constructor::{
    builder_def, builder_struct_ident, constructor_def, create_builder_and_constructor,
};
use crate::generate::derives::{create_derives, derive_impls};
use crate::generate::drop::{create_drop_impl, drop_impl};
use crate::generate::into_heads::{heads_struct_def, into_heads_fn, make_into_heads};
use crate::generate::struc::{
    actual_struct_def, create_actual_struct_def, create_internal_struct_def, internal_struct_def,
};
use crate::generate::summon_checker::{checker_summoner, generate_checker_summoner};
use crate::generate::try_constructor::{
    create_try_builder_and_constructor, or_recover_constructor_def, try_builder_def,
    try_builder_struct_ident, try_constructor_def,
};
use crate::generate::type_asserts::{make_type_asserts, type_asserts};
use crate::generate::with::{borrowed_fields_struct, make_with_all_function, with_all_fn};
use crate::generate::with_each::{
    ProcessingError, accessor_defs, covariance_errors, make_with_functions,
};
use crate::generate::with_mut::{
    borrowed_mut_fields_struct, make_with_all_mut_function, with_all_mut_fn,
};
use crate::info_structures::{BuilderType, Options, StructInfo};
use crate::parse::{parse_result, parse_struct};
use crate::syntax::{
    StructDecl, Visibility, VisibilityView, generic_params_tokens, visibility_tokens,
    where_tokens,
};
use crate::tokens::{Emit, TokenStream, TokenTree, concat, separated, tokens};
use crate::utils::{generic_arguments, snake_case_of, to_snake_case};

verus! {

/// The name of the hidden module that holds the generated items.
pub open spec fn module_ident(info: StructInfo) -> Seq<char> {
    "ouroboros_impl_"@ + snake_case_of(info.ident@)
}

/// The two fallible constructors of one flavour, the plain one first.
pub open spec fn try_constructors(info: StructInfo, options: Options, builder_type: BuilderType) -> Seq<
    TokenTree,
> {
    tokens().splice(try_constructor_def(info, options, builder_type)).splice(
        or_recover_constructor_def(info, options, builder_type),
    )
}

/// The items of the hidden module that stand before the methods of the
/// struct: the struct itself, the struct that stores the fields, the
/// destructor, the function for the borrow checker, the builder structs, the
/// aggregates, and the implementations of the derived traits.
///
/// ```text
/// use super::*;
/// #[doc="The self-referencing struct."]
/// #actual_struct_def
/// #internal_struct_def
/// #drop_impl
/// #borrowchk_summoner
/// #builder_def
/// #async_builder_def
/// #async_send_builder_def
/// #try_builder_def
/// #async_try_builder_def
/// #async_send_try_builder_def
/// #with_all_struct_def
/// #with_all_mut_struct_def
/// #heads_struct_def
/// #impls
/// ```
#[verifier::opaque]
pub open spec fn module_items(info: StructInfo, options: Options) -> Seq<TokenTree> {
    tokens().ident("use"@).ident("super"@).colon2().punct('*').punct(';').punct('#')
        .brackets(tokens().ident("doc"@).punct('=').literal("\"The self-referencing struct.\""@))
        .splice(actual_struct_def(info)).splice(internal_struct_def(info)).splice(drop_impl(info))
        .splice(checker_summoner(info)).splice(builder_def(info, options, BuilderType::Sync))
        .splice(builder_def(info, options, BuilderType::Async))
        .splice(builder_def(info, options, BuilderType::AsyncSend))
        .splice(try_builder_def(info, options, BuilderType::Sync))
        .splice(try_builder_def(info, options, BuilderType::Async))
        .splice(try_builder_def(info, options, BuilderType::AsyncSend))
        .splice(borrowed_fields_struct(info, options))
        .splice(borrowed_mut_fields_struct(info, options)).splice(heads_struct_def(info, options))
        .splice(derive_impls(info, info.derives.len() as int))
}

/// The methods of the struct: the six constructors with their variants, the
/// accessors of the single fields, the two accessors of all fields, and the
/// operation that takes the struct apart.
///
/// ```text
/// #constructor_def
/// #async_constructor_def
/// #async_send_constructor_def
/// #try_constructor_def
/// #async_try_constructor_def
/// #async_send_try_constructor_def
/// #with_defs
/// #with_all_fn_def
/// #with_all_mut_fn_def
/// #into_heads_fn
/// ```
#[verifier::opaque]
pub open spec fn module_methods(info: StructInfo, options: Options) -> Seq<TokenTree> {
    tokens().splice(constructor_def(info, options, BuilderType::Sync))
        .splice(constructor_def(info, options, BuilderType::Async))
        .splice(constructor_def(info, options, BuilderType::AsyncSend))
        .splice(try_constructors(info, options, BuilderType::Sync))
        .splice(try_constructors(info, options, BuilderType::Async))
        .splice(try_constructors(info, options, BuilderType::AsyncSend))
        .splice(concat(accessor_defs(info, options, info.fields.len() as int)))
        .splice(with_all_fn(info, options)).splice(with_all_mut_fn(info, options))
        .splice(into_heads_fn(info, options))
}

/// The hidden module.
///
/// ```text
/// #[doc="Encapsulates implementation details for a self-referencing struct. This module is only visible when using --document-private-items."]
/// mod #mod_name {
///     #items
///     impl <#generic_params> #struct_name <#generic_args> #generic_where {
///         #methods
///     }
///     #type_asserts_def
/// }
/// ```
pub open spec fn module_def(info: StructInfo, options: Options) -> Seq<TokenTree> {
    tokens().punct('#')
        .brackets(tokens().ident("doc"@).punct('=')
            .literal("\"Encapsulates implementation details for a self-referencing struct. This module is only visible when using --document-private-items.\""@))
        .ident("mod"@).ident(module_ident(info))
        .braces(tokens().splice(module_items(info, options)).ident("impl"@).punct('<')
            .splice(generic_params_tokens(info.generics)).punct('>').ident(info.ident@).punct('<')
            .splice(separated(generic_arguments(info.generics), ',')).punct('>')
            .splice(where_tokens(info.generics)).braces(tokens().splice(module_methods(info, options)))
            .splice(type_asserts(info)))
}

/// `vis use module::name;`, added to `out`.
///
/// ```text
/// #visibility use #mod_name :: #name;
/// ```
pub open spec fn reexport(
    out: Seq<TokenTree>,
    visibility: Seq<TokenTree>,
    mod_name: Seq<char>,
    name: Seq<char>,
) -> Seq<TokenTree> {
    out.splice(visibility).ident("use"@).ident(mod_name).colon2().ident(name).punct(';')
}

/// The visibility under which the builder structs are brought back to where
/// the struct was declared: that of the struct where the extras are public,
/// none otherwise.
pub open spec fn reexport_visibility(info: StructInfo, options: Options) -> VisibilityView {
    if options.do_pub_extras {
        info.vis@
    } else {
        VisibilityView::Inherited
    }
}

/// What the attribute puts in place of the declaration: the hidden module,
/// and the items that bring the struct and its six builder structs back into
/// scope.
pub open spec fn expansion(info: StructInfo, options: Options) -> Seq<TokenTree> {
    let module = module_ident(info);
    let extra = visibility_tokens(reexport_visibility(info, options));
    let out = reexport(module_def(info, options), visibility_tokens(info.vis@), module, info.ident@);
    let out = reexport(out, extra, module, builder_struct_ident(info, BuilderType::Sync));
    let out = reexport(out, extra, module, builder_struct_ident(info, BuilderType::Async));
    let out = reexport(out, extra, module, builder_struct_ident(info, BuilderType::AsyncSend));
    let out = reexport(out, extra, module, try_builder_struct_ident(info, BuilderType::Sync));
    let out = reexport(out, extra, module, try_builder_struct_ident(info, BuilderType::Async));
    reexport(out, extra, module, try_builder_struct_ident(info, BuilderType::AsyncSend))
}

/// Whether `r` is what the generation gives for an analysed declaration: the
/// errors for the fields whose covariance has to be stated, if there is such
/// a field, and the expansion otherwise.
pub open spec fn generated(info: StructInfo, options: Options, r: Result<TokenStream, ProcessingError>) -> bool {
    let errors = covariance_errors(info, info.fields.len() as int);
    if errors.len() > 0 {
        match r {
            Err(ProcessingError::Covariance(reported)) => reported@ == errors,
            _ => false,
        }
    } else {
        match r {
            Ok(out) => out@ == expansion(info, options),
            Err(_) => false,
        }
    }
}

/// The name of a builder struct with its definition and the definition of
/// its constructors, for each of the three flavours.
struct Flavours {
    sync: (String, TokenStream, TokenStream),
    async_: (String, TokenStream, TokenStream),
    async_send: (String, TokenStream, TokenStream),
}

fn push_reexport(out: &mut TokenStream, visibility: &TokenStream, mod_name: &str, name: &str)
    ensures
        final(out)@ == reexport(old(out)@, visibility@, mod_name@, name@),
{
    out.append_copy(visibility);
    out.push_ident("use");
    out.push_ident(mod_name);
    out.push_colon2();
    out.push_ident(name);
    out.push_punct(';');
}

fn make_builders(info: &StructInfo, options: Options) -> (r: Result<Flavours, Error>)
    requires
        info.wf(),
    ensures
        r is Ok,
        ({
            let made = r->Ok_0;
            &&& made.sync.0@ == builder_struct_ident(*info, BuilderType::Sync)
            &&& made.sync.1@ == builder_def(*info, options, BuilderType::Sync)
            &&& made.sync.2@ == constructor_def(*info, options, BuilderType::Sync)
            &&& made.async_.0@ == builder_struct_ident(*info, BuilderType::Async)
            &&& made.async_.1@ == builder_def(*info, options, BuilderType::Async)
            &&& made.async_.2@ == constructor_def(*info, options, BuilderType::Async)
            &&& made.async_send.0@ == builder_struct_ident(*info, BuilderType::AsyncSend)
            &&& made.async_send.1@ == builder_def(*info, options, BuilderType::AsyncSend)
            &&& made.async_send.2@ == constructor_def(*info, options, BuilderType::AsyncSend)
        }),
{
    let sync = match create_builder_and_constructor(info, options, BuilderType::Sync) {
        Ok(made) => made,
        Err(e) => {
            return Err(e);
        },
    };
    let async_ = match create_builder_and_constructor(info, options, BuilderType::Async) {
        Ok(made) => made,
        Err(e) => {
            return Err(e);
        },
    };
    let async_send = match create_builder_and_constructor(info, options, BuilderType::AsyncSend) {
        Ok(made) => made,
        Err(e) => {
            return Err(e);
        },
    };
    Ok(Flavours { sync, async_, async_send })
}

fn make_try_builders(info: &StructInfo, options: Options) -> (r: Result<Flavours, Error>)
    requires
        info.wf(),
    ensures
        r is Ok,
        ({
            let made = r->Ok_0;
            &&& made.sync.0@ == try_builder_struct_ident(*info, BuilderType::Sync)
            &&& made.sync.1@ == try_builder_def(*info, options, BuilderType::Sync)
            &&& made.sync.2@ == try_constructors(*info, options, BuilderType::Sync)
            &&& made.async_.0@ == try_builder_struct_ident(*info, BuilderType::Async)
            &&& made.async_.1@ == try_builder_def(*info, options, BuilderType::Async)
            &&& made.async_.2@ == try_constructors(*info, options, BuilderType::Async)
            &&& made.async_send.0@ == try_builder_struct_ident(*info, BuilderType::AsyncSend)
            &&& made.async_send.1@ == try_builder_def(*info, options, BuilderType::AsyncSend)
            &&& made.async_send.2@ == try_constructors(*info, options, BuilderType::AsyncSend)
        }),
{
    let sync = match create_try_builder_and_constructor(info, options, BuilderType::Sync) {
        Ok(made) => made,
        Err(e) => {
            return Err(e);
        },
    };
    let async_ = match create_try_builder_and_constructor(info, options, BuilderType::Async) {
        Ok(made) => made,
        Err(e) => {
            return Err(e);
        },
    };
    let async_send = match create_try_builder_and_constructor(
        info,
        options,
        BuilderType::AsyncSend,
    ) {
        Ok(made) => made,
        Err(e) => {
            return Err(e);
        },
    };
    Ok(Flavours { sync, async_, async_send })
}

fn make_module_items(
    info: &StructInfo,
    options: Options,
    builders: (TokenStream, TokenStream, TokenStream),
    try_builders: (TokenStream, TokenStream, TokenStream),
    with_all: TokenStream,
    with_all_mut: TokenStream,
    heads: TokenStream,
) -> (r: Result<TokenStream, Error>)
    requires
        info.wf(),
        builders.0@ == builder_def(*info, options, BuilderType::Sync),
        builders.1@ == builder_def(*info, options, BuilderType::Async),
        builders.2@ == builder_def(*info, options, BuilderType::AsyncSend),
        try_builders.0@ == try_builder_def(*info, options, BuilderType::Sync),
        try_builders.1@ == try_builder_def(*info, options, BuilderType::Async),
        try_builders.2@ == try_builder_def(*info, options, BuilderType::AsyncSend),
        with_all@ == borrowed_fields_struct(*info, options),
        with_all_mut@ == borrowed_mut_fields_struct(*info, options),
        heads@ == heads_struct_def(*info, options),
    ensures
        r is Ok,
        r->Ok_0@ == module_items(*info, options),
{
    reveal(module_items);
    let actual_struct_def = match create_actual_struct_def(info) {
        Ok(def) => def,
        Err(e) => {
            return Err(e);
        },
    };
    let internal_struct_def = match create_internal_struct_def(info) {
        Ok(def) => def,
        Err(e) => {
            return Err(e);
        },
    };
    let drop_impl = match create_drop_impl(info) {
        Ok(def) => def,
        Err(e) => {
            return Err(e);
        },
    };
    let borrowchk_summoner = match generate_checker_summoner(info) {
        Ok(def) => def,
        Err(e) => {
            return Err(e);
        },
    };
    let impls = match create_derives(info) {
        Ok(made) => made,
        Err(e) => {
            return Err(e);
        },
    };
    let mut out = TokenStream::new();
    out.push_ident("use");
    out.push_ident("super");
    out.push_colon2();
    out.push_punct('*');
    out.push_punct(';');
    out.push_punct('#');
    let mut doc = TokenStream::new();
    doc.push_ident("doc");
    doc.push_punct('=');
    doc.push_literal("\"The self-referencing struct.\"");
    out.push_brackets(doc);
    out.append(actual_struct_def);
    out.append(internal_struct_def);
    out.append(drop_impl);
    out.append(borrowchk_summoner);
    out.append(builders.0);
    out.append(builders.1);
    out.append(builders.2);
    out.append(try_builders.0);
    out.append(try_builders.1);
    out.append(try_builders.2);
    out.append(with_all);
    out.append(with_all_mut);
    out.append(heads);
    out.append(impls);
    Ok(out)
}

fn make_module_methods(
    info: &StructInfo,
    options: Options,
    constructors: (TokenStream, TokenStream, TokenStream),
    fallible: (TokenStream, TokenStream, TokenStream),
    with_defs: &Vec<TokenStream>,
    with_all: TokenStream,
    with_all_mut: TokenStream,
    into_heads: TokenStream,
) -> (out: TokenStream)
    requires
        constructors.0@ == constructor_def(*info, options, BuilderType::Sync),
        constructors.1@ == constructor_def(*info, options, BuilderType::Async),
        constructors.2@ == constructor_def(*info, options, BuilderType::AsyncSend),
        fallible.0@ == try_constructors(*info, options, BuilderType::Sync),
        fallible.1@ == try_constructors(*info, options, BuilderType::Async),
        fallible.2@ == try_constructors(*info, options, BuilderType::AsyncSend),
        with_defs.deep_view() == accessor_defs(*info, options, info.fields.len() as int),
        with_all@ == with_all_fn(*info, options),
        with_all_mut@ == with_all_mut_fn(*info, options),
        into_heads@ == into_heads_fn(*info, options),
    ensures
        out@ == module_methods(*info, options),
{
    reveal(module_methods);
    let mut out = TokenStream::new();
    out.append(constructors.0);
    out.append(constructors.1);
    out.append(constructors.2);
    out.append(fallible.0);
    out.append(fallible.1);
    out.append(fallible.2);
    out.append(TokenStream::concat(with_defs));
    out.append(with_all);
    out.append(with_all_mut);
    out.append(into_heads);
    out
}

/// Generates everything for an analysed declaration.
pub fn generate_items(info: &StructInfo, options: Options) -> (r: Result<
    TokenStream,
    ProcessingError,
>)
    requires
        info.wf(),
    ensures
        generated(*info, options, r),
{
    let (with_defs, with_errors) = make_with_functions(info, options);
    if with_errors.len() > 0 {
        return Err(ProcessingError::Covariance(with_errors));
    }
    let mod_name = String::from_str("ouroboros_impl_").concat(
        to_snake_case(info.ident.as_str()).as_str(),
    );
    let builders = match make_builders(info, options) {
        Ok(made) => made,
        Err(e) => {
            return Err(ProcessingError::Syntax(e));
        },
    };
    let try_builders = match make_try_builders(info, options) {
        Ok(made) => made,
        Err(e) => {
            return Err(ProcessingError::Syntax(e));
        },
    };
    let with_all = match make_with_all_function(info, options) {
        Ok(made) => made,
        Err(e) => {
            return Err(ProcessingError::Syntax(e));
        },
    };
    let with_all_mut = match make_with_all_mut_function(info, options) {
        Ok(made) => made,
        Err(e) => {
            return Err(ProcessingError::Syntax(e));
        },
    };
    let heads = make_into_heads(info, options);
    // These check that types like Box, Arc and Rc are those of the standard
    // library and have not been replaced.
    let type_asserts_def = make_type_asserts(info);
    let extra_visibility = if options.do_pub_extras {
        info.vis.to_tokens()
    } else {
        Visibility::Inherited.to_tokens()
    };
    let visibility = info.vis.to_tokens();
    let names = (
        builders.sync.0,
        builders.async_.0,
        builders.async_send.0,
        try_builders.sync.0,
        try_builders.async_.0,
        try_builders.async_send.0,
    );
    let items = match make_module_items(
        info,
        options,
        (builders.sync.1, builders.async_.1, builders.async_send.1),
        (try_builders.sync.1, try_builders.async_.1, try_builders.async_send.1),
        with_all.0,
        with_all_mut.0,
        heads.0,
    ) {
        Ok(made) => made,
        Err(e) => {
            return Err(ProcessingError::Syntax(e));
        },
    };
    let methods = make_module_methods(
        info,
        options,
        (builders.sync.2, builders.async_.2, builders.async_send.2),
        (try_builders.sync.2, try_builders.async_.2, try_builders.async_send.2),
        &with_defs,
        with_all.1,
        with_all_mut.1,
        heads.1,
    );
    let generic_args = info.generic_arguments();
    let mut out = TokenStream::new();
    out.push_punct('#');
    let mut doc = TokenStream::new();
    doc.push_ident("doc");
    doc.push_punct('=');
    doc.push_literal("\"Encapsulates implementation details for a self-referencing struct. This module is only visible when using --document-private-items.\"");
    out.push_brackets(doc);
    out.push_ident("mod");
    out.push_ident(mod_name.as_str());
    let mut contents = TokenStream::new();
    contents.append(items);
    contents.push_ident("impl");
    contents.push_punct('<');
    contents.append(info.generics.params_tokens());
    contents.push_punct('>');
    contents.push_ident(info.ident.as_str());
    contents.push_punct('<');
    contents.append(TokenStream::separated(&generic_args, ','));
    contents.push_punct('>');
    contents.append(info.generics.where_tokens());
    let mut impl_body = TokenStream::new();
    impl_body.append(methods);
    contents.push_braces(impl_body);
    contents.append(type_asserts_def);
    out.push_braces(contents);
    push_reexport(&mut out, &visibility, mod_name.as_str(), info.ident.as_str());
    push_reexport(&mut out, &extra_visibility, mod_name.as_str(), names.0.as_str());
    push_reexport(&mut out, &extra_visibility, mod_name.as_str(), names.1.as_str());
    push_reexport(&mut out, &extra_visibility, mod_name.as_str(), names.2.as_str());
    push_reexport(&mut out, &extra_visibility, mod_name.as_str(), names.3.as_str());
    push_reexport(&mut out, &extra_visibility, mod_name.as_str(), names.4.as_str());
    push_reexport(&mut out, &extra_visibility, mod_name.as_str(), names.5.as_str());
    Ok(out)
}

/// Turns a declaration into what the attribute puts in its place. A
/// declaration that the analysis rejects gives the error of the analysis;
/// an accepted one gives what [`generated`] describes for its analysed form.
pub fn self_referencing_impl(original_struct_def: StructDecl, options: Options) -> (r: Result<
    TokenStream,
    ProcessingError,
>)
    ensures
        match parse_result(original_struct_def) {
            Err(e) => match r {
                Err(ProcessingError::Syntax(reported)) => reported == e,
                _ => false,
            },
            Ok(view) => exists|info: StructInfo|
                info@ == view && info.wf() && #[trigger] generated(info, options, r),
        },
{
    let info = match parse_struct(original_struct_def) {
        Ok(info) => info,
        Err(e) => {
            return Err(ProcessingError::Syntax(e));
        },
    };
    let r = generate_items(&info, options);
    assert(generated(info, options, r));
    r
}

} // verus!
