//! The constructors that can fail, and their builder structs.

use vstd::prelude::*;
use vstd::string::*;
use crate::diagnostics::Error;
use crate::generate::common::{
    await_suffix, documentation, extras_visibility, fn_keyword, make_await_suffix,
    make_documentation, make_extras_visibility, make_fn_keyword, marker_values,
    push_marker_values,
};
use crate::generate::constructor::{
    BuilderParts, boxing_code, builder_args, builder_consumers, builder_member_names,
    builder_members, builder_producers, collect_builder_parts, constructed_value,
    constructor_params, make_builder_args, make_constructed_value, make_self_members,
    make_visible_members, push_boxing_code, self_members, visible_members,
};
use crate::generate::into_heads::{head_positions, head_value, make_head_value};
use crate::info_structures::{BuilderType, Options, StructInfo};
use crate::syntax::{visibility_tokens, where_tokens};
use crate::tokens::{Emit, TokenStream, TokenTree, push_stream, separated, tokens};
use crate::utils::generic_arguments;

verus! {

/// The values of the head fields among the first `n` fields, as they stand
/// when the builder of field number `at` fails: a head field declared before
/// that field is taken out of the box it was put in; one declared after it
/// is still the argument that was passed in.
pub open spec fn recovered_head_values(info: StructInfo, at: int, n: int) -> Seq<Seq<TokenTree>>
    decreases n,
{
    if n <= 0 {
        Seq::empty()
    } else if info.fields[n - 1].self_referencing {
        recovered_head_values(info, at, n - 1)
    } else {
        recovered_head_values(info, at, n - 1).push(head_value(info.fields[n - 1], n - 1 < at))
    }
}

/// The values of all the members of the struct of the heads that is handed
/// back when the builder of field number `at` fails.
pub open spec fn recovered_heads(info: StructInfo, at: int) -> Seq<Seq<TokenTree>> {
    recovered_head_values(info, at, info.fields.len() as int) + marker_values(info.generics)
}

/// Makes the values of the members of the struct of the heads that is handed
/// back when the builder of field number `at` fails.
pub fn make_recovered_heads(info: &StructInfo, at: usize) -> (out: TokenStream)
    ensures
        out@ == separated(recovered_heads(*info, at as int), ','),
{
    let mut values: Vec<TokenStream> = Vec::new();
    let mut i: usize = 0;
    while i < info.fields.len()
        invariant
            i <= info.fields.len(),
            values.deep_view() == recovered_head_values(*info, at as int, i as int),
        decreases info.fields.len() - i,
    {
        let field = &info.fields[i];
        if !field.self_referencing {
            push_stream(&mut values, make_head_value(field, i < at));
        }
        i += 1;
    }
    push_marker_values(info, &mut values);
    TokenStream::separated(&values, ',')
}

/// The call of the builder of field number `at` inside a constructor that
/// can fail: the value that the builder gives becomes the field, and its
/// error ends the constructor at once, with the heads as they stand.
///
/// ```text
/// let #field_name = match #builder_name (#builder_args) #await {
///     ::core::result::Result::Ok(value) => value,
///     ::core::result::Result::Err(err)
///         => return ::core::result::Result::Err((err, Heads { #heads })),
/// };
/// ```
pub open spec fn attempt(info: StructInfo, at: int, builder_type: BuilderType) -> Seq<TokenTree> {
    let field = info.fields[at];
    tokens().ident("let"@).ident(field.name@).punct('=').ident("match"@)
        .ident(field.builder_ident())
        .parens(tokens().splice(separated(builder_args(info, field), ',')))
        .splice(await_suffix(builder_type != BuilderType::Sync))
        .braces(tokens().core_path("result"@, "Result"@).segment("Ok"@).parens(tokens().ident("value"@))
            .fat_arrow().ident("value"@).punct(',').core_path("result"@, "Result"@).segment("Err"@)
            .parens(tokens().ident("err"@)).fat_arrow().ident("return"@).core_path("result"@, "Result"@)
            .segment("Err"@)
            .parens(tokens()
                .parens(tokens().ident("err"@).punct(',').ident("Heads"@)
                    .braces(tokens().splice(separated(recovered_heads(info, at), ','))))).punct(','))
        .punct(';')
}

/// The statements that bring field number `at` into being inside a
/// constructor that can fail. Where the field has a builder, the builder is
/// called, and its failure ends the constructor at once with the error and
/// the heads; no later builder is called.
pub open spec fn fallible_field_code(info: StructInfo, at: int, builder_type: BuilderType) -> Seq<
    TokenTree,
> {
    let field = info.fields[at];
    boxing_code(
        field,
        if field.borrows.len() == 0 {
            tokens()
        } else {
            attempt(info, at, builder_type)
        },
    )
}

/// The values in the struct of the heads that is handed back on a failure
/// are those of the head fields, one for each in declaration order: the
/// value at place `k` is that of the head field at place `k` among the head
/// fields, taken out of its box exactly if the field was boxed before the
/// failure.
pub proof fn lemma_recovered_heads_name_the_heads(info: StructInfo, at: int, n: int)
    requires
        0 <= n <= info.fields.len(),
    ensures
        recovered_head_values(info, at, n).len() == head_positions(info.fields@, n).len(),
        forall|k: int|
            0 <= k < head_positions(info.fields@, n).len() ==> {
                let h = head_positions(info.fields@, n)[k];
                #[trigger] recovered_head_values(info, at, n)[k] == head_value(
                    info.fields[h],
                    h < at,
                )
            },
    decreases n,
{
    if n > 0 {
        lemma_recovered_heads_name_the_heads(info, at, n - 1);
    }
}

/// Makes the statements that bring field number `at` into being inside a
/// constructor that can fail.
pub fn make_fallible_field_code(info: &StructInfo, at: usize, builder_type: BuilderType) -> (out:
    TokenStream)
    requires
        info.wf(),
        at < info.fields.len(),
    ensures
        out@ == fallible_field_code(*info, at as int, builder_type),
{
    let field = &info.fields[at];
    assert(field.borrows_within(*info)) by {
        assert forall|k: int| 0 <= k < field.borrows.len() implies (
        #[trigger] field.borrows[k]).index < info.fields.len() by {
            assert(info.fields[at as int].borrows[k].index < at);
        }
    }
    let mut out = if field.borrows.len() == 0 {
        TokenStream::new()
    } else {
        let builder_name = field.builder_name();
        let args = make_builder_args(info, field);
        let heads = make_recovered_heads(info, at);
        let mut code = TokenStream::new();
        code.push_ident("let");
        code.push_ident(field.name.as_str());
        code.push_punct('=');
        code.push_ident("match");
        code.push_ident(builder_name.as_str());
        let mut arms = TokenStream::new();
        arms.append(args);
        code.push_parens(arms);
        code.append(make_await_suffix(builder_type.is_async()));
        let mut call_args = TokenStream::new();
        call_args.push_core("result", "Result");
        call_args.push_segment("Ok");
        let mut ok_value = TokenStream::new();
        ok_value.push_ident("value");
        call_args.push_parens(ok_value);
        call_args.push_fat_arrow();
        call_args.push_ident("value");
        call_args.push_punct(',');
        call_args.push_core("result", "Result");
        call_args.push_segment("Err");
        let mut err_value = TokenStream::new();
        err_value.push_ident("err");
        call_args.push_parens(err_value);
        call_args.push_fat_arrow();
        call_args.push_ident("return");
        call_args.push_core("result", "Result");
        call_args.push_segment("Err");
        let mut returned = TokenStream::new();
        let mut pair = TokenStream::new();
        pair.push_ident("err");
        pair.push_punct(',');
        pair.push_ident("Heads");
        let mut recovered = TokenStream::new();
        recovered.append(heads);
        pair.push_braces(recovered);
        returned.push_parens(pair);
        call_args.push_parens(returned);
        call_args.push_punct(',');
        code.push_braces(call_args);
        code.push_punct(';');
        code
    };
    push_boxing_code(field, &mut out);
    out
}

/// The statements that bring the first `n` fields into being inside a
/// constructor that can fail, in declaration order.
pub open spec fn or_recover_code(info: StructInfo, builder_type: BuilderType, n: int) -> Seq<
    TokenTree,
>
    decreases n,
{
    if n <= 0 {
        tokens()
    } else {
        or_recover_code(info, builder_type, n - 1).splice(
            fallible_field_code(info, n - 1, builder_type),
        )
    }
}

/// The fields are brought into being in declaration order: what is done for
/// the first `i` fields stands before everything that is done for the fields
/// after them. So the return that ends the constructor when a builder fails
/// stands before the call of the builder of every later field.
pub proof fn lemma_built_in_declaration_order(
    info: StructInfo,
    builder_type: BuilderType,
    i: int,
    n: int,
)
    requires
        0 <= i <= n,
    ensures
        or_recover_code(info, builder_type, i).len() <= or_recover_code(info, builder_type, n).len(),
        or_recover_code(info, builder_type, n).take(
            or_recover_code(info, builder_type, i).len() as int,
        ) == or_recover_code(info, builder_type, i),
    decreases n - i,
{
    let first = or_recover_code(info, builder_type, i);
    if i == n {
        assert(first.take(first.len() as int) =~= first);
    } else {
        lemma_built_in_declaration_order(info, builder_type, i, n - 1);
        let before = or_recover_code(info, builder_type, n - 1);
        let all = or_recover_code(info, builder_type, n);
        assert(all.take(first.len() as int) =~= before.take(first.len() as int));
    }
}

/// Makes the statements that bring the fields into being inside a constructor
/// that can fail.
pub fn make_or_recover_code(info: &StructInfo, builder_type: BuilderType) -> (code: TokenStream)
    requires
        info.wf(),
    ensures
        code@ == or_recover_code(*info, builder_type, info.fields.len() as int),
{
    let mut code = TokenStream::new();
    let mut i: usize = 0;
    while i < info.fields.len()
        invariant
            info.wf(),
            i <= info.fields.len(),
            code@ == or_recover_code(*info, builder_type, i as int),
        decreases info.fields.len() - i,
    {
        code.append(make_fallible_field_code(info, i, builder_type));
        i += 1;
    }
    code
}

/// The name of the builder struct of one flavour.
pub open spec fn try_builder_struct_ident(info: StructInfo, builder_type: BuilderType) -> Seq<char> {
    match builder_type {
        BuilderType::AsyncSend => info.ident@ + "AsyncSendTryBuilder"@,
        BuilderType::Async => info.ident@ + "AsyncTryBuilder"@,
        BuilderType::Sync => info.ident@ + "TryBuilder"@,
    }
}

/// Makes the name of the builder struct of one flavour.
pub fn make_try_builder_struct_name(info: &StructInfo, builder_type: BuilderType) -> (name: String)
    ensures
        name@ == try_builder_struct_ident(*info, builder_type),
{
    match builder_type {
        BuilderType::AsyncSend => info.ident.clone().concat("AsyncSendTryBuilder"),
        BuilderType::Async => info.ident.clone().concat("AsyncTryBuilder"),
        BuilderType::Sync => info.ident.clone().concat("TryBuilder"),
    }
}

/// The name of the constructor that hands back only the error.
pub open spec fn try_new_ident(builder_type: BuilderType) -> Seq<char> {
    match builder_type {
        BuilderType::AsyncSend => "try_new_async_send"@,
        BuilderType::Async => "try_new_async"@,
        BuilderType::Sync => "try_new"@,
    }
}

/// The name of the constructor that hands back only the error.
pub fn try_new_name(builder_type: BuilderType) -> (name: &'static str)
    ensures
        name@ == try_new_ident(builder_type),
{
    match builder_type {
        BuilderType::AsyncSend => "try_new_async_send",
        BuilderType::Async => "try_new_async",
        BuilderType::Sync => "try_new",
    }
}

/// The name of the constructor that hands back the error and the heads.
pub open spec fn or_recover_ident(builder_type: BuilderType) -> Seq<char> {
    match builder_type {
        BuilderType::AsyncSend => "try_new_or_recover_async_send"@,
        BuilderType::Async => "try_new_or_recover_async"@,
        BuilderType::Sync => "try_new_or_recover"@,
    }
}

/// The name of the constructor that hands back the error and the heads.
pub fn or_recover_name(builder_type: BuilderType) -> (name: &'static str)
    ensures
        name@ == or_recover_ident(builder_type),
{
    match builder_type {
        BuilderType::AsyncSend => "try_new_or_recover_async_send",
        BuilderType::Async => "try_new_or_recover_async",
        BuilderType::Sync => "try_new_or_recover",
    }
}

/// The keywords and the name that a function of one flavour starts with.
///
/// ```text
/// #kw #name
/// ```
pub open spec fn header(builder_type: BuilderType, name: Seq<char>) -> Seq<TokenTree> {
    tokens().splice(fn_keyword(builder_type != BuilderType::Sync)).ident(name)
}

/// Makes the keywords and the name that a function of one flavour starts with.
pub fn make_header(builder_type: BuilderType, name: &str) -> (out: TokenStream)
    ensures
        out@ == header(builder_type, name@),
{
    let mut header = TokenStream::new();
    header.append(make_fn_keyword(builder_type.is_async()));
    header.push_ident(name);
    header
}

/// The body of the constructor that hands back only the error: it calls the
/// one that recovers the heads and drops them.
///
/// ```text
/// #struct_name::#or_recover_ident(#names) #await .map_err(|(error, _heads)| error)
/// ```
pub open spec fn forward_to_or_recover(info: StructInfo, builder_type: BuilderType) -> Seq<
    TokenTree,
> {
    tokens().ident(info.ident@).colon2().ident(or_recover_ident(builder_type))
        .parens(tokens().splice(separated(builder_member_names(info), ',')))
        .splice(await_suffix(builder_type != BuilderType::Sync)).punct('.').ident("map_err"@)
        .parens(tokens().punct('|').parens(tokens().ident("error"@).punct(',').ident("_heads"@)).punct('|')
            .ident("error"@))
}

/// The text that documents a fallible constructor.
pub const TRY_CONSTRUCTOR_DOC: &'static str =
    "\"Like the constructor, but builders for self-referencing fields can return results. If any of them fail, Err is returned. If all of them succeed, Ok is returned.\"";

/// The text that documents a fallible constructor that recovers the heads.
pub const OR_RECOVER_DOC: &'static str =
    "\"Like the fallible constructor, but all head fields are returned in the case of an error.\"";

/// The text that documents a builder struct for the fallible constructors.
pub const TRY_BUILDER_DOC: &'static str =
    "\"A more verbose but stable way to construct self-referencing structs. Call try_build() or try_build_or_recover() to construct the actual struct.\"";

/// The constructor that hands back only the error.
///
/// ```text
/// #documentation
/// #visibility #constructor_fn<Error_>(#params) -> ::core::result::Result<#struct_name <#generic_args>, Error_> {
///     #constructor_code
/// }
/// ```
#[verifier::opaque]
pub open spec fn try_constructor_def(info: StructInfo, options: Options, builder_type: BuilderType) -> Seq<
    TokenTree,
> {
    tokens().splice(documentation(options, TRY_CONSTRUCTOR_DOC@))
        .splice(visibility_tokens(extras_visibility(info.vis@, options)))
        .splice(header(builder_type, try_new_ident(builder_type))).punct('<').ident("Error_"@)
        .punct('>')
        .parens(tokens().splice(separated(constructor_params(info, builder_type, true), ',')))
        .arrow().core_path("result"@, "Result"@).punct('<').ident(info.ident@).punct('<')
        .splice(separated(generic_arguments(info.generics), ',')).punct('>').punct(',')
        .ident("Error_"@).punct('>')
        .braces(tokens().splice(forward_to_or_recover(info, builder_type)))
}

/// The constructor that hands back the error and the heads.
///
/// ```text
/// #documentation
/// #visibility #constructor_fn<Error_>(#params) -> ::core::result::Result<#struct_name <#generic_args>, (Error_, Heads<#generic_args2>)> {
///     #code
///     ::core::result::Result::Ok(#value)
/// }
/// ```
#[verifier::opaque]
pub open spec fn or_recover_constructor_def(
    info: StructInfo,
    options: Options,
    builder_type: BuilderType,
) -> Seq<TokenTree> {
    tokens().splice(documentation(options, OR_RECOVER_DOC@))
        .splice(visibility_tokens(extras_visibility(info.vis@, options)))
        .splice(header(builder_type, or_recover_ident(builder_type))).punct('<').ident("Error_"@)
        .punct('>')
        .parens(tokens().splice(separated(constructor_params(info, builder_type, true), ',')))
        .arrow().core_path("result"@, "Result"@).punct('<').ident(info.ident@).punct('<')
        .splice(separated(generic_arguments(info.generics), ',')).punct('>').punct(',')
        .parens(tokens().ident("Error_"@).punct(',').ident("Heads"@).punct('<')
            .splice(separated(generic_arguments(info.generics), ',')).punct('>')).punct('>')
        .braces(tokens().splice(or_recover_code(info, builder_type, info.fields.len() as int))
            .core_path("result"@, "Result"@).segment("Ok"@)
            .parens(tokens().splice(constructed_value(info))))
}

fn make_try_constructor_def(
    info: &StructInfo,
    options: Options,
    builder_type: BuilderType,
    parts: &BuilderParts,
) -> (out: TokenStream)
    requires
        info.wf(),
        parts.matches(*info, builder_type, true),
    ensures
        out@ == try_constructor_def(*info, options, builder_type),
{
    reveal(try_constructor_def);
    let generic_args = info.generic_arguments();
    let vis = make_extras_visibility(info, options);
    let forward = {
        let mut out = TokenStream::new();
        out.push_ident(info.ident.as_str());
        out.push_colon2();
        out.push_ident(or_recover_name(builder_type));
        let mut call_args = TokenStream::new();
        call_args.append(TokenStream::separated(&parts.field_names, ','));
        out.push_parens(call_args);
        out.append(make_await_suffix(builder_type.is_async()));
        out.push_punct('.');
        out.push_ident("map_err");
        let mut closure = TokenStream::new();
        closure.push_punct('|');
        let mut pattern = TokenStream::new();
        pattern.push_ident("error");
        pattern.push_punct(',');
        pattern.push_ident("_heads");
        closure.push_parens(pattern);
        closure.push_punct('|');
        closure.push_ident("error");
        out.push_parens(closure);
        out
    };
    let mut out = TokenStream::new();
    out.append(make_documentation(options, TRY_CONSTRUCTOR_DOC));
    out.append_copy(&vis);
    out.append(make_header(builder_type, try_new_name(builder_type)));
    out.push_punct('<');
    out.push_ident("Error_");
    out.push_punct('>');
    let mut signature = TokenStream::new();
    signature.append(TokenStream::separated(&parts.params, ','));
    out.push_parens(signature);
    out.push_arrow();
    out.push_core("result", "Result");
    out.push_punct('<');
    out.push_ident(info.ident.as_str());
    out.push_punct('<');
    out.append(TokenStream::separated(&generic_args, ','));
    out.push_punct('>');
    out.push_punct(',');
    out.push_ident("Error_");
    out.push_punct('>');
    let mut body = TokenStream::new();
    body.append(forward);
    out.push_braces(body);
    out
}

fn make_or_recover_constructor_def(
    info: &StructInfo,
    options: Options,
    builder_type: BuilderType,
    parts: &BuilderParts,
) -> (out: TokenStream)
    requires
        info.wf(),
        parts.matches(*info, builder_type, true),
    ensures
        out@ == or_recover_constructor_def(*info, options, builder_type),
{
    reveal(or_recover_constructor_def);
    let generic_args = info.generic_arguments();
    let vis = make_extras_visibility(info, options);
    let code = make_or_recover_code(info, builder_type);
    let mut out = TokenStream::new();
    out.append(make_documentation(options, OR_RECOVER_DOC));
    out.append_copy(&vis);
    out.append(make_header(builder_type, or_recover_name(builder_type)));
    out.push_punct('<');
    out.push_ident("Error_");
    out.push_punct('>');
    let mut signature = TokenStream::new();
    signature.append(TokenStream::separated(&parts.params, ','));
    out.push_parens(signature);
    out.push_arrow();
    out.push_core("result", "Result");
    out.push_punct('<');
    out.push_ident(info.ident.as_str());
    out.push_punct('<');
    out.append(TokenStream::separated(&generic_args, ','));
    out.push_punct('>');
    out.push_punct(',');
    let mut failure = TokenStream::new();
    failure.push_ident("Error_");
    failure.push_punct(',');
    failure.push_ident("Heads");
    failure.push_punct('<');
    failure.append(TokenStream::separated(&generic_args, ','));
    failure.push_punct('>');
    out.push_parens(failure);
    out.push_punct('>');
    let mut body = TokenStream::new();
    body.append(code);
    body.push_core("result", "Result");
    body.push_segment("Ok");
    let mut success = TokenStream::new();
    success.append(make_constructed_value(info));
    body.push_parens(success);
    out.push_braces(body);
    out
}

/// The generic parameters of the builder struct: those of the struct, one
/// for each builder, and the type of the error.
pub open spec fn try_builder_producers(info: StructInfo, builder_type: BuilderType) -> Seq<
    Seq<TokenTree>,
> {
    builder_producers(info, builder_type, true, info.fields.len() as int).push(
        tokens().ident("Error_"@),
    )
}

/// The generic arguments of the builder struct: those of the struct, one for
/// each builder, and the type of the error.
pub open spec fn try_builder_consumers(info: StructInfo) -> Seq<Seq<TokenTree>> {
    builder_consumers(info, info.fields.len() as int).push(tokens().ident("Error_"@))
}

/// The call of the constructor `name` with the members of the builder struct.
///
/// ```text
/// #struct_name::#name(#names) #await
/// ```
pub open spec fn try_build_call(info: StructInfo, builder_type: BuilderType, name: Seq<char>) -> Seq<
    TokenTree,
> {
    tokens().ident(info.ident@).colon2().ident(name)
        .parens(tokens().splice(separated(self_members(info), ',')))
        .splice(await_suffix(builder_type != BuilderType::Sync))
}

fn make_try_build_call(
    info: &StructInfo,
    builder_type: BuilderType,
    name: &str,
    names: &Vec<TokenStream>,
) -> (out: TokenStream)
    requires
        names.deep_view() == builder_member_names(*info),
    ensures
        out@ == try_build_call(*info, builder_type, name@),
{
    let self_fields = make_self_members(info, names);
    let mut out = TokenStream::new();
    out.push_ident(info.ident.as_str());
    out.push_colon2();
    out.push_ident(name);
    let mut call_args = TokenStream::new();
    call_args.append(TokenStream::separated(&self_fields, ','));
    out.push_parens(call_args);
    out.append(make_await_suffix(builder_type.is_async()));
    out
}

/// The builder struct of one flavour, with the two functions that hand its
/// members to the two constructors.
///
/// ```text
/// #builder_documentation
/// #visibility struct #builder_struct_name <#producers> #generic_where {
///     #members
/// }
/// impl<#producers2> #builder_struct_name2 <#consumers> #generic_where2 {
///     #[doc="Calls the fallible constructor with the provided values."]
///     #visibility2 #builder_fn(self) -> ::core::result::Result<#struct_name <#generic_args>, Error_> {
///         #builder_code
///     }
///     #[doc="Calls the fallible constructor that recovers the head fields with the provided values."]
///     #visibility3 #or_recover_builder_fn(self) -> ::core::result::Result<#struct_name2 <#generic_args2>, (Error_, Heads<#generic_args3>)> {
///         #or_recover_builder_code
///     }
/// }
/// ```
#[verifier::opaque]
pub open spec fn try_builder_def(info: StructInfo, options: Options, builder_type: BuilderType) -> Seq<
    TokenTree,
> {
    tokens().splice(documentation(options, TRY_BUILDER_DOC@))
        .splice(visibility_tokens(extras_visibility(info.vis@, options))).ident("struct"@)
        .ident(try_builder_struct_ident(info, builder_type)).punct('<')
        .splice(separated(try_builder_producers(info, builder_type), ',')).punct('>')
        .splice(where_tokens(info.generics))
        .braces(tokens()
            .splice(separated(visible_members(info, visibility_tokens(extras_visibility(info.vis@, options))), ',')))
        .ident("impl"@).punct('<').splice(separated(try_builder_producers(info, builder_type), ','))
        .punct('>').ident(try_builder_struct_ident(info, builder_type)).punct('<')
        .splice(separated(try_builder_consumers(info), ',')).punct('>')
        .splice(where_tokens(info.generics))
        .braces(tokens().punct('#')
            .brackets(tokens().ident("doc"@).punct('=')
                .literal("\"Calls the fallible constructor with the provided values.\""@))
            .splice(visibility_tokens(extras_visibility(info.vis@, options)))
            .splice(header(builder_type, "try_build"@)).parens(tokens().ident("self"@)).arrow()
            .core_path("result"@, "Result"@).punct('<').ident(info.ident@).punct('<')
            .splice(separated(generic_arguments(info.generics), ',')).punct('>').punct(',')
            .ident("Error_"@).punct('>')
            .braces(tokens().splice(try_build_call(info, builder_type, try_new_ident(builder_type))))
            .punct('#')
            .brackets(tokens().ident("doc"@).punct('=')
                .literal("\"Calls the fallible constructor that recovers the head fields with the provided values.\""@))
            .splice(visibility_tokens(extras_visibility(info.vis@, options)))
            .splice(header(builder_type, "try_build_or_recover"@)).parens(tokens().ident("self"@))
            .arrow().core_path("result"@, "Result"@).punct('<').ident(info.ident@).punct('<')
            .splice(separated(generic_arguments(info.generics), ',')).punct('>').punct(',')
            .parens(tokens().ident("Error_"@).punct(',').ident("Heads"@).punct('<')
                .splice(separated(generic_arguments(info.generics), ',')).punct('>')).punct('>')
            .braces(tokens().splice(try_build_call(info, builder_type, or_recover_ident(builder_type)))))
}

fn make_try_builder_def(
    info: &StructInfo,
    options: Options,
    builder_type: BuilderType,
    parts: &BuilderParts,
) -> (out: TokenStream)
    requires
        info.wf(),
        parts.fields.deep_view() == builder_members(*info),
        parts.field_names.deep_view() == builder_member_names(*info),
        parts.generic_producers.deep_view() == try_builder_producers(*info, builder_type),
        parts.generic_consumers.deep_view() == try_builder_consumers(*info),
    ensures
        out@ == try_builder_def(*info, options, builder_type),
{
    reveal(try_builder_def);
    let generic_args = info.generic_arguments();
    let vis = make_extras_visibility(info, options);
    let builder_struct_name = make_try_builder_struct_name(info, builder_type);
    let members = make_visible_members(info, &parts.fields, &vis);
    let mut out = TokenStream::new();
    out.append(make_documentation(options, TRY_BUILDER_DOC));
    out.append_copy(&vis);
    out.push_ident("struct");
    out.push_ident(builder_struct_name.as_str());
    out.push_punct('<');
    out.append(TokenStream::separated(&parts.generic_producers, ','));
    out.push_punct('>');
    out.append(info.generics.where_tokens());
    let mut struct_body = TokenStream::new();
    struct_body.append(TokenStream::separated(&members, ','));
    out.push_braces(struct_body);
    out.push_ident("impl");
    out.push_punct('<');
    out.append(TokenStream::separated(&parts.generic_producers, ','));
    out.push_punct('>');
    out.push_ident(builder_struct_name.as_str());
    out.push_punct('<');
    out.append(TokenStream::separated(&parts.generic_consumers, ','));
    out.push_punct('>');
    out.append(info.generics.where_tokens());
    let mut impl_body = TokenStream::new();
    impl_body.push_punct('#');
    let mut doc = TokenStream::new();
    doc.push_ident("doc");
    doc.push_punct('=');
    doc.push_literal("\"Calls the fallible constructor with the provided values.\"");
    impl_body.push_brackets(doc);
    impl_body.append_copy(&vis);
    impl_body.append(make_header(builder_type, "try_build"));
    let mut receiver = TokenStream::new();
    receiver.push_ident("self");
    impl_body.push_parens(receiver);
    impl_body.push_arrow();
    impl_body.push_core("result", "Result");
    impl_body.push_punct('<');
    impl_body.push_ident(info.ident.as_str());
    impl_body.push_punct('<');
    impl_body.append(TokenStream::separated(&generic_args, ','));
    impl_body.push_punct('>');
    impl_body.push_punct(',');
    impl_body.push_ident("Error_");
    impl_body.push_punct('>');
    let mut build_body = TokenStream::new();
    build_body.append(make_try_build_call(info, builder_type, try_new_name(builder_type), &parts.field_names));
    impl_body.push_braces(build_body);
    impl_body.push_punct('#');
    let mut doc2 = TokenStream::new();
    doc2.push_ident("doc");
    doc2.push_punct('=');
    doc2.push_literal("\"Calls the fallible constructor that recovers the head fields with the provided values.\"");
    impl_body.push_brackets(doc2);
    impl_body.append_copy(&vis);
    impl_body.append(make_header(builder_type, "try_build_or_recover"));
    let mut receiver2 = TokenStream::new();
    receiver2.push_ident("self");
    impl_body.push_parens(receiver2);
    impl_body.push_arrow();
    impl_body.push_core("result", "Result");
    impl_body.push_punct('<');
    impl_body.push_ident(info.ident.as_str());
    impl_body.push_punct('<');
    impl_body.append(TokenStream::separated(&generic_args, ','));
    impl_body.push_punct('>');
    impl_body.push_punct(',');
    let mut failure = TokenStream::new();
    failure.push_ident("Error_");
    failure.push_punct(',');
    failure.push_ident("Heads");
    failure.push_punct('<');
    failure.append(TokenStream::separated(&generic_args, ','));
    failure.push_punct('>');
    impl_body.push_parens(failure);
    impl_body.push_punct('>');
    let mut recover_body = TokenStream::new();
    recover_body.append(make_try_build_call(info, builder_type, or_recover_name(builder_type), &parts.field_names));
    impl_body.push_braces(recover_body);
    out.push_braces(impl_body);
    out
}

/// Creates the two fallible constructors of one flavour and their builder
/// struct: the name of the builder struct, its definition, and the
/// definitions of the two constructors, the plain one first.
pub fn create_try_builder_and_constructor(
    info: &StructInfo,
    options: Options,
    builder_type: BuilderType,
) -> (r: Result<(String, TokenStream, TokenStream), Error>)
    requires
        info.wf(),
    ensures
        r is Ok,
        r->Ok_0.0@ == try_builder_struct_ident(*info, builder_type),
        r->Ok_0.1@ == try_builder_def(*info, options, builder_type),
        r->Ok_0.2@ == tokens().splice(try_constructor_def(*info, options, builder_type)).splice(
            or_recover_constructor_def(*info, options, builder_type),
        ),
{
    let mut parts = match collect_builder_parts(info, builder_type, true) {
        Ok(parts) => parts,
        Err(e) => {
            return Err(e);
        },
    };
    let builder_struct_name = make_try_builder_struct_name(info, builder_type);
    let mut constructor_def = TokenStream::new();
    constructor_def.append(make_try_constructor_def(info, options, builder_type, &parts));
    constructor_def.append(make_or_recover_constructor_def(info, options, builder_type, &parts));
    let mut error_producer = TokenStream::new();
    error_producer.push_ident("Error_");
    push_stream(&mut parts.generic_producers, error_producer);
    let mut error_consumer = TokenStream::new();
    error_consumer.push_ident("Error_");
    push_stream(&mut parts.generic_consumers, error_consumer);
    let builder_def = make_try_builder_def(info, options, builder_type, &parts);
    Ok((builder_struct_name, builder_def, constructor_def))
}

} // verus!
