//! The implementations of the traits that may be derived.

use vstd::prelude::*;
use vstd::string::*;
use crate::diagnostics::Error;
use crate::info_structures::{Derive, FieldType, StructInfo};
use crate::syntax::{GenericParam, GenericParamKind, Generics, where_tokens};
use crate::tokens::{Emit, TokenStream, TokenTree, separated, tokens};
use crate::utils::generic_arguments;

verus! {

/// A generic parameter with one more bound, if it stands for a type; any
/// other parameter as declared.
pub open spec fn bounded_param(param: GenericParam, bound: Seq<TokenTree>) -> Seq<TokenTree> {
    if param.kind == GenericParamKind::Type {
        if param.has_bounds {
            tokens().splice(param.tokens@).punct('+').splice(bound).splice(param.default@)
        } else {
            tokens().splice(param.tokens@).punct(':').splice(bound).splice(param.default@)
        }
    } else {
        tokens().splice(param.tokens@).splice(param.default@)
    }
}

/// The generic parameters, each type among them with one more bound.
pub open spec fn bounded_params(generics: Generics, bound: Seq<TokenTree>) -> Seq<Seq<TokenTree>> {
    Seq::new(generics.params.len() as nat, |i: int| bounded_param(generics.params[i], bound))
}

fn add_trait_bound(param: &GenericParam, bound: &TokenStream) -> (bounded: TokenStream)
    ensures
        bounded@ == bounded_param(*param, bound@),
{
    let mut bounded = TokenStream::new();
    bounded.append_copy(&param.tokens);
    match param.kind {
        GenericParamKind::Type => {
            if param.has_bounds {
                bounded.push_punct('+');
                bounded.append_copy(bound);
                bounded.append_copy(&param.default);
            } else {
                bounded.push_punct(':');
                bounded.append_copy(bound);
                bounded.append_copy(&param.default);
            }
        },
        _ => {
            bounded.append_copy(&param.default);
        },
    }
    bounded
}

/// An implementation of a trait for the struct, with the trait as a bound on
/// every type parameter.
///
/// ```text
/// impl <#generic_params> #trait_name for #struct_name <#generic_args> #generic_where {
///     #body
/// }
/// ```
pub open spec fn trait_impl(info: StructInfo, trait_name: Seq<TokenTree>, body: Seq<TokenTree>) -> Seq<
    TokenTree,
> {
    tokens().ident("impl"@).punct('<')
        .splice(separated(bounded_params(info.generics, trait_name), ',')).punct('>')
        .splice(trait_name).ident("for"@).ident(info.ident@).punct('<')
        .splice(separated(generic_arguments(info.generics), ',')).punct('>')
        .splice(where_tokens(info.generics)).braces(tokens().splice(body))
}

fn impl_trait(info: &StructInfo, trait_name: &TokenStream, body: TokenStream) -> (out: TokenStream)
    ensures
        out@ == trait_impl(*info, trait_name@, body@),
{
    let mut generic_params: Vec<TokenStream> = Vec::new();
    let mut i: usize = 0;
    while i < info.generics.params.len()
        invariant
            i <= info.generics.params.len(),
            generic_params.len() == i,
            forall|j: int|
                0 <= j < i ==> (#[trigger] generic_params[j])@ == bounded_param(
                    info.generics.params[j],
                    trait_name@,
                ),
        decreases info.generics.params.len() - i,
    {
        generic_params.push(add_trait_bound(&info.generics.params[i], trait_name));
        i += 1;
    }
    assert(generic_params.deep_view() =~= bounded_params(info.generics, trait_name@));
    let generic_args = info.generic_arguments();
    let mut out = TokenStream::new();
    out.push_ident("impl");
    out.push_punct('<');
    out.append(TokenStream::separated(&generic_params, ','));
    out.push_punct('>');
    out.append_copy(trait_name);
    out.push_ident("for");
    out.push_ident(info.ident.as_str());
    out.push_punct('<');
    out.append(TokenStream::separated(&generic_args, ','));
    out.push_punct('>');
    out.append(info.generics.where_tokens());
    let mut block = TokenStream::new();
    block.append(body);
    out.push_braces(block);
    out
}

/// The calls that show the first `n` fields, but for those that are borrowed
/// mutably.
pub open spec fn debug_fields(info: StructInfo, n: int) -> Seq<TokenTree>
    decreases n,
{
    if n <= 0 {
        tokens()
    } else {
        let field = info.fields[n - 1];
        let fields = debug_fields(info, n - 1);
        if field.field_type == FieldType::BorrowedMut {
            fields
        } else {
            fields.punct('.').ident("field"@)
                .parens(tokens().ident("stringify"@).punct('!').parens(tokens().ident(field.name@)).punct(',')
                    .punct('&').ident("safe_self"@).punct('.').ident(field.name@))
        }
    }
}

/// `::core::fmt::Debug`
///
/// ```text
/// ::core::fmt::Debug
/// ```
pub open spec fn debug_trait() -> Seq<TokenTree> {
    tokens().core_path("fmt"@, "Debug"@)
}

/// The function that shows the struct with its fields.
///
/// ```text
/// fn fmt(&self, f: &mut ::core::fmt::Formatter) -> ::core::fmt::Result {
///     self.with(|safe_self| {
///         f.debug_struct(stringify!(#struct_name))
///         #fields
///         .finish()
///     })
/// }
/// ```
pub open spec fn debug_body(info: StructInfo) -> Seq<TokenTree> {
    tokens().ident("fn"@).ident("fmt"@)
        .parens(tokens().punct('&').ident("self"@).punct(',').ident("f"@).punct(':').punct('&')
            .ident("mut"@).core_path("fmt"@, "Formatter"@)).arrow().core_path("fmt"@, "Result"@)
        .braces(tokens().ident("self"@).punct('.').ident("with"@)
            .parens(tokens().punct('|').ident("safe_self"@).punct('|')
                .braces(tokens().ident("f"@).punct('.').ident("debug_struct"@)
                    .parens(tokens().ident("stringify"@).punct('!').parens(tokens().ident(info.ident@)))
                    .splice(debug_fields(info, info.fields.len() as int)).punct('.').ident("finish"@)
                    .parens(tokens()))))
}

fn impl_debug(info: &StructInfo) -> (r: Result<TokenStream, Error>)
    ensures
        r is Ok,
        r->Ok_0@ == trait_impl(*info, debug_trait(), debug_body(*info)),
{
    let mut fields = TokenStream::new();
    let mut i: usize = 0;
    while i < info.fields.len()
        invariant
            i <= info.fields.len(),
            fields@ == debug_fields(*info, i as int),
        decreases info.fields.len() - i,
    {
        let field = &info.fields[i];
        if !field.is_mutably_borrowed() {
            fields.push_punct('.');
            fields.push_ident("field");
            let mut args = TokenStream::new();
            args.push_ident("stringify");
            args.push_punct('!');
            let mut quoted = TokenStream::new();
            quoted.push_ident(field.name.as_str());
            args.push_parens(quoted);
            args.push_punct(',');
            args.push_punct('&');
            args.push_ident("safe_self");
            args.push_punct('.');
            args.push_ident(field.name.as_str());
            fields.push_parens(args);
        }
        i += 1;
    }
    let mut trait_name = TokenStream::new();
    trait_name.push_core("fmt", "Debug");
    let mut body = TokenStream::new();
    body.push_ident("fn");
    body.push_ident("fmt");
    let mut signature = TokenStream::new();
    signature.push_punct('&');
    signature.push_ident("self");
    signature.push_punct(',');
    signature.push_ident("f");
    signature.push_punct(':');
    signature.push_punct('&');
    signature.push_ident("mut");
    signature.push_core("fmt", "Formatter");
    body.push_parens(signature);
    body.push_arrow();
    body.push_core("fmt", "Result");
    let mut block = TokenStream::new();
    block.push_ident("self");
    block.push_punct('.');
    block.push_ident("with");
    let mut call = TokenStream::new();
    call.push_punct('|');
    call.push_ident("safe_self");
    call.push_punct('|');
    let mut closure = TokenStream::new();
    closure.push_ident("f");
    closure.push_punct('.');
    closure.push_ident("debug_struct");
    let mut named = TokenStream::new();
    named.push_ident("stringify");
    named.push_punct('!');
    let mut quoted = TokenStream::new();
    quoted.push_ident(info.ident.as_str());
    named.push_parens(quoted);
    closure.push_parens(named);
    closure.append(fields);
    closure.push_punct('.');
    closure.push_ident("finish");
    closure.push_parens(TokenStream::new());
    call.push_braces(closure);
    block.push_parens(call);
    body.push_braces(block);
    Ok(impl_trait(info, &trait_name, body))
}

/// The comparisons of the first `n` fields, but for those that are borrowed
/// mutably, joined by `&&`.
pub open spec fn eq_comparisons(info: StructInfo, n: int) -> Seq<TokenTree>
    decreases n,
{
    if n <= 0 {
        tokens()
    } else {
        let field = info.fields[n - 1];
        let before = eq_comparisons(info, n - 1);
        if field.field_type == FieldType::BorrowedMut {
            before
        } else if before.len() == 0 {
            before.splice(
                tokens().punct('&').punct('*').ident("safe_self"@).punct('.').ident(field.name@).joint('=')
                    .punct('=').punct('&').punct('*').ident("safe_other"@).punct('.').ident(field.name@),
            )
        } else {
            before.joint('&').punct('&').splice(
                tokens().punct('&').punct('*').ident("safe_self"@).punct('.').ident(field.name@).joint('=')
                    .punct('=').punct('&').punct('*').ident("safe_other"@).punct('.').ident(field.name@),
            )
        }
    }
}

/// `::core::cmp::PartialEq`
///
/// ```text
/// ::core::cmp::PartialEq
/// ```
pub open spec fn partial_eq_trait() -> Seq<TokenTree> {
    tokens().core_path("cmp"@, "PartialEq"@)
}

/// The function that compares two structs field by field.
///
/// ```text
/// fn eq(&self, other: &Self) -> bool {
///     self.with(|safe_self| {
///         other.with(|safe_other| {
///             #fields
///         })
///     })
/// }
/// ```
pub open spec fn partial_eq_body(info: StructInfo) -> Seq<TokenTree> {
    tokens().ident("fn"@).ident("eq"@)
        .parens(tokens().punct('&').ident("self"@).punct(',').ident("other"@).punct(':').punct('&')
            .ident("Self"@)).arrow().ident("bool"@)
        .braces(tokens().ident("self"@).punct('.').ident("with"@)
            .parens(tokens().punct('|').ident("safe_self"@).punct('|')
                .braces(tokens().ident("other"@).punct('.').ident("with"@)
                    .parens(tokens().punct('|').ident("safe_other"@).punct('|')
                        .braces(tokens().splice(eq_comparisons(info, info.fields.len() as int)))))))
}

fn impl_partial_eq(info: &StructInfo) -> (r: Result<TokenStream, Error>)
    ensures
        r is Ok,
        r->Ok_0@ == trait_impl(*info, partial_eq_trait(), partial_eq_body(*info)),
{
    let mut fields = TokenStream::new();
    let mut i: usize = 0;
    while i < info.fields.len()
        invariant
            i <= info.fields.len(),
            fields@ == eq_comparisons(*info, i as int),
        decreases info.fields.len() - i,
    {
        let field = &info.fields[i];
        if !field.is_mutably_borrowed() {
            if !fields.is_empty() {
                fields.push_joint('&');
                fields.push_punct('&');
            }
            let mut comparison = TokenStream::new();
            comparison.push_punct('&');
            comparison.push_punct('*');
            comparison.push_ident("safe_self");
            comparison.push_punct('.');
            comparison.push_ident(field.name.as_str());
            comparison.push_joint('=');
            comparison.push_punct('=');
            comparison.push_punct('&');
            comparison.push_punct('*');
            comparison.push_ident("safe_other");
            comparison.push_punct('.');
            comparison.push_ident(field.name.as_str());
            fields.append(comparison);
        }
        i += 1;
    }
    let mut trait_name = TokenStream::new();
    trait_name.push_core("cmp", "PartialEq");
    let mut body = TokenStream::new();
    body.push_ident("fn");
    body.push_ident("eq");
    let mut signature = TokenStream::new();
    signature.push_punct('&');
    signature.push_ident("self");
    signature.push_punct(',');
    signature.push_ident("other");
    signature.push_punct(':');
    signature.push_punct('&');
    signature.push_ident("Self");
    body.push_parens(signature);
    body.push_arrow();
    body.push_ident("bool");
    let mut block = TokenStream::new();
    block.push_ident("self");
    block.push_punct('.');
    block.push_ident("with");
    let mut outer = TokenStream::new();
    outer.push_punct('|');
    outer.push_ident("safe_self");
    outer.push_punct('|');
    let mut outer_body = TokenStream::new();
    outer_body.push_ident("other");
    outer_body.push_punct('.');
    outer_body.push_ident("with");
    let mut inner = TokenStream::new();
    inner.push_punct('|');
    inner.push_ident("safe_other");
    inner.push_punct('|');
    let mut inner_body = TokenStream::new();
    inner_body.append(fields);
    inner.push_braces(inner_body);
    outer_body.push_parens(inner);
    outer.push_braces(outer_body);
    block.push_parens(outer);
    body.push_braces(block);
    Ok(impl_trait(info, &trait_name, body))
}

/// `::core::cmp::Eq`
///
/// ```text
/// ::core::cmp::Eq
/// ```
pub open spec fn eq_trait() -> Seq<TokenTree> {
    tokens().core_path("cmp"@, "Eq"@)
}

fn impl_eq(info: &StructInfo) -> (r: Result<TokenStream, Error>)
    ensures
        r is Ok,
        r->Ok_0@ == trait_impl(*info, eq_trait(), tokens()),
{
    let mut trait_name = TokenStream::new();
    trait_name.push_core("cmp", "Eq");
    let body = TokenStream::new();
    Ok(impl_trait(info, &trait_name, body))
}

/// The implementation of one trait for the struct.
#[verifier::opaque]
pub open spec fn derive_impl(info: StructInfo, derive: Derive) -> Seq<TokenTree> {
    match derive {
        Derive::Debug => trait_impl(info, debug_trait(), debug_body(info)),
        Derive::PartialEq => trait_impl(info, partial_eq_trait(), partial_eq_body(info)),
        Derive::Eq => trait_impl(info, eq_trait(), tokens()),
    }
}

/// The implementations of the first `n` traits that were asked for.
pub open spec fn derive_impls(info: StructInfo, n: int) -> Seq<TokenTree>
    decreases n,
{
    if n <= 0 {
        tokens()
    } else {
        derive_impls(info, n - 1).splice(derive_impl(info, info.derives[n - 1]))
    }
}

/// Creates the implementations of the traits that were asked for.
pub fn create_derives(info: &StructInfo) -> (r: Result<TokenStream, Error>)
    ensures
        r is Ok,
        r->Ok_0@ == derive_impls(*info, info.derives.len() as int),
{
    let mut impls = TokenStream::new();
    let mut i: usize = 0;
    while i < info.derives.len()
        invariant
            i <= info.derives.len(),
            impls@ == derive_impls(*info, i as int),
        decreases info.derives.len() - i,
    {
        proof {
            reveal(derive_impl);
        }
        let made = match info.derives[i] {
            Derive::Debug => impl_debug(info),
            Derive::PartialEq => impl_partial_eq(info),
            Derive::Eq => impl_eq(info),
        };
        match made {
            Ok(one) => {
                impls.append(one);
            },
            Err(e) => {
                return Err(e);
            },
        }
        i += 1;
    }
    Ok(impls)
}

} // verus!
