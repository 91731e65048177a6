//! Checks that what looks like a container of the standard library is one.

use vstd::prelude::*;
use vstd::string::*;
use crate::covariance_detection::{StdContainer, apparent_std_container_type, std_container};
use crate::info_structures::{StructFieldInfo, StructInfo};
use crate::parse::first_lifetime_of;
use crate::syntax::{GenericParamKind, generic_params_tokens, where_tokens};
use crate::tokens::{Emit, TokenStream, TokenTree, tokens};
use crate::utils::{replace_this, replace_this_with_lifetime};

verus! {

/// The name of the function that accepts only the given container of the
/// standard library.
pub open spec fn checker_ident(container: StdContainer) -> Seq<char> {
    match container {
        StdContainer::Box => "is_std_box_type"@,
        StdContainer::Arc => "is_std_arc_type"@,
        StdContainer::Rc => "is_std_rc_type"@,
    }
}

/// The check for one field: nothing where its type does not look like a
/// container of the standard library, and else a call that compiles only if
/// the type is that container.
pub open spec fn type_check(info: StructInfo, field: StructFieldInfo) -> Seq<TokenTree> {
    match std_container(field.typ) {
        Some((container, _)) => {
            tokens().help("CheckIfTypeIsStd"@).colon2().punct('<')
                .splice(replace_this(field.typ.tokens@, first_lifetime_of(info.generics))).punct('>')
                .colon2().ident(checker_ident(container)).parens(tokens()).punct(';')
        },
        None => tokens(),
    }
}

/// The checks for the first `n` fields.
pub open spec fn type_checks(info: StructInfo, n: int) -> Seq<TokenTree>
    decreases n,
{
    if n <= 0 {
        tokens()
    } else {
        type_checks(info, n - 1).splice(type_check(info, info.fields[n - 1]))
    }
}

/// The function that holds the checks.
///
/// ```text
/// fn type_asserts <#generic_params>() #generic_where {
///     #checks
/// }
/// ```
#[verifier::opaque]
pub open spec fn type_asserts(info: StructInfo) -> Seq<TokenTree> {
    tokens().ident("fn"@).ident("type_asserts"@).punct('<')
        .splice(generic_params_tokens(info.generics)).punct('>').parens(tokens())
        .splice(where_tokens(info.generics))
        .braces(tokens().splice(type_checks(info, info.fields.len() as int)))
}

/// Creates the function that checks that the fields which appear to be
/// `Box`, `Arc` or `Rc` are those of the standard library.
pub fn make_type_asserts(info: &StructInfo) -> (out: TokenStream)
    ensures
        out@ == type_asserts(*info),
{
    reveal(type_asserts);
    let fake_lifetime = if info.generics.params.len() > 0 {
        match info.generics.params[0].kind {
            GenericParamKind::Lifetime => info.generics.params[0].ident.clone(),
            _ => String::from_str("static"),
        }
    } else {
        String::from_str("static")
    };
    let mut checks = TokenStream::new();
    let mut i: usize = 0;
    while i < info.fields.len()
        invariant
            i <= info.fields.len(),
            fake_lifetime@ == first_lifetime_of(info.generics),
            checks@ == type_checks(*info, i as int),
        decreases info.fields.len() - i,
    {
        let field = &info.fields[i];
        match apparent_std_container_type(&field.typ) {
            Some((std_type, _eltype)) => {
                let checker_name = match std_type {
                    StdContainer::Box => "is_std_box_type",
                    StdContainer::Arc => "is_std_arc_type",
                    StdContainer::Rc => "is_std_rc_type",
                };
                let ghost container = std_type;
                let static_field_type = replace_this_with_lifetime(
                    &field.typ.tokens,
                    fake_lifetime.as_str(),
                );
                let mut check = TokenStream::new();
                check.push_help("CheckIfTypeIsStd");
                check.push_colon2();
                check.push_punct('<');
                check.append(static_field_type);
                check.push_punct('>');
                check.push_colon2();
                check.push_ident(checker_name);
                check.push_parens(TokenStream::new());
                check.push_punct(';');
                checks.append(check);
            },
            None => {
                assert(checks@.splice(tokens()) =~= checks@);
            },
        }
        i += 1;
    }
    let mut out = TokenStream::new();
    out.push_ident("fn");
    out.push_ident("type_asserts");
    out.push_punct('<');
    out.append(info.generics.params_tokens());
    out.push_punct('>');
    out.push_parens(TokenStream::new());
    out.append(info.generics.where_tokens());
    let mut no_args = TokenStream::new();
    no_args.append(checks);
    out.push_braces(no_args);
    out
}

} // verus!
