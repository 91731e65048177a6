//! The destructor of the struct that the user sees.

use vstd::prelude::*;
use vstd::string::*;
use crate::diagnostics::Error;
use crate::generate::common::{generics_tokens, make_generics};
use crate::info_structures::StructInfo;
use crate::syntax::where_tokens;
use crate::tokens::{Emit, TokenStream, TokenTree, terminated, tokens};
use crate::utils::generic_arguments;

verus! {

/// The destructor: it destroys the stored fields in place, in storage order,
/// through the one call that the container of the stored fields offers.
///
/// ```text
/// impl #generics ::core::ops::Drop for #ident<#generic_args> #where_clause {
///     fn drop(&mut self) {
///         unsafe { self.actual_data.assume_init_drop() };
///     }
/// }
/// ```
#[verifier::opaque]
pub open spec fn drop_impl(info: StructInfo) -> Seq<TokenTree> {
    tokens().ident("impl"@).splice(generics_tokens(info.generics)).core_path("ops"@, "Drop"@)
        .ident("for"@).ident(info.ident@).punct('<')
        .splice(terminated(generic_arguments(info.generics), ',')).punct('>')
        .splice(where_tokens(info.generics))
        .braces(tokens().ident("fn"@).ident("drop"@)
            .parens(tokens().punct('&').ident("mut"@).ident("self"@))
            .braces(tokens().ident("unsafe"@)
                .braces(tokens().ident("self"@).punct('.').ident("actual_data"@).punct('.')
                    .ident("assume_init_drop"@).parens(tokens())).punct(';')))
}

/// Creates the destructor of the struct that the user sees.
pub fn create_drop_impl(info: &StructInfo) -> (r: Result<TokenStream, Error>)
    ensures
        r is Ok,
        r->Ok_0@ == drop_impl(*info),
{
    reveal(drop_impl);
    let generic_args = info.generic_arguments();
    let mut out = TokenStream::new();
    out.push_ident("impl");
    out.append(make_generics(&info.generics));
    out.push_core("ops", "Drop");
    out.push_ident("for");
    out.push_ident(info.ident.as_str());
    out.push_punct('<');
    out.append(TokenStream::terminated(&generic_args, ','));
    out.push_punct('>');
    out.append(info.generics.where_tokens());
    let mut body = TokenStream::new();
    body.push_ident("fn");
    body.push_ident("drop");
    let mut receiver = TokenStream::new();
    receiver.push_punct('&');
    receiver.push_ident("mut");
    receiver.push_ident("self");
    body.push_parens(receiver);
    let mut block = TokenStream::new();
    block.push_ident("unsafe");
    let mut inner = TokenStream::new();
    inner.push_ident("self");
    inner.push_punct('.');
    inner.push_ident("actual_data");
    inner.push_punct('.');
    inner.push_ident("assume_init_drop");
    inner.push_parens(TokenStream::new());
    block.push_braces(inner);
    block.push_punct(';');
    body.push_braces(block);
    out.push_braces(body);
    Ok(out)
}

} // verus!
