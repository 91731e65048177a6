//! A function that is never called: it builds and boxes the fields with
//! ordinary borrows, so that the borrow checker sees what the builders do.

use vstd::prelude::*;
use vstd::string::*;
use crate::diagnostics::Error;
use crate::generate::common::{marker_values, push_marker_values};
use crate::generate::constructor::{collect_builder_parts, constructor_params};
use crate::generate::summon_checker::{checker_arg, checker_args, checker_consumers};
use crate::info_structures::{BuilderType, FieldType, StructFieldInfo, StructInfo};
use crate::syntax::generic_params_tokens;
use crate::tokens::{Emit, TokenStream, TokenTree, push_stream, separated, terminated, tokens};

verus! {

/// The statements for the first `n` fields: the call of the builder where the
/// field has one, and the move into a box where another field borrows it.
pub open spec fn borrowchk_code(info: StructInfo, n: int) -> Seq<Seq<TokenTree>>
    decreases n,
{
    if n <= 0 {
        Seq::empty()
    } else {
        let field = info.fields[n - 1];
        let before = borrowchk_code(info, n - 1);
        let called = if field.borrows.len() == 0 {
            before
        } else {
            before.push(
                tokens().ident("let"@).ident(field.name@).punct('=').ident(field.builder_ident())
                    .parens(tokens().splice(separated(checker_args(info, field), ','))).punct(';'),
            )
        };
        if field.field_type != FieldType::Tail {
            called.push(
                tokens().ident("let"@).ident("mut"@).ident(field.name@).punct('=').help("aliasable_boxed"@)
                    .parens(tokens().ident(field.name@)).punct(';'),
            )
        } else {
            called
        }
    }
}

/// The function that lets the borrow checker see the builders at work on
/// boxed fields.
///
/// ```text
/// fn check_if_okay_according_to_borrow_checker<#generic_params>(
///     #params
/// ) {
///     #code
///     BorrowedFields {
///         #value_consumers
///         #template_consumers
///     };
/// }
/// ```
#[verifier::opaque]
pub open spec fn borrowchk_summoner(info: StructInfo) -> Seq<TokenTree> {
    tokens().ident("fn"@).ident("check_if_okay_according_to_borrow_checker"@).punct('<')
        .splice(generic_params_tokens(info.generics)).punct('>')
        .parens(tokens().splice(terminated(constructor_params(info, BuilderType::Sync, false), ',')))
        .braces(tokens().splice(terminated(borrowchk_code(info, info.fields.len() as int), ';'))
            .ident("BorrowedFields"@)
            .braces(tokens().splice(terminated(checker_consumers(info, info.fields.len() as int), ','))
                .splice(terminated(marker_values(info.generics), ','))).punct(';'))
}

fn make_args(info: &StructInfo, field: &StructFieldInfo) -> (builder_args: Vec<TokenStream>)
    requires
        field.borrows_within(*info),
    ensures
        builder_args.deep_view() == checker_args(*info, *field),
{
    let mut builder_args: Vec<TokenStream> = Vec::new();
    let mut k: usize = 0;
    while k < field.borrows.len()
        invariant
            k <= field.borrows.len(),
            field.borrows_within(*info),
            builder_args.len() == k,
            forall|j: int|
                0 <= j < k ==> (#[trigger] builder_args[j])@ == checker_arg(
                    info.fields[field.borrows[j].index as int],
                    field.borrows[j].mutable,
                ),
        decreases field.borrows.len() - k,
    {
        let borrow = field.borrows[k];
        let borrowed = &info.fields[borrow.index];
        let mut arg = TokenStream::new();
        arg.push_punct('&');
        if borrow.mutable {
            arg.push_ident("mut");
        }
        arg.push_ident(borrowed.name.as_str());
        builder_args.push(arg);
        k += 1;
    }
    assert(builder_args.deep_view() =~= checker_args(*info, *field));
    builder_args
}

/// Creates the function that lets the borrow checker see the builders at
/// work on boxed fields.
pub fn generate_borrowchk_summoner(info: &StructInfo) -> (r: Result<TokenStream, Error>)
    requires
        info.wf(),
    ensures
        r is Ok,
        r->Ok_0@ == borrowchk_summoner(*info),
{
    reveal(borrowchk_summoner);
    let parts = match collect_builder_parts(info, BuilderType::Sync, false) {
        Ok(parts) => parts,
        Err(e) => {
            return Err(e);
        },
    };
    let mut code: Vec<TokenStream> = Vec::new();
    let mut value_consumers: Vec<TokenStream> = Vec::new();
    let mut template_consumers: Vec<TokenStream> = Vec::new();
    let mut i: usize = 0;
    while i < info.fields.len()
        invariant
            info.wf(),
            i <= info.fields.len(),
            code.deep_view() == borrowchk_code(*info, i as int),
            value_consumers.deep_view() == checker_consumers(*info, i as int),
        decreases info.fields.len() - i,
    {
        let field = &info.fields[i];
        assert(field.borrows_within(*info)) by {
            assert forall|k: int| 0 <= k < field.borrows.len() implies (
            #[trigger] field.borrows[k]).index < info.fields.len() by {
                assert(info.fields[i as int].borrows[k].index < i);
            }
        }
        if field.borrows.len() > 0 {
            let builder_name = field.builder_name();
            let builder_args = make_args(info, field);
            let mut call = TokenStream::new();
            call.push_ident("let");
            call.push_ident(field.name.as_str());
            call.push_punct('=');
            call.push_ident(builder_name.as_str());
            let mut call_args = TokenStream::new();
            call_args.append(TokenStream::separated(&builder_args, ','));
            call.push_parens(call_args);
            call.push_punct(';');
            push_stream(&mut code, call);
        }
        if field.is_borrowed() {
            let mut boxed = TokenStream::new();
            boxed.push_ident("let");
            boxed.push_ident("mut");
            boxed.push_ident(field.name.as_str());
            boxed.push_punct('=');
            boxed.push_help("aliasable_boxed");
            let mut value = TokenStream::new();
            value.push_ident(field.name.as_str());
            boxed.push_parens(value);
            boxed.push_punct(';');
            push_stream(&mut code, boxed);
        }
        if !field.is_mutably_borrowed() {
            let mut consumer = TokenStream::new();
            consumer.push_ident(field.name.as_str());
            consumer.push_punct(':');
            consumer.push_punct('&');
            consumer.push_ident(field.name.as_str());
            push_stream(&mut value_consumers, consumer);
        }
        i += 1;
    }
    push_marker_values(info, &mut template_consumers);
    assert(template_consumers.deep_view() =~= marker_values(info.generics));
    let mut out = TokenStream::new();
    out.push_ident("fn");
    out.push_ident("check_if_okay_according_to_borrow_checker");
    out.push_punct('<');
    out.append(info.generics.params_tokens());
    out.push_punct('>');
    let mut signature = TokenStream::new();
    signature.append(TokenStream::terminated(&parts.params, ','));
    out.push_parens(signature);
    let mut body = TokenStream::new();
    body.append(TokenStream::terminated(&code, ';'));
    body.push_ident("BorrowedFields");
    let mut aggregate = TokenStream::new();
    aggregate.append(TokenStream::terminated(&value_consumers, ','));
    aggregate.append(TokenStream::terminated(&template_consumers, ','));
    body.push_braces(aggregate);
    body.push_punct(';');
    out.push_braces(body);
    Ok(out)
}

} // verus!
