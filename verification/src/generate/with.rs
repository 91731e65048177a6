//! The accessor that hands out all the fields that can be read at once.

use vstd::prelude::*;
use vstd::string::*;
use crate::diagnostics::Error;
use crate::generate::common::{
    documentation, extended_where, extras_visibility, make_documentation, make_extended_where,
    make_extras_visibility, marker_fields, marker_values, push_marker_fields,
    push_marker_values,
};
use crate::generate::struc::storage_order;
use crate::info_structures::{FieldType, Options, StructFieldInfo, StructInfo};
use crate::syntax::visibility_tokens;
use crate::tokens::{Emit, TokenStream, TokenTree, push_stream, separated, tokens};

verus! {

/// The member of the aggregate for a field: a reference for the time of the
/// outer borrow to a tail field, a reference for the time of `'this` to an
/// immutably borrowed field.
pub open spec fn borrowed_member(field: StructFieldInfo, vis: Seq<TokenTree>) -> Seq<TokenTree> {
    if field.field_type == FieldType::Tail {
        tokens().splice(vis).ident(field.name@).punct(':').punct('&').lifetime("outer_borrow"@)
            .splice(field.typ.tokens@)
    } else {
        tokens().splice(vis).ident(field.name@).punct(':').punct('&').lifetime("this"@)
            .splice(field.typ.tokens@)
    }
}

/// The value of the member of the aggregate for a field.
pub open spec fn borrowed_value(field: StructFieldInfo) -> Seq<TokenTree> {
    if field.field_type == FieldType::Tail {
        tokens().ident(field.name@).punct(':').punct('&').ident("this"@).punct('.')
            .ident(field.name@)
    } else {
        tokens().ident(field.name@).punct(':').ident("unsafe"@)
            .braces(tokens().help("change_lifetime"@)
                .parens(tokens().punct('&').punct('*').ident("this"@).punct('.').ident(field.name@)))
    }
}

/// The members of the aggregate for the first `n` of `fields`. A field that
/// is borrowed mutably has none: nothing else may refer to it.
pub open spec fn borrowed_members(fields: Seq<StructFieldInfo>, vis: Seq<TokenTree>, n: int) -> Seq<
    Seq<TokenTree>,
>
    decreases n,
{
    if n <= 0 {
        Seq::empty()
    } else if fields[n - 1].field_type == FieldType::BorrowedMut {
        borrowed_members(fields, vis, n - 1)
    } else {
        borrowed_members(fields, vis, n - 1).push(borrowed_member(fields[n - 1], vis))
    }
}

/// The values of the members of the aggregate for the first `n` of `fields`.
pub open spec fn borrowed_values(fields: Seq<StructFieldInfo>, n: int) -> Seq<Seq<TokenTree>>
    decreases n,
{
    if n <= 0 {
        Seq::empty()
    } else if fields[n - 1].field_type == FieldType::BorrowedMut {
        borrowed_values(fields, n - 1)
    } else {
        borrowed_values(fields, n - 1).push(borrowed_value(fields[n - 1]))
    }
}

/// The members of the aggregate: one for each field that is not borrowed
/// mutably, in storage order, and then the markers for the generic
/// parameters.
pub open spec fn borrowed_fields_members(info: StructInfo, vis: Seq<TokenTree>) -> Seq<
    Seq<TokenTree>,
> {
    borrowed_members(storage_order(info.fields@), vis, info.fields.len() as int)
        + marker_fields(info.generics)
}

/// The values of the members of the aggregate.
pub open spec fn borrowed_fields_values(info: StructInfo) -> Seq<Seq<TokenTree>> {
    borrowed_values(storage_order(info.fields@), info.fields.len() as int) + marker_values(
        info.generics,
    )
}

/// The bounds that the aggregate adds: the internal lifetime outlives
/// `'this`, which outlives the outer borrow.
pub open spec fn borrowed_fields_bounds(info: StructInfo) -> Seq<Seq<TokenTree>> {
    seq![
        tokens().lifetime(info.first_lifetime@).punct(':').lifetime("this"@),
        tokens().lifetime("this"@).punct(':').lifetime("outer_borrow"@),
    ]
}

/// The text that documents the accessor.
pub const WITH_ALL_DOC: &'static str =
    "\"This method provides immutable references to all tail and immutably borrowed fields.\"";

/// The aggregate of references that the accessor hands to its callback.
///
/// ```text
/// #[doc="A struct for holding immutable references to all tail and immutably borrowed fields in an instance of the self-referencing struct."]
/// #visibility struct BorrowedFields #new_generic_params #generic_where { #fields }
/// ```
#[verifier::opaque]
pub open spec fn borrowed_fields_struct(info: StructInfo, options: Options) -> Seq<TokenTree> {
    tokens().punct('#')
        .brackets(tokens().ident("doc"@).punct('=')
            .literal("\"A struct for holding immutable references to all tail and immutably borrowed fields in an instance of the self-referencing struct.\""@))
        .splice(visibility_tokens(extras_visibility(info.vis@, options))).ident("struct"@)
        .ident("BorrowedFields"@).splice(info.borrowed_generic_params_tokens())
        .splice(extended_where(info.generics, borrowed_fields_bounds(info)))
        .braces(tokens()
            .splice(separated(borrowed_fields_members(info, visibility_tokens(extras_visibility(info.vis@, options))), ',')))
}

/// The accessor: it hands the aggregate to a callback that must accept it
/// for every `'this`, so that no reference can leave the callback.
///
/// ```text
/// #documentation
/// #[inline(always)]
/// #visibility fn with <'outer_borrow, ReturnType>(
///     &'outer_borrow self,
///     user: impl for<'this> ::core::ops::FnOnce(BorrowedFields<#new_generic_args>) -> ReturnType
/// ) -> ReturnType {
///     let this = unsafe { self.actual_data.assume_init_ref() };
///     user(BorrowedFields {
///         #field_assignments
///     })
/// }
/// ```
#[verifier::opaque]
pub open spec fn with_all_fn(info: StructInfo, options: Options) -> Seq<TokenTree> {
    tokens().splice(documentation(options, WITH_ALL_DOC@)).punct('#')
        .brackets(tokens().ident("inline"@).parens(tokens().ident("always"@)))
        .splice(visibility_tokens(extras_visibility(info.vis@, options))).ident("fn"@)
        .ident("with"@).punct('<').lifetime("outer_borrow"@).punct(',').ident("ReturnType"@)
        .punct('>')
        .parens(tokens().punct('&').lifetime("outer_borrow"@).ident("self"@).punct(',').ident("user"@)
            .punct(':').ident("impl"@).ident("for"@).punct('<').lifetime("this"@).punct('>')
            .core_path("ops"@, "FnOnce"@)
            .parens(tokens().ident("BorrowedFields"@).punct('<')
                .splice(separated(info.borrowed_generic_argument_list(), ',')).punct('>')).arrow()
            .ident("ReturnType"@)).arrow().ident("ReturnType"@)
        .braces(tokens().ident("let"@).ident("this"@).punct('=').ident("unsafe"@)
            .braces(tokens().ident("self"@).punct('.').ident("actual_data"@).punct('.')
                .ident("assume_init_ref"@).parens(tokens())).punct(';').ident("user"@)
            .parens(tokens().ident("BorrowedFields"@)
                .braces(tokens().splice(separated(borrowed_fields_values(info), ',')))))
}

/// Creates the aggregate of references to every field that can be read, and
/// the accessor that hands it to a callback.
pub fn make_with_all_function(info: &StructInfo, options: Options) -> (r: Result<
    (TokenStream, TokenStream),
    Error,
>)
    ensures
        r is Ok,
        r->Ok_0.0@ == borrowed_fields_struct(*info, options),
        r->Ok_0.1@ == with_all_fn(*info, options),
{
    reveal(with_all_fn);
    let vis = make_extras_visibility(info, options);
    let n = info.fields.len();
    let mut fields: Vec<TokenStream> = Vec::new();
    let mut field_assignments: Vec<TokenStream> = Vec::new();
    let ghost stored = storage_order(info.fields@);
    // The order does not matter here; it is the one of the stored fields.
    let mut i: usize = 0;
    while i < n
        invariant
            n == info.fields.len(),
            i <= n,
            stored == storage_order(info.fields@),
            fields.deep_view() == borrowed_members(stored, vis@, i as int),
            field_assignments.deep_view() == borrowed_values(stored, i as int),
        decreases n - i,
    {
        let field = &info.fields[n - 1 - i];
        assert(stored[i as int] == *field);
        match field.field_type {
            FieldType::Tail => {
                let vis = &vis;
                let mut member = TokenStream::new();
                member.append_copy(vis);
                member.push_ident(field.name.as_str());
                member.push_punct(':');
                member.push_punct('&');
                member.push_lifetime("outer_borrow");
                member.append_copy(&field.typ.tokens);
                push_stream(&mut fields, member);
                let mut value = TokenStream::new();
                value.push_ident(field.name.as_str());
                value.push_punct(':');
                value.push_punct('&');
                value.push_ident("this");
                value.push_punct('.');
                value.push_ident(field.name.as_str());
                push_stream(&mut field_assignments, value);
            },
            FieldType::Borrowed => {
                let vis = &vis;
                let mut member = TokenStream::new();
                member.append_copy(vis);
                member.push_ident(field.name.as_str());
                member.push_punct(':');
                member.push_punct('&');
                member.push_lifetime("this");
                member.append_copy(&field.typ.tokens);
                push_stream(&mut fields, member);
                let mut value = TokenStream::new();
                value.push_ident(field.name.as_str());
                value.push_punct(':');
                value.push_ident("unsafe");
                let mut erased = TokenStream::new();
                erased.push_help("change_lifetime");
                let mut contents = TokenStream::new();
                contents.push_punct('&');
                contents.push_punct('*');
                contents.push_ident("this");
                contents.push_punct('.');
                contents.push_ident(field.name.as_str());
                erased.push_parens(contents);
                value.push_braces(erased);
                push_stream(&mut field_assignments, value);
            },
            FieldType::BorrowedMut => {
                // What is already borrowed mutably cannot be borrowed again.
            },
        }
        i += 1;
    }
    push_marker_fields(info, &mut fields);
    push_marker_values(info, &mut field_assignments);
    let struct_defs = make_borrowed_fields_struct(info, options, &vis, &fields);
    let new_generic_args = info.borrowed_generic_arguments();
    let mut out = TokenStream::new();
    out.append(make_documentation(options, WITH_ALL_DOC));
    out.push_punct('#');
    let mut inline = TokenStream::new();
    inline.push_ident("inline");
    let mut always = TokenStream::new();
    always.push_ident("always");
    inline.push_parens(always);
    out.push_brackets(inline);
    out.append_copy(&vis);
    out.push_ident("fn");
    out.push_ident("with");
    out.push_punct('<');
    out.push_lifetime("outer_borrow");
    out.push_punct(',');
    out.push_ident("ReturnType");
    out.push_punct('>');
    let mut signature = TokenStream::new();
    signature.push_punct('&');
    signature.push_lifetime("outer_borrow");
    signature.push_ident("self");
    signature.push_punct(',');
    signature.push_ident("user");
    signature.push_punct(':');
    signature.push_ident("impl");
    signature.push_ident("for");
    signature.push_punct('<');
    signature.push_lifetime("this");
    signature.push_punct('>');
    signature.push_core("ops", "FnOnce");
    let mut callback = TokenStream::new();
    callback.push_ident("BorrowedFields");
    callback.push_punct('<');
    callback.append(TokenStream::separated(&new_generic_args, ','));
    callback.push_punct('>');
    signature.push_parens(callback);
    signature.push_arrow();
    signature.push_ident("ReturnType");
    out.push_parens(signature);
    out.push_arrow();
    out.push_ident("ReturnType");
    let mut body = TokenStream::new();
    body.push_ident("let");
    body.push_ident("this");
    body.push_punct('=');
    body.push_ident("unsafe");
    let mut read = TokenStream::new();
    read.push_ident("self");
    read.push_punct('.');
    read.push_ident("actual_data");
    read.push_punct('.');
    read.push_ident("assume_init_ref");
    read.push_parens(TokenStream::new());
    body.push_braces(read);
    body.push_punct(';');
    body.push_ident("user");
    let mut init = TokenStream::new();
    init.push_ident("BorrowedFields");
    let mut call = TokenStream::new();
    call.append(TokenStream::separated(&field_assignments, ','));
    init.push_braces(call);
    body.push_parens(init);
    out.push_braces(body);
    Ok((struct_defs, out))
}

fn make_borrowed_fields_struct(
    info: &StructInfo,
    options: Options,
    vis: &TokenStream,
    fields: &Vec<TokenStream>,
) -> (out: TokenStream)
    requires
        vis@ == visibility_tokens(extras_visibility(info.vis@, options)),
        fields.deep_view() == borrowed_fields_members(*info, vis@),
    ensures
        out@ == borrowed_fields_struct(*info, options),
{
    reveal(borrowed_fields_struct);
    let fake_lifetime = info.fake_lifetime();
    let mut first = TokenStream::new();
    first.push_lifetime(fake_lifetime.as_str());
    first.push_punct(':');
    first.push_lifetime("this");
    let mut second = TokenStream::new();
    second.push_lifetime("this");
    second.push_punct(':');
    second.push_lifetime("outer_borrow");
    let mut extra: Vec<TokenStream> = Vec::new();
    extra.push(first);
    extra.push(second);
    assert(extra.deep_view() =~= borrowed_fields_bounds(*info));
    let mut out = TokenStream::new();
    out.push_punct('#');
    let mut doc = TokenStream::new();
    doc.push_ident("doc");
    doc.push_punct('=');
    doc.push_literal("\"A struct for holding immutable references to all tail and immutably borrowed fields in an instance of the self-referencing struct.\"");
    out.push_brackets(doc);
    out.append_copy(&vis);
    out.push_ident("struct");
    out.push_ident("BorrowedFields");
    out.append(info.borrowed_generic_params());
    out.append(make_extended_where(&info.generics, extra));
    let mut members = TokenStream::new();
    members.append(TokenStream::separated(&fields, ','));
    out.push_braces(members);
    out
}

} // verus!
