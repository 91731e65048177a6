//! The two accessors of all fields for a struct whose fields are read
//! directly from `self`, without a container around the stored fields.

use vstd::prelude::*;
use vstd::string::*;
use crate::diagnostics::Error;
use crate::generate::common::{
    documentation, extended_where, extras_visibility, make_documentation, make_extended_where,
    make_extras_visibility, marker_fields, marker_values, push_marker_fields,
    push_marker_values,
};
use crate::generate::struc::storage_order;
use crate::generate::with::WITH_ALL_DOC;
use crate::generate::with_mut::WITH_ALL_MUT_DOC;
use crate::info_structures::{FieldType, Options, StructFieldInfo, StructInfo};
use crate::syntax::visibility_tokens;
use crate::tokens::{Emit, TokenStream, TokenTree, push_stream, separated, tokens};

verus! {

/// The member of one of the two aggregates for a field. An immutably
/// borrowed field is handed out as a reference for the time of `'this`; a
/// tail field as a reference for the time of the outer borrow, mutable in the
/// mutable aggregate.
pub open spec fn all_fields_member(field: StructFieldInfo, vis: Seq<TokenTree>, mutable: bool) -> Seq<
    TokenTree,
> {
    if field.field_type != FieldType::Tail {
        tokens().splice(vis).ident(field.name@).punct(':').punct('&').lifetime("this"@)
            .splice(field.typ.tokens@)
    } else if mutable {
        tokens().splice(vis).ident(field.name@).punct(':').punct('&').lifetime("outer_borrow"@)
            .ident("mut"@).splice(field.typ.tokens@)
    } else {
        tokens().splice(vis).ident(field.name@).punct(':').punct('&').lifetime("outer_borrow"@)
            .splice(field.typ.tokens@)
    }
}

/// The value of the member of one of the two aggregates for a field.
pub open spec fn all_fields_value(field: StructFieldInfo, mutable: bool) -> Seq<TokenTree> {
    if field.field_type != FieldType::Tail {
        tokens().ident(field.name@).punct(':').ident("unsafe"@)
            .braces(tokens().help("change_lifetime"@)
                .parens(tokens().punct('&').punct('*').ident("self"@).punct('.').ident(field.name@)))
    } else if mutable {
        tokens().ident(field.name@).punct(':').punct('&').ident("mut"@).ident("self"@).punct('.')
            .ident(field.name@)
    } else {
        tokens().ident(field.name@).punct(':').punct('&').ident("self"@).punct('.')
            .ident(field.name@)
    }
}

/// Whether a field has a member in the aggregate: in the immutable one every
/// field that is not borrowed mutably, in the mutable one the tail fields
/// only.
pub open spec fn is_handed_out(field: StructFieldInfo, mutable: bool) -> bool {
    if mutable {
        field.field_type == FieldType::Tail
    } else {
        field.field_type != FieldType::BorrowedMut
    }
}

/// The members for the fields among the first `n` of `fields` that are handed
/// out.
pub open spec fn members_upto(
    fields: Seq<StructFieldInfo>,
    vis: Seq<TokenTree>,
    mutable: bool,
    n: int,
) -> Seq<Seq<TokenTree>>
    decreases n,
{
    if n <= 0 {
        Seq::empty()
    } else if !is_handed_out(fields[n - 1], mutable) {
        members_upto(fields, vis, mutable, n - 1)
    } else {
        members_upto(fields, vis, mutable, n - 1).push(
            all_fields_member(fields[n - 1], vis, mutable),
        )
    }
}

/// The values of the members for the first `n` of `fields`.
pub open spec fn values_upto(fields: Seq<StructFieldInfo>, mutable: bool, n: int) -> Seq<
    Seq<TokenTree>,
>
    decreases n,
{
    if n <= 0 {
        Seq::empty()
    } else if !is_handed_out(fields[n - 1], mutable) {
        values_upto(fields, mutable, n - 1)
    } else {
        values_upto(fields, mutable, n - 1).push(all_fields_value(fields[n - 1], mutable))
    }
}

/// The members of one of the two aggregates: the fields in storage order,
/// then the markers for the generic parameters.
pub open spec fn all_fields_members(info: StructInfo, vis: Seq<TokenTree>, mutable: bool) -> Seq<
    Seq<TokenTree>,
> {
    members_upto(storage_order(info.fields@), vis, mutable, info.fields.len() as int)
        + marker_fields(info.generics)
}

/// The values of the members of one of the two aggregates.
pub open spec fn all_fields_values(info: StructInfo, mutable: bool) -> Seq<Seq<TokenTree>> {
    values_upto(storage_order(info.fields@), mutable, info.fields.len() as int) + marker_values(
        info.generics,
    )
}

/// The two aggregates, the immutable one first.
///
/// ```text
/// #[doc="A struct for holding immutable references to all tail and immutably borrowed fields in an instance of the self-referencing struct."]
/// #visibility struct BorrowedFields #new_generic_params #generic_where { #fields }
/// #[doc="A struct for holding mutable references to all tail fields in an instance of the self-referencing struct."]
/// #visibility2 struct BorrowedMutFields #new_generic_params2 #generic_where2 { #mut_fields }
/// ```
#[verifier::opaque]
pub open spec fn all_fields_structs(info: StructInfo, options: Options) -> Seq<TokenTree> {
    tokens().punct('#')
        .brackets(tokens().ident("doc"@).punct('=')
            .literal("\"A struct for holding immutable references to all tail and immutably borrowed fields in an instance of the self-referencing struct.\""@))
        .splice(visibility_tokens(extras_visibility(info.vis@, options))).ident("struct"@)
        .ident("BorrowedFields"@).splice(info.borrowed_generic_params_tokens())
        .splice(extended_where(info.generics, seq![tokens().lifetime(info.first_lifetime@).punct(':').lifetime("this"@)]))
        .braces(tokens()
            .splice(separated(all_fields_members(info, visibility_tokens(extras_visibility(info.vis@, options)), false), ',')))
        .punct('#')
        .brackets(tokens().ident("doc"@).punct('=')
            .literal("\"A struct for holding mutable references to all tail fields in an instance of the self-referencing struct.\""@))
        .splice(visibility_tokens(extras_visibility(info.vis@, options))).ident("struct"@)
        .ident("BorrowedMutFields"@).splice(info.borrowed_generic_params_tokens())
        .splice(extended_where(info.generics, seq![tokens().lifetime(info.first_lifetime@).punct(':').lifetime("this"@)]))
        .braces(tokens()
            .splice(separated(all_fields_members(info, visibility_tokens(extras_visibility(info.vis@, options)), true), ',')))
}

/// The two accessors, the immutable one first.
///
/// ```text
/// #documentation
/// #[inline(always)]
/// #visibility fn with <'outer_borrow, ReturnType>(
///     &'outer_borrow self,
///     user: impl for<'this> ::core::ops::FnOnce(BorrowedFields<#new_generic_args>) -> ReturnType
/// ) -> ReturnType {
///     user(BorrowedFields {
///         #field_assignments
///     })
/// }
/// #mut_documentation
/// #[inline(always)]
/// #visibility2 fn with_mut <'outer_borrow, ReturnType>(
///     &'outer_borrow mut self,
///     user: impl for<'this> ::core::ops::FnOnce(BorrowedMutFields<#new_generic_args2>) -> ReturnType
/// ) -> ReturnType {
///     user(BorrowedMutFields {
///         #mut_field_assignments
///     })
/// }
/// ```
#[verifier::opaque]
pub open spec fn all_fields_fns(info: StructInfo, options: Options) -> Seq<TokenTree> {
    tokens().splice(documentation(options, WITH_ALL_DOC@)).punct('#')
        .brackets(tokens().ident("inline"@).parens(tokens().ident("always"@)))
        .splice(visibility_tokens(extras_visibility(info.vis@, options))).ident("fn"@)
        .ident("with"@).punct('<').lifetime("outer_borrow"@).punct(',').ident("ReturnType"@)
        .punct('>')
        .parens(tokens().punct('&').lifetime("outer_borrow"@).ident("self"@).punct(',').ident("user"@)
            .punct(':').ident("impl"@).ident("for"@).punct('<').lifetime("this"@).punct('>')
            .core_path("ops"@, "FnOnce"@)
            .parens(tokens().ident("BorrowedFields"@).punct('<')
                .splice(separated(info.borrowed_generic_argument_list(), ',')).punct('>')).arrow()
            .ident("ReturnType"@)).arrow().ident("ReturnType"@)
        .braces(tokens().ident("user"@)
            .parens(tokens().ident("BorrowedFields"@)
                .braces(tokens().splice(separated(all_fields_values(info, false), ',')))))
        .splice(documentation(options, WITH_ALL_MUT_DOC@)).punct('#')
        .brackets(tokens().ident("inline"@).parens(tokens().ident("always"@)))
        .splice(visibility_tokens(extras_visibility(info.vis@, options))).ident("fn"@)
        .ident("with_mut"@).punct('<').lifetime("outer_borrow"@).punct(',').ident("ReturnType"@)
        .punct('>')
        .parens(tokens().punct('&').lifetime("outer_borrow"@).ident("mut"@).ident("self"@).punct(',')
            .ident("user"@).punct(':').ident("impl"@).ident("for"@).punct('<').lifetime("this"@)
            .punct('>').core_path("ops"@, "FnOnce"@)
            .parens(tokens().ident("BorrowedMutFields"@).punct('<')
                .splice(separated(info.borrowed_generic_argument_list(), ',')).punct('>')).arrow()
            .ident("ReturnType"@)).arrow().ident("ReturnType"@)
        .braces(tokens().ident("user"@)
            .parens(tokens().ident("BorrowedMutFields"@)
                .braces(tokens().splice(separated(all_fields_values(info, true), ',')))))
}

fn make_member(field: &StructFieldInfo, vis: &TokenStream, mutable: bool) -> (member: TokenStream)
    requires
        field.field_type != FieldType::BorrowedMut,
    ensures
        member@ == all_fields_member(*field, vis@, mutable),
{
    match field.field_type {
        FieldType::Tail => {
            if mutable {
                let mut member = TokenStream::new();
                member.append_copy(vis);
                member.push_ident(field.name.as_str());
                member.push_punct(':');
                member.push_punct('&');
                member.push_lifetime("outer_borrow");
                member.push_ident("mut");
                member.append_copy(&field.typ.tokens);
                member
            } else {
                let mut member = TokenStream::new();
                member.append_copy(vis);
                member.push_ident(field.name.as_str());
                member.push_punct(':');
                member.push_punct('&');
                member.push_lifetime("outer_borrow");
                member.append_copy(&field.typ.tokens);
                member
            }
        },
        _ => {
            let mut member = TokenStream::new();
            member.append_copy(vis);
            member.push_ident(field.name.as_str());
            member.push_punct(':');
            member.push_punct('&');
            member.push_lifetime("this");
            member.append_copy(&field.typ.tokens);
            member
        },
    }
}

fn make_value(field: &StructFieldInfo, mutable: bool) -> (value: TokenStream)
    requires
        field.field_type != FieldType::BorrowedMut,
    ensures
        value@ == all_fields_value(*field, mutable),
{
    match field.field_type {
        FieldType::Tail => {
            if mutable {
                let mut value = TokenStream::new();
                value.push_ident(field.name.as_str());
                value.push_punct(':');
                value.push_punct('&');
                value.push_ident("mut");
                value.push_ident("self");
                value.push_punct('.');
                value.push_ident(field.name.as_str());
                value
            } else {
                let mut value = TokenStream::new();
                value.push_ident(field.name.as_str());
                value.push_punct(':');
                value.push_punct('&');
                value.push_ident("self");
                value.push_punct('.');
                value.push_ident(field.name.as_str());
                value
            }
        },
        _ => {
            let mut value = TokenStream::new();
            value.push_ident(field.name.as_str());
            value.push_punct(':');
            value.push_ident("unsafe");
            let mut erased = TokenStream::new();
            erased.push_help("change_lifetime");
            let mut contents = TokenStream::new();
            contents.push_punct('&');
            contents.push_punct('*');
            contents.push_ident("self");
            contents.push_punct('.');
            contents.push_ident(field.name.as_str());
            erased.push_parens(contents);
            value.push_braces(erased);
            value
        },
    }
}

fn collect(info: &StructInfo, vis: &TokenStream, mutable: bool) -> (r: (
    Vec<TokenStream>,
    Vec<TokenStream>,
))
    ensures
        r.0.deep_view() == all_fields_members(*info, vis@, mutable),
        r.1.deep_view() == all_fields_values(*info, mutable),
{
    let n = info.fields.len();
    let mut fields: Vec<TokenStream> = Vec::new();
    let mut field_assignments: Vec<TokenStream> = Vec::new();
    let ghost stored = storage_order(info.fields@);
    // The order does not matter here; it is the one of the stored fields.
    let mut i: usize = 0;
    while i < n
        invariant
            n == info.fields.len(),
            i <= n,
            stored == storage_order(info.fields@),
            fields.deep_view() == members_upto(stored, vis@, mutable, i as int),
            field_assignments.deep_view() == values_upto(stored, mutable, i as int),
        decreases n - i,
    {
        let field = &info.fields[n - 1 - i];
        assert(stored[i as int] == *field);
        let handed_out = if mutable {
            field.field_type.is_tail()
        } else {
            !field.is_mutably_borrowed()
        };
        if handed_out {
            push_stream(&mut fields, make_member(field, vis, mutable));
            push_stream(&mut field_assignments, make_value(field, mutable));
        }
        i += 1;
    }
    push_marker_fields(info, &mut fields);
    push_marker_values(info, &mut field_assignments);
    (fields, field_assignments)
}

fn make_structs(
    info: &StructInfo,
    options: Options,
    vis: &TokenStream,
    fields: &Vec<TokenStream>,
    mut_fields: &Vec<TokenStream>,
) -> (out: TokenStream)
    requires
        vis@ == visibility_tokens(extras_visibility(info.vis@, options)),
        fields.deep_view() == all_fields_members(*info, vis@, false),
        mut_fields.deep_view() == all_fields_members(*info, vis@, true),
    ensures
        out@ == all_fields_structs(*info, options),
{
    reveal(all_fields_structs);
    let fake_lifetime = info.fake_lifetime();
    let mut first = TokenStream::new();
    first.push_lifetime(fake_lifetime.as_str());
    first.push_punct(':');
    first.push_lifetime("this");
    let mut extra: Vec<TokenStream> = Vec::new();
    extra.push(first);
    assert(extra.deep_view() =~= seq![
        tokens().lifetime(info.first_lifetime@).punct(':').lifetime("this"@),
    ]);
    let generic_where = make_extended_where(&info.generics, extra);
    let mut out = TokenStream::new();
    out.push_punct('#');
    let mut doc = TokenStream::new();
    doc.push_ident("doc");
    doc.push_punct('=');
    doc.push_literal("\"A struct for holding immutable references to all tail and immutably borrowed fields in an instance of the self-referencing struct.\"");
    out.push_brackets(doc);
    out.append_copy(vis);
    out.push_ident("struct");
    out.push_ident("BorrowedFields");
    out.append(info.borrowed_generic_params());
    out.append_copy(&generic_where);
    let mut members = TokenStream::new();
    members.append(TokenStream::separated(fields, ','));
    out.push_braces(members);
    out.push_punct('#');
    let mut doc2 = TokenStream::new();
    doc2.push_ident("doc");
    doc2.push_punct('=');
    doc2.push_literal("\"A struct for holding mutable references to all tail fields in an instance of the self-referencing struct.\"");
    out.push_brackets(doc2);
    out.append_copy(vis);
    out.push_ident("struct");
    out.push_ident("BorrowedMutFields");
    out.append(info.borrowed_generic_params());
    out.append_copy(&generic_where);
    let mut mut_members = TokenStream::new();
    mut_members.append(TokenStream::separated(mut_fields, ','));
    out.push_braces(mut_members);
    out
}

fn make_fns(
    info: &StructInfo,
    options: Options,
    vis: &TokenStream,
    field_assignments: &Vec<TokenStream>,
    mut_field_assignments: &Vec<TokenStream>,
) -> (out: TokenStream)
    requires
        vis@ == visibility_tokens(extras_visibility(info.vis@, options)),
        field_assignments.deep_view() == all_fields_values(*info, false),
        mut_field_assignments.deep_view() == all_fields_values(*info, true),
    ensures
        out@ == all_fields_fns(*info, options),
{
    reveal(all_fields_fns);
    let new_generic_args = info.borrowed_generic_arguments();
    let mut out = TokenStream::new();
    out.append(make_documentation(options, WITH_ALL_DOC));
    out.push_punct('#');
    let mut inline = TokenStream::new();
    inline.push_ident("inline");
    let mut always = TokenStream::new();
    always.push_ident("always");
    inline.push_parens(always);
    out.push_brackets(inline);
    out.append_copy(vis);
    out.push_ident("fn");
    out.push_ident("with");
    out.push_punct('<');
    out.push_lifetime("outer_borrow");
    out.push_punct(',');
    out.push_ident("ReturnType");
    out.push_punct('>');
    let mut signature = TokenStream::new();
    signature.push_punct('&');
    signature.push_lifetime("outer_borrow");
    signature.push_ident("self");
    signature.push_punct(',');
    signature.push_ident("user");
    signature.push_punct(':');
    signature.push_ident("impl");
    signature.push_ident("for");
    signature.push_punct('<');
    signature.push_lifetime("this");
    signature.push_punct('>');
    signature.push_core("ops", "FnOnce");
    let mut callback = TokenStream::new();
    callback.push_ident("BorrowedFields");
    callback.push_punct('<');
    callback.append(TokenStream::separated(&new_generic_args, ','));
    callback.push_punct('>');
    signature.push_parens(callback);
    signature.push_arrow();
    signature.push_ident("ReturnType");
    out.push_parens(signature);
    out.push_arrow();
    out.push_ident("ReturnType");
    let mut body = TokenStream::new();
    body.push_ident("user");
    let mut call = TokenStream::new();
    call.push_ident("BorrowedFields");
    let mut aggregate = TokenStream::new();
    aggregate.append(TokenStream::separated(field_assignments, ','));
    call.push_braces(aggregate);
    body.push_parens(call);
    out.push_braces(body);
    out.append(make_documentation(options, WITH_ALL_MUT_DOC));
    out.push_punct('#');
    let mut inline2 = TokenStream::new();
    inline2.push_ident("inline");
    let mut always2 = TokenStream::new();
    always2.push_ident("always");
    inline2.push_parens(always2);
    out.push_brackets(inline2);
    out.append_copy(vis);
    out.push_ident("fn");
    out.push_ident("with_mut");
    out.push_punct('<');
    out.push_lifetime("outer_borrow");
    out.push_punct(',');
    out.push_ident("ReturnType");
    out.push_punct('>');
    let mut signature2 = TokenStream::new();
    signature2.push_punct('&');
    signature2.push_lifetime("outer_borrow");
    signature2.push_ident("mut");
    signature2.push_ident("self");
    signature2.push_punct(',');
    signature2.push_ident("user");
    signature2.push_punct(':');
    signature2.push_ident("impl");
    signature2.push_ident("for");
    signature2.push_punct('<');
    signature2.push_lifetime("this");
    signature2.push_punct('>');
    signature2.push_core("ops", "FnOnce");
    let mut callback2 = TokenStream::new();
    callback2.push_ident("BorrowedMutFields");
    callback2.push_punct('<');
    callback2.append(TokenStream::separated(&new_generic_args, ','));
    callback2.push_punct('>');
    signature2.push_parens(callback2);
    signature2.push_arrow();
    signature2.push_ident("ReturnType");
    out.push_parens(signature2);
    out.push_arrow();
    out.push_ident("ReturnType");
    let mut body2 = TokenStream::new();
    body2.push_ident("user");
    let mut call2 = TokenStream::new();
    call2.push_ident("BorrowedMutFields");
    let mut aggregate2 = TokenStream::new();
    aggregate2.append(TokenStream::separated(mut_field_assignments, ','));
    call2.push_braces(aggregate2);
    body2.push_parens(call2);
    out.push_braces(body2);
    out
}

/// Creates the two aggregates and the two accessors that hand them to a
/// callback, for a struct whose fields are read directly from `self`.
pub fn make_with_all_function(info: &StructInfo, options: Options) -> (r: Result<
    (TokenStream, TokenStream),
    Error,
>)
    ensures
        r is Ok,
        r->Ok_0.0@ == all_fields_structs(*info, options),
        r->Ok_0.1@ == all_fields_fns(*info, options),
{
    let vis = make_extras_visibility(info, options);
    let (fields, field_assignments) = collect(info, &vis, false);
    let (mut_fields, mut_field_assignments) = collect(info, &vis, true);
    let struct_defs = make_structs(info, options, &vis, &fields, &mut_fields);
    let fn_defs = make_fns(info, options, &vis, &field_assignments, &mut_field_assignments);
    Ok((struct_defs, fn_defs))
}

} // verus!
