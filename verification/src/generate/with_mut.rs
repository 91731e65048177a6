//! The accessor that hands out all the fields that can be changed at once.

use vstd::prelude::*;
use vstd::string::*;
use crate::diagnostics::Error;
use crate::generate::common::{
    documentation, extended_where, extras_visibility, make_documentation, make_extended_where,
    make_extras_visibility, marker_fields, marker_values, push_marker_fields,
    push_marker_values,
};
use crate::generate::struc::storage_order;
use crate::info_structures::{FieldType, Options, StructFieldInfo, StructInfo};
use crate::syntax::{generic_params_list, visibility_tokens};
use crate::tokens::{Emit, TokenStream, TokenTree, prepend_stream, push_stream, separated, tokens};
use crate::utils::{
    decimal, generic_arguments, mentions_this, replace_this, replace_this_with_lifetime,
    to_decimal, uses_this_lifetime,
};

verus! {

/// `this3`, the name of the lifetime that belongs to the stored field at
/// position 3.
pub open spec fn position_lifetime(position: int) -> Seq<char> {
    "this"@ + decimal(position as nat)
}

/// Whether the member for a field names the lifetime of its position: the
/// member for a tail field whose type names `'this` does.
pub open spec fn needs_lifetime(field: StructFieldInfo) -> bool {
    field.field_type == FieldType::Tail && mentions_this(field.typ.tokens@)
}

/// The lifetimes that the members for the first `n` of `fields` name, in the
/// order of the fields.
pub open spec fn mut_lifetimes(fields: Seq<StructFieldInfo>, n: int) -> Seq<Seq<char>>
    decreases n,
{
    if n <= 0 {
        Seq::empty()
    } else if needs_lifetime(fields[n - 1]) {
        mut_lifetimes(fields, n - 1).push(position_lifetime(n - 1))
    } else {
        mut_lifetimes(fields, n - 1)
    }
}

/// The member of the aggregate for a tail field, whose position has the
/// lifetime `lifetime`: a mutable reference for the time of the outer borrow,
/// with `lifetime` in place of `'this`.
///
/// ```text
/// #visibility #field_name: &'outer_borrow mut #field_type
/// ```
pub open spec fn borrowed_mut_member(
    field: StructFieldInfo,
    vis: Seq<TokenTree>,
    lifetime: Seq<char>,
) -> Seq<TokenTree> {
    tokens().splice(vis).ident(field.name@).punct(':').punct('&').lifetime("outer_borrow"@)
        .ident("mut"@).splice(replace_this(field.typ.tokens@, lifetime))
}

/// The value of the member of the aggregate for a tail field.
///
/// ```text
/// #field_name: &mut this.#field_name2
/// ```
pub open spec fn borrowed_mut_value(field: StructFieldInfo) -> Seq<TokenTree> {
    tokens().ident(field.name@).punct(':').punct('&').ident("mut"@).ident("this"@).punct('.')
        .ident(field.name@)
}

/// The members of the aggregate for the first `n` of `fields`. Only a tail
/// field has one: nothing may change a field that others hold references
/// into.
pub open spec fn borrowed_mut_members(fields: Seq<StructFieldInfo>, vis: Seq<TokenTree>, n: int) -> Seq<
    Seq<TokenTree>,
>
    decreases n,
{
    if n <= 0 {
        Seq::empty()
    } else if fields[n - 1].field_type != FieldType::Tail {
        borrowed_mut_members(fields, vis, n - 1)
    } else {
        borrowed_mut_members(fields, vis, n - 1).push(
            borrowed_mut_member(fields[n - 1], vis, position_lifetime(n - 1)),
        )
    }
}

/// The values of the members of the aggregate for the first `n` of `fields`.
pub open spec fn borrowed_mut_values(fields: Seq<StructFieldInfo>, n: int) -> Seq<Seq<TokenTree>>
    decreases n,
{
    if n <= 0 {
        Seq::empty()
    } else if fields[n - 1].field_type != FieldType::Tail {
        borrowed_mut_values(fields, n - 1)
    } else {
        borrowed_mut_values(fields, n - 1).push(borrowed_mut_value(fields[n - 1]))
    }
}

/// The members of the aggregate: one for each tail field, in storage order,
/// and then the markers for the generic parameters.
pub open spec fn borrowed_mut_fields_members(info: StructInfo, vis: Seq<TokenTree>) -> Seq<
    Seq<TokenTree>,
> {
    borrowed_mut_members(storage_order(info.fields@), vis, info.fields.len() as int)
        + marker_fields(info.generics)
}

/// The values of the members of the aggregate.
pub open spec fn borrowed_mut_fields_values(info: StructInfo) -> Seq<Seq<TokenTree>> {
    borrowed_mut_values(storage_order(info.fields@), info.fields.len() as int) + marker_values(
        info.generics,
    )
}

/// The lifetimes, each written with its quote, in order.
pub open spec fn lifetime_list(names: Seq<Seq<char>>) -> Seq<Seq<TokenTree>> {
    Seq::new(names.len(), |k: int| tokens().lifetime(names[k]))
}

/// `'outer_borrow`, then the lifetimes from the last to the first, then
/// `rest`.
pub open spec fn with_lifetimes(names: Seq<Seq<char>>, rest: Seq<Seq<TokenTree>>) -> Seq<
    Seq<TokenTree>,
> {
    seq![tokens().lifetime("outer_borrow"@)] + (Seq::new(
        names.len(),
        |k: int| tokens().lifetime(names[names.len() - 1 - k]),
    ) + rest)
}

/// `'longer: 'shorter`
///
/// ```text
/// #longer: #shorter
/// ```
pub open spec fn outlives(longer: Seq<char>, shorter: Seq<char>) -> Seq<TokenTree> {
    tokens().lifetime(longer).punct(':').lifetime(shorter)
}

/// The bounds that the aggregate adds: the internal lifetime outlives each
/// of the lifetimes, and each lifetime outlives the one before it.
pub open spec fn lifetime_bounds(internal: Seq<char>, names: Seq<Seq<char>>) -> Seq<Seq<TokenTree>> {
    Seq::new(names.len(), |k: int| outlives(internal, names[k])) + Seq::new(
        if names.len() == 0 {
            0nat
        } else {
            (names.len() - 1) as nat
        },
        |k: int| outlives(names[k + 1], names[k]),
    )
}

/// The text that documents the accessor.
pub const WITH_ALL_MUT_DOC: &'static str =
    "\"This method provides mutable references to all tail fields.\"";

/// The aggregate of references that the accessor hands to its callback.
///
/// ```text
/// #[doc="A struct for holding mutable references to all tail fields in an instance of the self-referencing struct."]
/// #visibility struct BorrowedMutFields <#new_generic_params> #generic_where { #mut_fields }
/// ```
#[verifier::opaque]
pub open spec fn borrowed_mut_fields_struct(info: StructInfo, options: Options) -> Seq<TokenTree> {
    tokens().punct('#')
        .brackets(tokens().ident("doc"@).punct('=')
            .literal("\"A struct for holding mutable references to all tail fields in an instance of the self-referencing struct.\""@))
        .splice(visibility_tokens(extras_visibility(info.vis@, options))).ident("struct"@)
        .ident("BorrowedMutFields"@).punct('<')
        .splice(separated(with_lifetimes(mut_lifetimes(storage_order(info.fields@), info.fields.len() as int), generic_params_list(info.generics)), ','))
        .punct('>')
        .splice(extended_where(info.generics, lifetime_bounds(info.first_lifetime@, mut_lifetimes(storage_order(info.fields@), info.fields.len() as int))))
        .braces(tokens()
            .splice(separated(borrowed_mut_fields_members(info, visibility_tokens(extras_visibility(info.vis@, options))), ',')))
}

/// The accessor: it hands the aggregate to a callback that must accept it
/// for every choice of the lifetimes, so that no reference can leave the
/// callback or move from one field to another.
///
/// ```text
/// #mut_documentation
/// #[inline(always)]
/// #visibility fn with_mut <'outer_borrow, ReturnType>(
///     &'outer_borrow mut self,
///     user: impl for<#lifetimes> ::core::ops::FnOnce(BorrowedMutFields<#new_generic_args>) -> ReturnType
/// ) -> ReturnType {
///     let this = unsafe { self.actual_data.assume_init_mut() };
///     user(BorrowedMutFields {
///         #mut_field_assignments
///     })
/// }
/// ```
#[verifier::opaque]
pub open spec fn with_all_mut_fn(info: StructInfo, options: Options) -> Seq<TokenTree> {
    tokens().splice(documentation(options, WITH_ALL_MUT_DOC@)).punct('#')
        .brackets(tokens().ident("inline"@).parens(tokens().ident("always"@)))
        .splice(visibility_tokens(extras_visibility(info.vis@, options))).ident("fn"@)
        .ident("with_mut"@).punct('<').lifetime("outer_borrow"@).punct(',').ident("ReturnType"@)
        .punct('>')
        .parens(tokens().punct('&').lifetime("outer_borrow"@).ident("mut"@).ident("self"@).punct(',')
            .ident("user"@).punct(':').ident("impl"@).ident("for"@).punct('<')
            .splice(separated(lifetime_list(mut_lifetimes(storage_order(info.fields@), info.fields.len() as int)), ','))
            .punct('>').core_path("ops"@, "FnOnce"@)
            .parens(tokens().ident("BorrowedMutFields"@).punct('<')
                .splice(separated(with_lifetimes(mut_lifetimes(storage_order(info.fields@), info.fields.len() as int), generic_arguments(info.generics)), ','))
                .punct('>')).arrow().ident("ReturnType"@)).arrow().ident("ReturnType"@)
        .braces(tokens().ident("let"@).ident("this"@).punct('=').ident("unsafe"@)
            .braces(tokens().ident("self"@).punct('.').ident("actual_data"@).punct('.')
                .ident("assume_init_mut"@).parens(tokens())).punct(';').ident("user"@)
            .parens(tokens().ident("BorrowedMutFields"@)
                .braces(tokens().splice(separated(borrowed_mut_fields_values(info), ',')))))
}

fn make_outlives(longer: &str, shorter: &str) -> (bound: TokenStream)
    ensures
        bound@ == outlives(longer@, shorter@),
{
    let mut bound = TokenStream::new();
    bound.push_lifetime(longer);
    bound.push_punct(':');
    bound.push_lifetime(shorter);
    bound
}

fn make_lifetime_bounds(internal: &str, names: &Vec<String>) -> (bounds: Vec<TokenStream>)
    ensures
        bounds.deep_view() == lifetime_bounds(internal@, names.deep_view()),
{
    let ghost all = names.deep_view();
    let mut bounds: Vec<TokenStream> = Vec::new();
    let mut k: usize = 0;
    while k < names.len()
        invariant
            k <= names.len(),
            all == names.deep_view(),
            bounds.len() == k,
            forall|j: int| 0 <= j < k ==> (#[trigger] bounds[j])@ == outlives(internal@, all[j]),
        decreases names.len() - k,
    {
        assert(names[k as int]@ == all[k as int]);
        bounds.push(make_outlives(internal, names[k].as_str()));
        k += 1;
    }
    let mut w: usize = 1;
    while w < names.len()
        invariant
            1 <= w,
            w <= names.len() || w == 1,
            all == names.deep_view(),
            bounds.len() == names.len() + w - 1,
            forall|j: int|
                0 <= j < names.len() ==> (#[trigger] bounds[j])@ == outlives(internal@, all[j]),
            forall|j: int|
                0 <= j < w - 1 ==> (#[trigger] bounds[names.len() + j])@ == outlives(
                    all[j + 1],
                    all[j],
                ),
        decreases names.len() - w,
    {
        assert(names[w as int]@ == all[w as int]);
        assert(names[w - 1]@ == all[w - 1]);
        bounds.push(make_outlives(names[w].as_str(), names[w - 1].as_str()));
        w += 1;
    }
    assert(all.len() == names.len());

    assert forall|i: int| 0 <= i < bounds.len() implies (#[trigger] bounds.deep_view()[i])
        == lifetime_bounds(internal@, all)[i] by {
        if i >= names.len() {
            let j = i - names.len();
            assert(bounds[names.len() + j]@ == outlives(all[j + 1], all[j]));
        } else {
            assert(bounds[i]@ == outlives(internal@, all[i]));
        }
    }
    assert(bounds.deep_view() =~= lifetime_bounds(internal@, all));
    bounds
}

fn make_lifetime_list(names: &Vec<String>) -> (list: Vec<TokenStream>)
    ensures
        list.deep_view() == lifetime_list(names.deep_view()),
{
    let ghost all = names.deep_view();
    let mut list: Vec<TokenStream> = Vec::new();
    let mut k: usize = 0;
    while k < names.len()
        invariant
            k <= names.len(),
            all == names.deep_view(),
            list.len() == k,
            forall|j: int| 0 <= j < k ==> (#[trigger] list[j])@ == tokens().lifetime(all[j]),
        decreases names.len() - k,
    {
        assert(names[k as int]@ == all[k as int]);
        let mut lifetime = TokenStream::new();
        lifetime.push_lifetime(names[k].as_str());
        list.push(lifetime);
        k += 1;
    }
    assert(list.deep_view() =~= lifetime_list(all));
    list
}

fn make_with_lifetimes(names: &Vec<String>, rest: Vec<TokenStream>) -> (list: Vec<TokenStream>)
    ensures
        list.deep_view() == with_lifetimes(names.deep_view(), rest.deep_view()),
{
    let ghost all = names.deep_view();
    let ghost tail = rest.deep_view();
    let mut list = rest;
    let mut k: usize = 0;
    while k < names.len()
        invariant
            k <= names.len(),
            all == names.deep_view(),
            list.deep_view() == Seq::new(k as nat, |j: int| tokens().lifetime(all[k - 1 - j]))
                + tail,
        decreases names.len() - k,
    {
        assert(names[k as int]@ == all[k as int]);
        let mut lifetime = TokenStream::new();
        lifetime.push_lifetime(names[k].as_str());
        prepend_stream(&mut list, lifetime);
        k += 1;
        assert(list.deep_view() =~= Seq::new(k as nat, |j: int| tokens().lifetime(all[k - 1 - j]))
            + tail);
    }
    let mut outer = TokenStream::new();
    outer.push_lifetime("outer_borrow");
    prepend_stream(&mut list, outer);
    assert(list.deep_view() =~= with_lifetimes(all, tail));
    list
}

/// Creates the aggregate of mutable references to the tail fields, and the
/// accessor that hands it to a callback.
pub fn make_with_all_mut_function(info: &StructInfo, options: Options) -> (r: Result<
    (TokenStream, TokenStream),
    Error,
>)
    ensures
        r is Ok,
        r->Ok_0.0@ == borrowed_mut_fields_struct(*info, options),
        r->Ok_0.1@ == with_all_mut_fn(*info, options),
{
    let vis = make_extras_visibility(info, options);
    let n = info.fields.len();
    let mut mut_fields: Vec<TokenStream> = Vec::new();
    let mut mut_field_assignments: Vec<TokenStream> = Vec::new();
    let mut lifetime_idents: Vec<String> = Vec::new();
    let ghost stored = storage_order(info.fields@);
    // The order does not matter here; it is the one of the stored fields.
    let mut index: usize = 0;
    while index < n
        invariant
            n == info.fields.len(),
            index <= n,
            stored == storage_order(info.fields@),
            mut_fields.deep_view() == borrowed_mut_members(stored, vis@, index as int),
            mut_field_assignments.deep_view() == borrowed_mut_values(stored, index as int),
            lifetime_idents.deep_view() == mut_lifetimes(stored, index as int),
        decreases n - index,
    {
        let field = &info.fields[n - 1 - index];
        assert(stored[index as int] == *field);
        let lifetime = String::from_str("this").concat(to_decimal(index).as_str());
        let field_type = replace_this_with_lifetime(&field.typ.tokens, lifetime.as_str());
        let ghost names = lifetime_idents.deep_view();
        if field.field_type.is_tail() {
            let vis = &vis;
            let ghost lifetime = lifetime@;
            let mut member = TokenStream::new();
            member.append_copy(vis);
            member.push_ident(field.name.as_str());
            member.push_punct(':');
            member.push_punct('&');
            member.push_lifetime("outer_borrow");
            member.push_ident("mut");
            member.append(field_type);
            push_stream(&mut mut_fields, member);
            let mut value = TokenStream::new();
            value.push_ident(field.name.as_str());
            value.push_punct(':');
            value.push_punct('&');
            value.push_ident("mut");
            value.push_ident("this");
            value.push_punct('.');
            value.push_ident(field.name.as_str());
            push_stream(&mut mut_field_assignments, value);
            if uses_this_lifetime(&field.typ.tokens) {
                lifetime_idents.push(String::from_str("this").concat(to_decimal(index).as_str()));
                assert(lifetime_idents.deep_view() =~= names.push(position_lifetime(index as int)));
            }
        }
        index += 1;
    }
    push_marker_fields(info, &mut mut_fields);
    push_marker_values(info, &mut mut_field_assignments);
    let struct_defs = make_borrowed_mut_fields_struct(
        info,
        options,
        &vis,
        &mut_fields,
        &lifetime_idents,
    );
    let fn_defs = make_with_all_mut_fn(
        info,
        options,
        &vis,
        &mut_field_assignments,
        &lifetime_idents,
    );
    Ok((struct_defs, fn_defs))
}

fn make_borrowed_mut_fields_struct(
    info: &StructInfo,
    options: Options,
    vis: &TokenStream,
    mut_fields: &Vec<TokenStream>,
    lifetime_idents: &Vec<String>,
) -> (out: TokenStream)
    requires
        vis@ == visibility_tokens(extras_visibility(info.vis@, options)),
        mut_fields.deep_view() == borrowed_mut_fields_members(*info, vis@),
        lifetime_idents.deep_view() == mut_lifetimes(
            storage_order(info.fields@),
            info.fields.len() as int,
        ),
    ensures
        out@ == borrowed_mut_fields_struct(*info, options),
{
    reveal(borrowed_mut_fields_struct);
    let new_generic_params = make_with_lifetimes(lifetime_idents, info.generics.params_list());
    let fake_lifetime = info.fake_lifetime();
    let bounds = make_lifetime_bounds(fake_lifetime.as_str(), lifetime_idents);
    let generic_where = make_extended_where(&info.generics, bounds);
    let mut out = TokenStream::new();
    out.push_punct('#');
    let mut doc = TokenStream::new();
    doc.push_ident("doc");
    doc.push_punct('=');
    doc.push_literal("\"A struct for holding mutable references to all tail fields in an instance of the self-referencing struct.\"");
    out.push_brackets(doc);
    out.append_copy(vis);
    out.push_ident("struct");
    out.push_ident("BorrowedMutFields");
    out.push_punct('<');
    out.append(TokenStream::separated(&new_generic_params, ','));
    out.push_punct('>');
    out.append(generic_where);
    let mut members = TokenStream::new();
    members.append(TokenStream::separated(mut_fields, ','));
    out.push_braces(members);
    out
}

fn make_with_all_mut_fn(
    info: &StructInfo,
    options: Options,
    vis: &TokenStream,
    mut_field_assignments: &Vec<TokenStream>,
    lifetime_idents: &Vec<String>,
) -> (out: TokenStream)
    requires
        vis@ == visibility_tokens(extras_visibility(info.vis@, options)),
        mut_field_assignments.deep_view() == borrowed_mut_fields_values(*info),
        lifetime_idents.deep_view() == mut_lifetimes(
            storage_order(info.fields@),
            info.fields.len() as int,
        ),
    ensures
        out@ == with_all_mut_fn(*info, options),
{
    reveal(with_all_mut_fn);
    let new_generic_args = make_with_lifetimes(lifetime_idents, info.generic_arguments());
    let lifetimes = make_lifetime_list(lifetime_idents);
    let mut out = TokenStream::new();
    out.append(make_documentation(options, WITH_ALL_MUT_DOC));
    out.push_punct('#');
    let mut inline = TokenStream::new();
    inline.push_ident("inline");
    let mut always = TokenStream::new();
    always.push_ident("always");
    inline.push_parens(always);
    out.push_brackets(inline);
    out.append_copy(vis);
    out.push_ident("fn");
    out.push_ident("with_mut");
    out.push_punct('<');
    out.push_lifetime("outer_borrow");
    out.push_punct(',');
    out.push_ident("ReturnType");
    out.push_punct('>');
    let mut signature = TokenStream::new();
    signature.push_punct('&');
    signature.push_lifetime("outer_borrow");
    signature.push_ident("mut");
    signature.push_ident("self");
    signature.push_punct(',');
    signature.push_ident("user");
    signature.push_punct(':');
    signature.push_ident("impl");
    signature.push_ident("for");
    signature.push_punct('<');
    signature.append(TokenStream::separated(&lifetimes, ','));
    signature.push_punct('>');
    signature.push_core("ops", "FnOnce");
    let mut callback = TokenStream::new();
    callback.push_ident("BorrowedMutFields");
    callback.push_punct('<');
    callback.append(TokenStream::separated(&new_generic_args, ','));
    callback.push_punct('>');
    signature.push_parens(callback);
    signature.push_arrow();
    signature.push_ident("ReturnType");
    out.push_parens(signature);
    out.push_arrow();
    out.push_ident("ReturnType");
    let mut body = TokenStream::new();
    body.push_ident("let");
    body.push_ident("this");
    body.push_punct('=');
    body.push_ident("unsafe");
    let mut read = TokenStream::new();
    read.push_ident("self");
    read.push_punct('.');
    read.push_ident("actual_data");
    read.push_punct('.');
    read.push_ident("assume_init_mut");
    read.push_parens(TokenStream::new());
    body.push_braces(read);
    body.push_punct(';');
    body.push_ident("user");
    let mut init = TokenStream::new();
    init.push_ident("BorrowedMutFields");
    let mut call = TokenStream::new();
    call.append(TokenStream::separated(mut_field_assignments, ','));
    init.push_braces(call);
    body.push_parens(init);
    out.push_braces(body);
    out
}

} // verus!
