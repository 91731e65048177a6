//! The struct of the head fields and the operation that takes a
//! self-referencing struct apart into it.

use vstd::prelude::*;
use vstd::string::*;
use crate::generate::common::{
    documentation, extras_visibility, make_documentation, make_extras_visibility, marker_fields,
    marker_values, push_marker_fields, push_marker_values,
};
use crate::generate::struc::storage_order;
use crate::info_structures::{FieldType, Options, StructFieldInfo, StructInfo};
use crate::syntax::{generic_params_tokens, visibility_tokens, where_tokens};
use crate::diagnostics::Error;
use crate::tokens::{
    Emit, TokenStream, TokenTree, prepend_stream, push_stream, separated, tokens,
};
use crate::utils::generic_arguments;

verus! {

/// What is done with one stored field when the struct is taken apart: a field
/// that may hold references into others is dropped, a head field is moved
/// out.
pub open spec fn teardown_step(field: StructFieldInfo, code: Seq<TokenTree>) -> Seq<TokenTree> {
    if field.self_referencing {
        code.core_path("mem"@, "drop"@)
            .parens(tokens().ident("this"@).punct('.').ident(field.name@)).punct(';')
    } else {
        code.ident("let"@).ident(field.name@).punct('=').ident("this"@).punct('.')
            .ident(field.name@).punct(';')
    }
}

/// What is done with the first `n` stored fields, in storage order: every
/// field is handled before the fields it borrows from.
pub open spec fn teardown_code(info: StructInfo, n: int) -> Seq<TokenTree>
    decreases n,
{
    if n <= 0 {
        tokens()
    } else {
        teardown_step(storage_order(info.fields@)[n - 1], teardown_code(info, n - 1))
    }
}

/// The value of a head field in the struct of the heads: the field itself,
/// taken out of its box where it was put in one.
pub open spec fn head_value(field: StructFieldInfo, boxed: bool) -> Seq<TokenTree> {
    if boxed && field.field_type != FieldType::Tail {
        tokens().ident(field.name@).punct(':').help("unbox"@).parens(tokens().ident(field.name@))
    } else {
        tokens().ident(field.name@)
    }
}

/// Makes the value of a head field in the struct of the heads.
pub fn make_head_value(field: &StructFieldInfo, boxed: bool) -> (value: TokenStream)
    ensures
        value@ == head_value(*field, boxed),
{
    if boxed && field.is_borrowed() {
        let mut value = TokenStream::new();
        value.push_ident(field.name.as_str());
        value.push_punct(':');
        value.push_help("unbox");
        let mut boxed = TokenStream::new();
        boxed.push_ident(field.name.as_str());
        value.push_parens(boxed);
        value
    } else {
        let mut value = TokenStream::new();
        value.push_ident(field.name.as_str());
        value
    }
}

/// The values of the head fields among the first `n` of `fields`, each taken
/// out of its box.
pub open spec fn head_values(fields: Seq<StructFieldInfo>, n: int) -> Seq<Seq<TokenTree>>
    decreases n,
{
    if n <= 0 {
        Seq::empty()
    } else if fields[n - 1].self_referencing {
        head_values(fields, n - 1)
    } else {
        head_values(fields, n - 1).push(head_value(fields[n - 1], true))
    }
}

/// The places of the head fields among the first `n` of `fields`, in order: a
/// head field is one that carries no `borrows` attribute.
pub open spec fn head_positions(fields: Seq<StructFieldInfo>, n: int) -> Seq<int>
    decreases n,
{
    if n <= 0 {
        Seq::empty()
    } else if fields[n - 1].self_referencing {
        head_positions(fields, n - 1)
    } else {
        head_positions(fields, n - 1).push(n - 1)
    }
}

/// The places of the head fields are places among the first `n`, in growing
/// order, of fields without a `borrows` attribute; and every such field has
/// its place among them.
pub proof fn lemma_head_positions(fields: Seq<StructFieldInfo>, n: int)
    requires
        0 <= n <= fields.len(),
    ensures
        forall|k: int|
            0 <= k < head_positions(fields, n).len() ==> {
                let h = #[trigger] head_positions(fields, n)[k];
                0 <= h < n && !fields[h].self_referencing
            },
        forall|h: int|
            0 <= h < n && !(#[trigger] fields[h]).self_referencing ==> head_positions(
                fields,
                n,
            ).contains(h),
    decreases n,
{
    if n > 0 {
        lemma_head_positions(fields, n - 1);
        let before = head_positions(fields, n - 1);
        let all = head_positions(fields, n);
        assert forall|h: int|
            0 <= h < n && !(#[trigger] fields[h]).self_referencing implies all.contains(h) by {
            if h < n - 1 {
                let k = choose|k: int| 0 <= k < before.len() && before[k] == h;
                assert(all[k] == h);
            } else {
                assert(all[all.len() - 1] == h);
            }
        }
    }
}

/// The values in the struct of the heads are those of the head fields, one
/// for each: the value at place `k` is that of the head field at place `k`
/// among the head fields, taken out of its box.
pub proof fn lemma_head_values_name_the_heads(fields: Seq<StructFieldInfo>, n: int)
    requires
        0 <= n <= fields.len(),
    ensures
        head_values(fields, n).len() == head_positions(fields, n).len(),
        forall|k: int|
            0 <= k < head_positions(fields, n).len() ==> #[trigger] head_values(fields, n)[k]
                == head_value(fields[head_positions(fields, n)[k]], true),
    decreases n,
{
    if n > 0 {
        lemma_head_values_name_the_heads(fields, n - 1);
    }
}

/// `vis name: Type`, the member of the struct of the heads for a head field.
///
/// ```text
/// #visibility #field_name: #field_type
/// ```
pub open spec fn head_member(field: StructFieldInfo, vis: Seq<TokenTree>) -> Seq<TokenTree> {
    tokens().splice(vis).ident(field.name@).punct(':').splice(field.typ.tokens@)
}

/// The members of the struct of the heads for the head fields among the first
/// `n` of `fields`.
pub open spec fn head_members(fields: Seq<StructFieldInfo>, vis: Seq<TokenTree>, n: int) -> Seq<
    Seq<TokenTree>,
>
    decreases n,
{
    if n <= 0 {
        Seq::empty()
    } else if fields[n - 1].self_referencing {
        head_members(fields, vis, n - 1)
    } else {
        head_members(fields, vis, n - 1).push(head_member(fields[n - 1], vis))
    }
}

/// The members of the struct of the heads: the head fields in storage order,
/// and then the markers for the generic parameters.
pub open spec fn heads_struct_members(info: StructInfo, vis: Seq<TokenTree>) -> Seq<Seq<TokenTree>> {
    head_members(storage_order(info.fields@), vis, info.fields.len() as int) + marker_fields(
        info.generics,
    )
}

/// The values of the members of the struct of the heads.
pub open spec fn heads_values(info: StructInfo) -> Seq<Seq<TokenTree>> {
    head_values(storage_order(info.fields@), info.fields.len() as int) + marker_values(
        info.generics,
    )
}

/// The struct that holds the head fields.
///
/// ```text
/// #[doc="A struct which contains only the head fields of the self-referencing struct."]
/// #visibility struct Heads <#generic_params> #generic_where {
///     #head_fields
/// }
/// ```
#[verifier::opaque]
pub open spec fn heads_struct_def(info: StructInfo, options: Options) -> Seq<TokenTree> {
    tokens().punct('#')
        .brackets(tokens().ident("doc"@).punct('=')
            .literal("\"A struct which contains only the head fields of the self-referencing struct.\""@))
        .splice(visibility_tokens(extras_visibility(info.vis@, options))).ident("struct"@)
        .ident("Heads"@).punct('<').splice(generic_params_tokens(info.generics)).punct('>')
        .splice(where_tokens(info.generics))
        .braces(tokens()
            .splice(separated(heads_struct_members(info, visibility_tokens(extras_visibility(info.vis@, options))), ',')))
}

/// The text that documents `into_heads`.
pub const INTO_HEADS_DOC: &'static str =
    "\"This function drops all internally referencing fields and returns only the head fields of this struct.\"";

/// The operation that takes the struct apart: it reads the stored fields out
/// of their container, keeps the destructor from running, drops the fields
/// that may hold references, latest declared first, and returns the heads.
///
/// ```text
/// #documentation
/// #[allow(clippy::drop_ref)]
/// #[allow(clippy::drop_copy)]
/// #[allow(clippy::drop_non_drop)]
/// #visibility fn into_heads(self) -> Heads<#generic_args> {
///     let this_ptr = &self as *const _;
///     let this: #internal_struct<#generic_args2> = unsafe { ::core::mem::transmute_copy(&*this_ptr) };
///     ::core::mem::forget(self);
///     #code
///     Heads {
///         #field_initializers
///     }
/// }
/// ```
#[verifier::opaque]
pub open spec fn into_heads_fn(info: StructInfo, options: Options) -> Seq<TokenTree> {
    tokens().splice(documentation(options, INTO_HEADS_DOC@)).punct('#')
        .brackets(tokens().ident("allow"@).parens(tokens().ident("clippy"@).segment("drop_ref"@)))
        .punct('#')
        .brackets(tokens().ident("allow"@).parens(tokens().ident("clippy"@).segment("drop_copy"@)))
        .punct('#')
        .brackets(tokens().ident("allow"@).parens(tokens().ident("clippy"@).segment("drop_non_drop"@)))
        .splice(visibility_tokens(extras_visibility(info.vis@, options))).ident("fn"@)
        .ident("into_heads"@).parens(tokens().ident("self"@)).arrow().ident("Heads"@).punct('<')
        .splice(separated(generic_arguments(info.generics), ',')).punct('>')
        .braces(tokens().ident("let"@).ident("this_ptr"@).punct('=').punct('&').ident("self"@).ident("as"@)
            .punct('*').ident("const"@).ident("_"@).punct(';').ident("let"@).ident("this"@).punct(':')
            .ident(info.internal_ident@).punct('<')
            .splice(separated(generic_arguments(info.generics), ',')).punct('>').punct('=')
            .ident("unsafe"@)
            .braces(tokens().core_path("mem"@, "transmute_copy"@)
                .parens(tokens().punct('&').punct('*').ident("this_ptr"@))).punct(';')
            .core_path("mem"@, "forget"@).parens(tokens().ident("self"@)).punct(';')
            .splice(teardown_code(info, info.fields.len() as int)).ident("Heads"@)
            .braces(tokens().splice(separated(heads_values(info), ','))))
}

/// Returns the struct of the heads and the function that turns the struct
/// into it.
pub fn make_into_heads(info: &StructInfo, options: Options) -> (r: (TokenStream, TokenStream))
    ensures
        r.0@ == heads_struct_def(*info, options),
        r.1@ == into_heads_fn(*info, options),
{
    reveal(into_heads_fn);
    let vis = make_extras_visibility(info, options);
    let n = info.fields.len();
    let mut code = TokenStream::new();
    let mut field_initializers: Vec<TokenStream> = Vec::new();
    let mut head_fields: Vec<TokenStream> = Vec::new();
    let ghost stored = storage_order(info.fields@);
    // Everything is handled in the reverse of the order it was declared in:
    // a field depends only on fields that come before it.
    let mut i: usize = 0;
    while i < n
        invariant
            n == info.fields.len(),
            i <= n,
            stored == storage_order(info.fields@),
            code@ == teardown_code(*info, i as int),
            field_initializers.deep_view() == head_values(stored, i as int),
            head_fields.deep_view() == head_members(stored, vis@, i as int),
        decreases n - i,
    {
        let field = &info.fields[n - 1 - i];
        assert(stored[i as int] == *field);
        if field.self_referencing {
            code.push_core("mem", "drop");
            let mut dropped = TokenStream::new();
            dropped.push_ident("this");
            dropped.push_punct('.');
            dropped.push_ident(field.name.as_str());
            code.push_parens(dropped);
            code.push_punct(';');
        } else {
            code.push_ident("let");
            code.push_ident(field.name.as_str());
            code.push_punct('=');
            code.push_ident("this");
            code.push_punct('.');
            code.push_ident(field.name.as_str());
            code.push_punct(';');
            push_stream(&mut field_initializers, make_head_value(field, true));
            let vis = &vis;
            let mut member = TokenStream::new();
            member.append_copy(vis);
            member.push_ident(field.name.as_str());
            member.push_punct(':');
            member.append_copy(&field.typ.tokens);
            push_stream(&mut head_fields, member);
        }
        i += 1;
    }
    push_marker_fields(info, &mut head_fields);
    push_marker_values(info, &mut field_initializers);
    let heads_struct = make_heads_struct_def(info, options, &vis, &head_fields);
    let generic_args = info.generic_arguments();
    let mut out = TokenStream::new();
    out.append(make_documentation(options, INTO_HEADS_DOC));
    out.push_punct('#');
    let mut lint = TokenStream::new();
    lint.push_ident("allow");
    let mut lint_name = TokenStream::new();
    lint_name.push_ident("clippy");
    lint_name.push_segment("drop_ref");
    lint.push_parens(lint_name);
    out.push_brackets(lint);
    out.push_punct('#');
    let mut lint2 = TokenStream::new();
    lint2.push_ident("allow");
    let mut lint_name2 = TokenStream::new();
    lint_name2.push_ident("clippy");
    lint_name2.push_segment("drop_copy");
    lint2.push_parens(lint_name2);
    out.push_brackets(lint2);
    out.push_punct('#');
    let mut lint3 = TokenStream::new();
    lint3.push_ident("allow");
    let mut lint_name3 = TokenStream::new();
    lint_name3.push_ident("clippy");
    lint_name3.push_segment("drop_non_drop");
    lint3.push_parens(lint_name3);
    out.push_brackets(lint3);
    out.append_copy(&vis);
    out.push_ident("fn");
    out.push_ident("into_heads");
    let mut receiver = TokenStream::new();
    receiver.push_ident("self");
    out.push_parens(receiver);
    out.push_arrow();
    out.push_ident("Heads");
    out.push_punct('<');
    out.append(TokenStream::separated(&generic_args, ','));
    out.push_punct('>');
    let mut body = TokenStream::new();
    body.push_ident("let");
    body.push_ident("this_ptr");
    body.push_punct('=');
    body.push_punct('&');
    body.push_ident("self");
    body.push_ident("as");
    body.push_punct('*');
    body.push_ident("const");
    body.push_ident("_");
    body.push_punct(';');
    body.push_ident("let");
    body.push_ident("this");
    body.push_punct(':');
    body.push_ident(info.internal_ident.as_str());
    body.push_punct('<');
    body.append(TokenStream::separated(&generic_args, ','));
    body.push_punct('>');
    body.push_punct('=');
    body.push_ident("unsafe");
    let mut copy = TokenStream::new();
    copy.push_core("mem", "transmute_copy");
    let mut pointer = TokenStream::new();
    pointer.push_punct('&');
    pointer.push_punct('*');
    pointer.push_ident("this_ptr");
    copy.push_parens(pointer);
    body.push_braces(copy);
    body.push_punct(';');
    body.push_core("mem", "forget");
    let mut forgotten = TokenStream::new();
    forgotten.push_ident("self");
    body.push_parens(forgotten);
    body.push_punct(';');
    body.append(code);
    body.push_ident("Heads");
    let mut heads = TokenStream::new();
    heads.append(TokenStream::separated(&field_initializers, ','));
    body.push_braces(heads);
    out.push_braces(body);
    (heads_struct, out)
}

fn make_heads_struct_def(
    info: &StructInfo,
    options: Options,
    vis: &TokenStream,
    head_fields: &Vec<TokenStream>,
) -> (out: TokenStream)
    requires
        vis@ == visibility_tokens(extras_visibility(info.vis@, options)),
        head_fields.deep_view() == heads_struct_members(*info, vis@),
    ensures
        out@ == heads_struct_def(*info, options),
{
    reveal(heads_struct_def);
    let mut out = TokenStream::new();
    out.push_punct('#');
    let mut doc = TokenStream::new();
    doc.push_ident("doc");
    doc.push_punct('=');
    doc.push_literal("\"A struct which contains only the head fields of the self-referencing struct.\"");
    out.push_brackets(doc);
    out.append_copy(&vis);
    out.push_ident("struct");
    out.push_ident("Heads");
    out.push_punct('<');
    out.append(info.generics.params_tokens());
    out.push_punct('>');
    out.append(info.generics.where_tokens());
    let mut members = TokenStream::new();
    members.append(TokenStream::separated(&head_fields, ','));
    out.push_braces(members);
    out
}

/// Whether a field is handed to the callback of `destruct_into_heads` by
/// value: a field that carries a `borrows` attribute and that no other field
/// borrows.
pub open spec fn is_owned_tail(field: StructFieldInfo) -> bool {
    field.self_referencing && field.field_type == FieldType::Tail
}

/// `vis name: Type`, the member of the aggregate of the owned tail fields for
/// a field.
///
/// ```text
/// #visibility #field_name: #field_type
/// ```
pub open spec fn owned_tail_member(field: StructFieldInfo, vis: Seq<TokenTree>) -> Seq<TokenTree> {
    tokens().splice(vis).ident(field.name@).punct(':').splice(field.typ.tokens@)
}

/// The value of the member of the aggregate of the owned tail fields for a
/// field.
///
/// ```text
/// #field_name: this.#field_name2
/// ```
pub open spec fn owned_tail_value(field: StructFieldInfo) -> Seq<TokenTree> {
    tokens().ident(field.name@).punct(':').ident("this"@).punct('.').ident(field.name@)
}

/// The members for the owned tail fields among the first `n` of `fields`.
pub open spec fn owned_members(fields: Seq<StructFieldInfo>, vis: Seq<TokenTree>, n: int) -> Seq<
    Seq<TokenTree>,
>
    decreases n,
{
    if n <= 0 {
        Seq::empty()
    } else if is_owned_tail(fields[n - 1]) {
        owned_members(fields, vis, n - 1).push(owned_tail_member(fields[n - 1], vis))
    } else {
        owned_members(fields, vis, n - 1)
    }
}

/// The values for the owned tail fields among the first `n` of `fields`.
pub open spec fn owned_values(fields: Seq<StructFieldInfo>, n: int) -> Seq<Seq<TokenTree>>
    decreases n,
{
    if n <= 0 {
        Seq::empty()
    } else if is_owned_tail(fields[n - 1]) {
        owned_values(fields, n - 1).push(owned_tail_value(fields[n - 1]))
    } else {
        owned_values(fields, n - 1)
    }
}

/// The members of the aggregate of the owned tail fields, in storage order,
/// and then the markers for the generic parameters.
pub open spec fn owned_tail_members(info: StructInfo, vis: Seq<TokenTree>) -> Seq<Seq<TokenTree>> {
    owned_members(storage_order(info.fields@), vis, info.fields.len() as int) + marker_fields(
        info.generics,
    )
}

/// The values of the members of the aggregate of the owned tail fields.
pub open spec fn owned_tail_values(info: StructInfo) -> Seq<Seq<TokenTree>> {
    owned_values(storage_order(info.fields@), info.fields.len() as int) + marker_values(
        info.generics,
    )
}

/// The statements that move the head fields among the first `n` stored
/// fields out of the struct.
pub open spec fn heads_code(info: StructInfo, n: int) -> Seq<TokenTree>
    decreases n,
{
    if n <= 0 {
        tokens()
    } else {
        let field = storage_order(info.fields@)[n - 1];
        let code = heads_code(info, n - 1);
        if field.self_referencing {
            code
        } else {
            code.ident("let"@).ident(field.name@).punct('=').ident("this"@).punct('.')
                .ident(field.name@).punct(';')
        }
    }
}

/// `<'this, ...>`, with the struct's own parameters after the lifetime.
pub open spec fn owned_tail_params(info: StructInfo) -> Seq<TokenTree> {
    if info.generics.params.len() == 0 {
        tokens().punct('<').lifetime("this"@).punct('>')
    } else {
        tokens().punct('<').lifetime("this"@).punct(',')
            .splice(generic_params_tokens(info.generics)).punct('>')
    }
}

/// The aggregate of the owned tail fields.
///
/// ```text
/// #[doc="A struct for holding tail fields in an instance of the self-referencing struct."]
/// #visibility struct OwnedTailFields #new_generic_params #generic_where { #fields }
/// ```
#[verifier::opaque]
pub open spec fn owned_tail_struct(info: StructInfo, options: Options) -> Seq<TokenTree> {
    tokens().punct('#')
        .brackets(tokens().ident("doc"@).punct('=')
            .literal("\"A struct for holding tail fields in an instance of the self-referencing struct.\""@))
        .splice(visibility_tokens(extras_visibility(info.vis@, options))).ident("struct"@)
        .ident("OwnedTailFields"@).splice(owned_tail_params(info))
        .splice(where_tokens(info.generics))
        .braces(tokens()
            .splice(separated(owned_tail_members(info, visibility_tokens(extras_visibility(info.vis@, options))), ',')))
}

/// The text that documents `destruct_into_heads`.
pub const DESTRUCT_DOC: &'static str =
    "\"This method hands the tail fields to a callback and returns the head fields.\"";

/// The operation that takes the struct apart for a callback: the tail fields
/// that borrow from others go to the callback by value, and the head fields
/// are returned beside what the callback returns.
///
/// ```text
/// #documentation
/// #[inline(always)]
/// #visibility fn destruct_into_heads <ReturnType>(
///     self,
///     user: impl for<'this> ::core::ops::FnOnce(OwnedTailFields<#new_generic_args>) -> ReturnType
/// ) -> (ReturnType, Heads<#generic_args>) {
///     let this_ptr = &self as *const _;
///     let this: #internal_struct<#generic_args2> = unsafe { ::core::mem::transmute_copy(&*this_ptr) };
///     ::core::mem::forget(self);
///
///     let user_return = user(OwnedTailFields {
///         #field_assignments
///     });
///
///     let heads = {
///         #code
///
///         Heads {
///             #field_initializers
///         }
///     };
///
///     (user_return, heads)
/// }
/// ```
#[verifier::opaque]
pub open spec fn destruct_into_heads_fn(info: StructInfo, options: Options) -> Seq<TokenTree> {
    tokens().splice(documentation(options, DESTRUCT_DOC@)).punct('#')
        .brackets(tokens().ident("inline"@).parens(tokens().ident("always"@)))
        .splice(visibility_tokens(extras_visibility(info.vis@, options))).ident("fn"@)
        .ident("destruct_into_heads"@).punct('<').ident("ReturnType"@).punct('>')
        .parens(tokens().ident("self"@).punct(',').ident("user"@).punct(':').ident("impl"@).ident("for"@)
            .punct('<').lifetime("this"@).punct('>').core_path("ops"@, "FnOnce"@)
            .parens(tokens().ident("OwnedTailFields"@).punct('<')
                .splice(separated(seq![tokens().lifetime("this"@)] + generic_arguments(info.generics), ','))
                .punct('>')).arrow().ident("ReturnType"@)).arrow()
        .parens(tokens().ident("ReturnType"@).punct(',').ident("Heads"@).punct('<')
            .splice(separated(generic_arguments(info.generics), ',')).punct('>'))
        .braces(tokens().ident("let"@).ident("this_ptr"@).punct('=').punct('&').ident("self"@).ident("as"@)
            .punct('*').ident("const"@).ident("_"@).punct(';').ident("let"@).ident("this"@).punct(':')
            .ident(info.internal_ident@).punct('<')
            .splice(separated(generic_arguments(info.generics), ',')).punct('>').punct('=')
            .ident("unsafe"@)
            .braces(tokens().core_path("mem"@, "transmute_copy"@)
                .parens(tokens().punct('&').punct('*').ident("this_ptr"@))).punct(';')
            .core_path("mem"@, "forget"@).parens(tokens().ident("self"@)).punct(';').ident("let"@)
            .ident("user_return"@).punct('=').ident("user"@)
            .parens(tokens().ident("OwnedTailFields"@)
                .braces(tokens().splice(separated(owned_tail_values(info), ',')))).punct(';')
            .ident("let"@).ident("heads"@).punct('=')
            .braces(tokens().splice(heads_code(info, info.fields.len() as int)).ident("Heads"@)
                .braces(tokens().splice(separated(heads_values(info), ',')))).punct(';')
            .parens(tokens().ident("user_return"@).punct(',').ident("heads"@)))
}

fn make_owned_tail_struct(
    info: &StructInfo,
    options: Options,
    vis: &TokenStream,
    fields: &Vec<TokenStream>,
) -> (out: TokenStream)
    requires
        vis@ == visibility_tokens(extras_visibility(info.vis@, options)),
        fields.deep_view() == owned_tail_members(*info, vis@),
    ensures
        out@ == owned_tail_struct(*info, options),
{
    reveal(owned_tail_struct);
    let new_generic_params = if info.generics.params.len() == 0 {
        let mut out = TokenStream::new();
        out.push_punct('<');
        out.push_lifetime("this");
        out.push_punct('>');
        out
    } else {
        let mut out = TokenStream::new();
        out.push_punct('<');
        out.push_lifetime("this");
        out.push_punct(',');
        out.append(info.generics.params_tokens());
        out.push_punct('>');
        out
    };
    let mut out = TokenStream::new();
    out.push_punct('#');
    let mut doc = TokenStream::new();
    doc.push_ident("doc");
    doc.push_punct('=');
    doc.push_literal("\"A struct for holding tail fields in an instance of the self-referencing struct.\"");
    out.push_brackets(doc);
    out.append_copy(vis);
    out.push_ident("struct");
    out.push_ident("OwnedTailFields");
    out.append(new_generic_params);
    out.append(info.generics.where_tokens());
    let mut members = TokenStream::new();
    members.append(TokenStream::separated(fields, ','));
    out.push_braces(members);
    out
}

fn make_destruct_fn(
    info: &StructInfo,
    options: Options,
    vis: &TokenStream,
    field_assignments: &Vec<TokenStream>,
    field_initializers: &Vec<TokenStream>,
    code: TokenStream,
) -> (out: TokenStream)
    requires
        vis@ == visibility_tokens(extras_visibility(info.vis@, options)),
        field_assignments.deep_view() == owned_tail_values(*info),
        field_initializers.deep_view() == heads_values(*info),
        code@ == heads_code(*info, info.fields.len() as int),
    ensures
        out@ == destruct_into_heads_fn(*info, options),
{
    reveal(destruct_into_heads_fn);
    let generic_args = info.generic_arguments();
    let mut new_generic_args = info.generic_arguments();
    let mut this = TokenStream::new();
    this.push_lifetime("this");
    prepend_stream(&mut new_generic_args, this);
    let mut out = TokenStream::new();
    out.append(make_documentation(options, DESTRUCT_DOC));
    out.push_punct('#');
    let mut inline = TokenStream::new();
    inline.push_ident("inline");
    let mut always = TokenStream::new();
    always.push_ident("always");
    inline.push_parens(always);
    out.push_brackets(inline);
    out.append_copy(vis);
    out.push_ident("fn");
    out.push_ident("destruct_into_heads");
    out.push_punct('<');
    out.push_ident("ReturnType");
    out.push_punct('>');
    let mut signature = TokenStream::new();
    signature.push_ident("self");
    signature.push_punct(',');
    signature.push_ident("user");
    signature.push_punct(':');
    signature.push_ident("impl");
    signature.push_ident("for");
    signature.push_punct('<');
    signature.push_lifetime("this");
    signature.push_punct('>');
    signature.push_core("ops", "FnOnce");
    let mut callback = TokenStream::new();
    callback.push_ident("OwnedTailFields");
    callback.push_punct('<');
    callback.append(TokenStream::separated(&new_generic_args, ','));
    callback.push_punct('>');
    signature.push_parens(callback);
    signature.push_arrow();
    signature.push_ident("ReturnType");
    out.push_parens(signature);
    out.push_arrow();
    let mut returned = TokenStream::new();
    returned.push_ident("ReturnType");
    returned.push_punct(',');
    returned.push_ident("Heads");
    returned.push_punct('<');
    returned.append(TokenStream::separated(&generic_args, ','));
    returned.push_punct('>');
    out.push_parens(returned);
    let mut body = TokenStream::new();
    body.push_ident("let");
    body.push_ident("this_ptr");
    body.push_punct('=');
    body.push_punct('&');
    body.push_ident("self");
    body.push_ident("as");
    body.push_punct('*');
    body.push_ident("const");
    body.push_ident("_");
    body.push_punct(';');
    body.push_ident("let");
    body.push_ident("this");
    body.push_punct(':');
    body.push_ident(info.internal_ident.as_str());
    body.push_punct('<');
    body.append(TokenStream::separated(&generic_args, ','));
    body.push_punct('>');
    body.push_punct('=');
    body.push_ident("unsafe");
    let mut copy = TokenStream::new();
    copy.push_core("mem", "transmute_copy");
    let mut pointer = TokenStream::new();
    pointer.push_punct('&');
    pointer.push_punct('*');
    pointer.push_ident("this_ptr");
    copy.push_parens(pointer);
    body.push_braces(copy);
    body.push_punct(';');
    body.push_core("mem", "forget");
    let mut forgotten = TokenStream::new();
    forgotten.push_ident("self");
    body.push_parens(forgotten);
    body.push_punct(';');
    body.push_ident("let");
    body.push_ident("user_return");
    body.push_punct('=');
    body.push_ident("user");
    let mut call = TokenStream::new();
    call.push_ident("OwnedTailFields");
    let mut tails = TokenStream::new();
    tails.append(TokenStream::separated(field_assignments, ','));
    call.push_braces(tails);
    body.push_parens(call);
    body.push_punct(';');
    body.push_ident("let");
    body.push_ident("heads");
    body.push_punct('=');
    let mut block = TokenStream::new();
    block.append(code);
    block.push_ident("Heads");
    let mut heads = TokenStream::new();
    heads.append(TokenStream::separated(field_initializers, ','));
    block.push_braces(heads);
    body.push_braces(block);
    body.push_punct(';');
    let mut pair = TokenStream::new();
    pair.push_ident("user_return");
    pair.push_punct(',');
    pair.push_ident("heads");
    body.push_parens(pair);
    out.push_braces(body);
    out
}

/// Returns the aggregate of the owned tail fields and the function that
/// hands it to a callback and returns the heads.
pub fn destruct_into_heads(info: &StructInfo, options: Options) -> (r: Result<
    (TokenStream, TokenStream),
    Error,
>)
    ensures
        r is Ok,
        r->Ok_0.0@ == owned_tail_struct(*info, options),
        r->Ok_0.1@ == destruct_into_heads_fn(*info, options),
{
    let vis = make_extras_visibility(info, options);
    let n = info.fields.len();
    let mut code = TokenStream::new();
    let mut fields: Vec<TokenStream> = Vec::new();
    let mut field_assignments: Vec<TokenStream> = Vec::new();
    let mut field_initializers: Vec<TokenStream> = Vec::new();
    let ghost stored = storage_order(info.fields@);
    // The order does not matter here; it is the one of the stored fields.
    let mut i: usize = 0;
    while i < n
        invariant
            n == info.fields.len(),
            i <= n,
            stored == storage_order(info.fields@),
            code@ == heads_code(*info, i as int),
            field_initializers.deep_view() == head_values(stored, i as int),
            fields.deep_view() == owned_members(stored, vis@, i as int),
            field_assignments.deep_view() == owned_values(stored, i as int),
        decreases n - i,
    {
        let field = &info.fields[n - 1 - i];
        assert(stored[i as int] == *field);
        if !field.self_referencing {
            code.push_ident("let");
            code.push_ident(field.name.as_str());
            code.push_punct('=');
            code.push_ident("this");
            code.push_punct('.');
            code.push_ident(field.name.as_str());
            code.push_punct(';');
            push_stream(&mut field_initializers, make_head_value(field, true));
        } else if field.field_type.is_tail() {
            let vis = &vis;
            let mut member = TokenStream::new();
            member.append_copy(vis);
            member.push_ident(field.name.as_str());
            member.push_punct(':');
            member.append_copy(&field.typ.tokens);
            push_stream(&mut fields, member);
            let mut value = TokenStream::new();
            value.push_ident(field.name.as_str());
            value.push_punct(':');
            value.push_ident("this");
            value.push_punct('.');
            value.push_ident(field.name.as_str());
            push_stream(&mut field_assignments, value);
        }
        i += 1;
    }
    push_marker_fields(info, &mut fields);
    push_marker_values(info, &mut field_assignments);
    push_marker_values(info, &mut field_initializers);
    let struct_defs = make_owned_tail_struct(info, options, &vis, &fields);
    let fn_defs = make_destruct_fn(
        info,
        options,
        &vis,
        &field_assignments,
        &field_initializers,
        code,
    );
    Ok((struct_defs, fn_defs))
}

} // verus!
