//! The struct that the user sees and the struct that stores the fields.

use vstd::prelude::*;
use vstd::string::*;
use crate::diagnostics::Error;
use crate::generate::common::{generics_tokens, make_generics};
use crate::info_structures::{StructFieldInfo, StructInfo};
use crate::syntax::{generic_params_tokens, visibility_tokens, where_tokens};
use crate::tokens::{Emit, TokenStream, TokenTree, separated, tokens};
use crate::utils::{
    generic_arguments, replace_this, replace_this_with_lifetime, submodule_contents_visiblity,
    submodule_visibility,
};

verus! {

/// The struct that the user sees: one field that holds the stored fields in a
/// container of the same layout, which never destroys them by itself.
///
/// ```text
/// #[repr(transparent)]
/// #visibility struct #ident <#generic_params> #generic_where {
///     actual_data: ::core::mem::MaybeUninit<#internal_ident<#generic_args>>,
/// }
/// ```
#[verifier::opaque]
pub open spec fn actual_struct_def(info: StructInfo) -> Seq<TokenTree> {
    tokens().punct('#').brackets(tokens().ident("repr"@).parens(tokens().ident("transparent"@)))
        .splice(visibility_tokens(submodule_visibility(info.vis@))).ident("struct"@)
        .ident(info.ident@).punct('<').splice(generic_params_tokens(info.generics)).punct('>')
        .splice(where_tokens(info.generics))
        .braces(tokens().ident("actual_data"@).punct(':').core_path("mem"@, "MaybeUninit"@).punct('<')
            .ident(info.internal_ident@).punct('<')
            .splice(separated(generic_arguments(info.generics), ',')).joint('>').punct('>').punct(','))
}

/// Creates the struct that will actually store the data.
pub fn create_actual_struct_def(info: &StructInfo) -> (r: Result<TokenStream, Error>)
    ensures
        r is Ok,
        r->Ok_0@ == actual_struct_def(*info),
{
    reveal(actual_struct_def);
    let visibility = submodule_contents_visiblity(&info.vis);
    let generic_args = info.generic_arguments();
    let mut out = TokenStream::new();
    out.push_punct('#');
    let mut attr = TokenStream::new();
    attr.push_ident("repr");
    let mut body = TokenStream::new();
    body.push_ident("transparent");
    attr.push_parens(body);
    out.push_brackets(attr);
    out.append(visibility.to_tokens());
    out.push_ident("struct");
    out.push_ident(info.ident.as_str());
    out.push_punct('<');
    out.append(info.generics.params_tokens());
    out.push_punct('>');
    out.append(info.generics.where_tokens());
    let mut body = TokenStream::new();
    body.push_ident("actual_data");
    body.push_punct(':');
    body.push_core("mem", "MaybeUninit");
    body.push_punct('<');
    body.push_ident(info.internal_ident.as_str());
    body.push_punct('<');
    body.append(TokenStream::separated(&generic_args, ','));
    body.push_joint('>');
    body.push_punct('>');
    body.push_punct(',');
    out.push_braces(body);
    Ok(out)
}

/// The order in which the fields are stored: the reverse of the order in
/// which they are declared, so that a field is dropped before the fields it
/// borrows from.
pub open spec fn storage_order<T>(declared: Seq<T>) -> Seq<T> {
    Seq::new(declared.len(), |i: int| declared[declared.len() - 1 - i])
}

/// The stored fields stand in the exact reverse of the declaration order, and
/// reversing that order once more gives the declaration order back.
pub proof fn lemma_storage_order_reverses<T>(declared: Seq<T>)
    ensures
        storage_order(declared).len() == declared.len(),
        forall|i: int|
            0 <= i < declared.len() ==> #[trigger] storage_order(declared)[i] == declared[declared.len()
                - 1 - i],
        storage_order(storage_order(declared)) == declared,
{
    assert(storage_order(storage_order(declared)) =~= declared);
}

/// Where a field borrows from another one, it is stored before that one, and
/// so dropped first.
pub proof fn lemma_borrowers_stored_first(info: StructInfo, i: int, k: int)
    requires
        info.wf(),
        0 <= i < info.fields.len(),
        0 <= k < info.fields[i].borrows.len(),
    ensures
        ({
            let n = info.fields.len() as int;
            let target = info.fields[i].borrows[k].index as int;
            &&& 0 <= target < i
            &&& storage_order(info.fields@)[n - 1 - i] == info.fields[i]
            &&& storage_order(info.fields@)[n - 1 - target] == info.fields[target]
            &&& n - 1 - i < n - 1 - target
        }),
{
}

/// `#[doc(hidden)] name: Stored`, one field of the storing struct.
///
/// ```text
/// #[doc(hidden)]
/// #name: #ty
/// ```
pub open spec fn stored_field_def(field: StructFieldInfo) -> Seq<TokenTree> {
    tokens().punct('#').brackets(tokens().ident("doc"@).parens(tokens().ident("hidden"@)))
        .ident(field.name@).punct(':').splice(field.stored_type_tokens())
}

/// The fields of the storing struct, in storage order.
pub open spec fn stored_field_defs(info: StructInfo) -> Seq<Seq<TokenTree>> {
    Seq::new(
        info.fields.len() as nat,
        |i: int| stored_field_def(storage_order(info.fields@)[i]),
    )
}

/// The struct that stores the fields, in storage order and each with its
/// stored type, before `'this` is replaced.
///
/// ```text
/// struct #ident #generics #where_clause {
///     #field_defs
/// }
/// ```
pub open spec fn internal_struct_template(info: StructInfo) -> Seq<TokenTree> {
    tokens().ident("struct"@).ident(info.internal_ident@).splice(generics_tokens(info.generics))
        .splice(where_tokens(info.generics))
        .braces(tokens().splice(separated(stored_field_defs(info), ',')))
}

/// The struct that stores the fields, with the internal lifetime in place of
/// `'this`.
#[verifier::opaque]
pub open spec fn internal_struct_def(info: StructInfo) -> Seq<TokenTree> {
    replace_this(internal_struct_template(info), info.first_lifetime@)
}

/// Creates a struct with fields like the original struct. Instances of the
/// struct that the user sees are read as instances of this one whenever the
/// data is accessed.
pub fn create_internal_struct_def(info: &StructInfo) -> (r: Result<TokenStream, Error>)
    ensures
        r is Ok,
        r->Ok_0@ == internal_struct_def(*info),
{
    reveal(internal_struct_def);
    let n = info.fields.len();
    let mut field_defs: Vec<TokenStream> = Vec::new();
    // Fields are stored in reverse: a field depends only on fields declared
    // above it, and the fields of a struct are dropped from the first to the
    // last.
    let mut i: usize = 0;
    while i < n
        invariant
            n == info.fields.len(),
            i <= n,
            field_defs.len() == i,
            forall|j: int|
                0 <= j < i ==> (#[trigger] field_defs[j])@ == stored_field_def(
                    info.fields[n - 1 - j],
                ),
        decreases n - i,
    {
        let field = &info.fields[n - 1 - i];
        let mut def = TokenStream::new();
        def.push_punct('#');
        let mut attr = TokenStream::new();
        attr.push_ident("doc");
        let mut hidden = TokenStream::new();
        hidden.push_ident("hidden");
        attr.push_parens(hidden);
        def.push_brackets(attr);
        def.push_ident(field.name.as_str());
        def.push_punct(':');
        def.append(field.stored_type());
        field_defs.push(def);
        i += 1;
    }
    assert(field_defs.deep_view() =~= stored_field_defs(*info));
    let mut def = TokenStream::new();
    def.push_ident("struct");
    def.push_ident(info.internal_ident.as_str());
    def.append(make_generics(&info.generics));
    def.append(info.generics.where_tokens());
    let mut body = TokenStream::new();
    body.append(TokenStream::separated(&field_defs, ','));
    def.push_braces(body);
    // Finally, the lifetime that was found takes the place of 'this.
    let fake_lifetime = info.fake_lifetime();
    let def = replace_this_with_lifetime(&def, fake_lifetime.as_str());
    Ok(def)
}

} // verus!
