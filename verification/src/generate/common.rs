//! Pieces that several of the generated items share.

use vstd::prelude::*;
use vstd::string::*;
use crate::info_structures::{Options, StructInfo};
use crate::syntax::{
    GenericParam, Generics, Visibility, VisibilityView, generic_params_tokens, pub_super,
    visibility_tokens,
};
use crate::tokens::{Emit, TokenStream, TokenTree, push_stream, separated, tokens};
use crate::utils::{consumer_name, consumer_type};

verus! {

/// The visibility of the builders and the aggregates: that of the struct
/// where the extras are public, `pub(super)` otherwise.
pub open spec fn extras_visibility(vis: VisibilityView, options: Options) -> VisibilityView {
    if options.do_pub_extras {
        vis
    } else {
        pub_super()
    }
}

/// The tokens of the visibility of the builders and the aggregates.
pub fn make_extras_visibility(info: &StructInfo, options: Options) -> (out: TokenStream)
    ensures
        out@ == visibility_tokens(extras_visibility(info.vis@, options)),
{
    if options.do_pub_extras {
        info.vis.to_tokens()
    } else {
        Visibility::pub_super().to_tokens()
    }
}

/// The attribute that documents a generated item with `text`, a string
/// literal, or hides the item from the documentation.
pub open spec fn documentation(options: Options, text: Seq<char>) -> Seq<TokenTree> {
    if options.do_no_doc {
        tokens().punct('#').brackets(tokens().ident("doc"@).parens(tokens().ident("hidden"@)))
    } else {
        tokens().punct('#').brackets(tokens().ident("doc"@).punct('=').literal(text))
    }
}

/// Makes the attribute that documents a generated item or hides it.
pub fn make_documentation(options: Options, text: &str) -> (out: TokenStream)
    ensures
        out@ == documentation(options, text@),
{
    if options.do_no_doc {
        let mut out = TokenStream::new();
        out.push_punct('#');
        let mut attr = TokenStream::new();
        attr.push_ident("doc");
        let mut args = TokenStream::new();
        args.push_ident("hidden");
        attr.push_parens(args);
        out.push_brackets(attr);
        out
    } else {
        let mut out = TokenStream::new();
        out.push_punct('#');
        let mut attr = TokenStream::new();
        attr.push_ident("doc");
        attr.push_punct('=');
        attr.push_literal(text);
        out.push_brackets(attr);
        out
    }
}

/// `async fn` for the constructors that await their builders, `fn` for the
/// others.
pub open spec fn fn_keyword(is_async: bool) -> Seq<TokenTree> {
    if is_async {
        tokens().ident("async"@).ident("fn"@)
    } else {
        tokens().ident("fn"@)
    }
}

/// Makes the keywords that a function of one flavour starts with.
pub fn make_fn_keyword(is_async: bool) -> (out: TokenStream)
    ensures
        out@ == fn_keyword(is_async),
{
    if is_async {
        let mut out = TokenStream::new();
        out.push_ident("async");
        out.push_ident("fn");
        out
    } else {
        let mut out = TokenStream::new();
        out.push_ident("fn");
        out
    }
}

/// `.await` after a call that yields a future, nothing after another.
pub open spec fn await_suffix(is_async: bool) -> Seq<TokenTree> {
    if is_async {
        tokens().punct('.').ident("await"@)
    } else {
        tokens()
    }
}

/// Makes what follows a call in a function of one flavour.
pub fn make_await_suffix(is_async: bool) -> (out: TokenStream)
    ensures
        out@ == await_suffix(is_async),
{
    if is_async {
        let mut out = TokenStream::new();
        out.push_punct('.');
        out.push_ident("await");
        out
    } else {
        TokenStream::new()
    }
}

/// `name: ::core::marker::PhantomData<T>`, the marker field for one generic
/// parameter.
///
/// ```text
/// #ident: ::core::marker::PhantomData<#ty>
/// ```
pub open spec fn marker_field(param: GenericParam) -> Seq<TokenTree> {
    tokens().ident(consumer_name(param)).punct(':').core_path("marker"@, "PhantomData"@)
        .punct('<').splice(consumer_type(param)).punct('>')
}

/// `name: ::core::marker::PhantomData`, the value of the marker field for one
/// generic parameter.
///
/// ```text
/// #ident: ::core::marker::PhantomData
/// ```
pub open spec fn marker_value(param: GenericParam) -> Seq<TokenTree> {
    tokens().ident(consumer_name(param)).punct(':').core_path("marker"@, "PhantomData"@)
}

/// The marker fields for the generic parameters, in order.
pub open spec fn marker_fields(generics: Generics) -> Seq<Seq<TokenTree>> {
    Seq::new(generics.params.len() as nat, |j: int| marker_field(generics.params[j]))
}

/// The values of the marker fields for the generic parameters, in order.
pub open spec fn marker_values(generics: Generics) -> Seq<Seq<TokenTree>> {
    Seq::new(generics.params.len() as nat, |j: int| marker_value(generics.params[j]))
}

/// Adds the marker fields for the generic parameters to `list`.
pub fn push_marker_fields(info: &StructInfo, list: &mut Vec<TokenStream>)
    ensures
        final(list).deep_view() == old(list).deep_view() + marker_fields(info.generics),
{
    let consumers = info.generic_consumers();
    let ghost start = list.deep_view();
    let mut j: usize = 0;
    while j < consumers.len()
        invariant
            j <= consumers.len(),
            consumers.len() == info.generics.params.len(),
            forall|k: int|
                0 <= k < consumers.len() ==> {
                    &&& (#[trigger] consumers[k]).0@ == consumer_type(info.generics.params[k])
                    &&& consumers[k].1@ == consumer_name(info.generics.params[k])
                },
            list.deep_view() == start + marker_fields(info.generics).take(j as int),
        decreases consumers.len() - j,
    {
        let ghost param = info.generics.params[j as int];
        let mut out = TokenStream::new();
        out.push_ident(consumers[j].1.as_str());
        out.push_punct(':');
        out.push_core("marker", "PhantomData");
        out.push_punct('<');
        out.append_copy(&consumers[j].0);
        out.push_punct('>');
        push_stream(list, out);
        j += 1;
        assert(list.deep_view() =~= start + marker_fields(info.generics).take(j as int));
    }
    assert(marker_fields(info.generics).take(j as int) =~= marker_fields(info.generics));
}

/// Adds the values of the marker fields for the generic parameters to `list`.
pub fn push_marker_values(info: &StructInfo, list: &mut Vec<TokenStream>)
    ensures
        final(list).deep_view() == old(list).deep_view() + marker_values(info.generics),
{
    let consumers = info.generic_consumers();
    let ghost start = list.deep_view();
    let mut j: usize = 0;
    while j < consumers.len()
        invariant
            j <= consumers.len(),
            consumers.len() == info.generics.params.len(),
            forall|k: int|
                0 <= k < consumers.len() ==> {
                    &&& (#[trigger] consumers[k]).0@ == consumer_type(info.generics.params[k])
                    &&& consumers[k].1@ == consumer_name(info.generics.params[k])
                },
            list.deep_view() == start + marker_values(info.generics).take(j as int),
        decreases consumers.len() - j,
    {
        let ghost param = info.generics.params[j as int];
        let mut out = TokenStream::new();
        out.push_ident(consumers[j].1.as_str());
        out.push_punct(':');
        out.push_core("marker", "PhantomData");
        push_stream(list, out);
        j += 1;
        assert(list.deep_view() =~= start + marker_values(info.generics).take(j as int));
    }
    assert(marker_values(info.generics).take(j as int) =~= marker_values(info.generics));
}

/// The predicates of the `where` clause, followed by `extra`.
pub open spec fn extended_predicates(generics: Generics, extra: Seq<Seq<TokenTree>>) -> Seq<
    Seq<TokenTree>,
> {
    match generics.where_clause {
        Some(predicates) => predicates.deep_view() + extra,
        None => extra,
    }
}

/// The `where` clause of the struct with the predicates `extra` added at its
/// end.
pub open spec fn extended_where(generics: Generics, extra: Seq<Seq<TokenTree>>) -> Seq<TokenTree> {
    tokens().ident("where"@).splice(separated(extended_predicates(generics, extra), ','))
}

/// Makes the `where` clause of the struct with more predicates at its end.
pub fn make_extended_where(generics: &Generics, extra: Vec<TokenStream>) -> (out: TokenStream)
    ensures
        out@ == extended_where(*generics, extra.deep_view()),
{
    let mut predicates: Vec<TokenStream> = Vec::new();
    match &generics.where_clause {
        Some(written) => {
            let mut i: usize = 0;
            while i < written.len()
                invariant
                    i <= written.len(),
                    predicates.deep_view() == written.deep_view().take(i as int),
                decreases written.len() - i,
            {
                push_stream(&mut predicates, written[i].clone());
                i += 1;
                assert(predicates.deep_view() =~= written.deep_view().take(i as int));
            }
            assert(written.deep_view().take(i as int) =~= written.deep_view());
        },
        None => {},
    }
    let ghost own = predicates.deep_view();
    let mut i: usize = 0;
    while i < extra.len()
        invariant
            i <= extra.len(),
            predicates.deep_view() == own + extra.deep_view().take(i as int),
        decreases extra.len() - i,
    {
        push_stream(&mut predicates, extra[i].clone());
        i += 1;
        assert(predicates.deep_view() =~= own + extra.deep_view().take(i as int));
    }
    assert(extra.deep_view().take(i as int) =~= extra.deep_view());
    assert(predicates.deep_view() =~= extended_predicates(*generics, extra.deep_view()));
    let mut out = TokenStream::new();
    out.push_ident("where");
    out.append(TokenStream::separated(&predicates, ','));
    out
}

/// `<A, B>` with the parameters as declared, or nothing where there is none.
pub open spec fn generics_tokens(generics: Generics) -> Seq<TokenTree> {
    if generics.params.len() == 0 {
        tokens()
    } else {
        tokens().punct('<').splice(generic_params_tokens(generics)).punct('>')
    }
}

/// The generic parameters between angle brackets, or nothing.
pub fn make_generics(generics: &Generics) -> (out: TokenStream)
    ensures
        out@ == generics_tokens(*generics),
{
    if generics.params.len() == 0 {
        TokenStream::new()
    } else {
        let mut out = TokenStream::new();
        out.push_punct('<');
        out.append(generics.params_tokens());
        out.push_punct('>');
        out
    }
}

} // verus!
