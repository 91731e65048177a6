//! The accessors of the single fields.

use vstd::prelude::*;
use vstd::string::*;
use crate::diagnostics::{Error, ErrorKind};
use crate::generate::common::{documentation, make_documentation};
use crate::info_structures::{FieldType, Options, StructFieldInfo, StructInfo};
use crate::syntax::visibility_tokens;
use crate::tokens::{Emit, TokenStream, TokenTree, push_stream, tokens};

verus! {

/// What can go wrong while the accessors are generated.
#[derive(Debug)]
pub enum ProcessingError {
    /// The declaration is malformed.
    Syntax(Error),
    /// The covariance of some fields is neither known nor stated.
    Covariance(Vec<Error>),
}

/// A kind of accessor of a single field.
#[derive(Clone, Copy, Debug, PartialEq, Eq, Structural)]
pub enum Accessor {
    /// `with_name`: hands a reference to the field to a callback.
    With,
    /// `borrow_name`: returns a reference to the field.
    Borrow,
    /// `with_name_mut`: hands a mutable reference to the field to a callback.
    WithMut,
}

/// Whether the field gets an accessor that returns a reference to it: only a
/// field that no other field borrows mutably, and whose type is known or
/// stated to be covariant.
pub open spec fn has_direct_borrow(field: StructFieldInfo) -> bool {
    field.field_type != FieldType::BorrowedMut && field.covariant == Some(true)
}

/// The accessors that a field gets, in the order in which they are generated.
/// A mutably borrowed field gets none; every other field gets the scoped
/// accessor, and the direct one where its covariance allows it; a tail field
/// also gets the mutable scoped accessor.
pub open spec fn accessors(field: StructFieldInfo) -> Seq<Accessor> {
    match field.field_type {
        FieldType::Tail => if has_direct_borrow(field) {
            seq![Accessor::With, Accessor::Borrow, Accessor::WithMut]
        } else {
            seq![Accessor::With, Accessor::WithMut]
        },
        FieldType::Borrowed => if has_direct_borrow(field) {
            seq![Accessor::With, Accessor::Borrow]
        } else {
            seq![Accessor::With]
        },
        FieldType::BorrowedMut => Seq::empty(),
    }
}

/// A field gets the accessor that returns a reference exactly if its type is
/// covariant and no field borrows it mutably, the mutable scoped accessor
/// exactly if it is a tail field, and the scoped accessor exactly if no field
/// borrows it mutably.
pub proof fn lemma_covariance_gates_direct_borrow(field: StructFieldInfo)
    ensures
        accessors(field).contains(Accessor::Borrow) <==> field.field_type
            != FieldType::BorrowedMut && field.covariant == Some(true),
        accessors(field).contains(Accessor::WithMut) <==> field.field_type == FieldType::Tail,
        accessors(field).contains(Accessor::With) <==> field.field_type != FieldType::BorrowedMut,
{
    let list = accessors(field);
    if list.len() > 0 {
        assert(list[0] == Accessor::With);
    }
    if list.len() == 3 {
        assert(list[1] == Accessor::Borrow);
        assert(list[2] == Accessor::WithMut);
    }
    if list.len() == 2 {
        if field.field_type == FieldType::Tail {
            assert(list[1] == Accessor::WithMut);
        } else {
            assert(list[1] == Accessor::Borrow);
        }
    }
}

/// Whether the field stops the generation because its covariance is neither
/// known nor stated.
pub open spec fn lacks_covariance(field: StructFieldInfo) -> bool {
    field.field_type != FieldType::BorrowedMut && field.covariant is None
}

/// The text that documents a scoped accessor.
pub const WITH_DOC: &'static str = "\"Provides an immutable reference to this field.\"";

/// The text that documents a direct accessor.
pub const BORROW_DOC: &'static str = "\"Returns an immutable reference to this field.\"";

/// The text that documents a mutable scoped accessor.
pub const WITH_MUT_DOC: &'static str =
    "\"Provides a mutable reference to this tail field. No borrow function that returns a mutable reference is generated because it could not be used safely.\"";

/// The scoped accessor: it hands a reference to the field, bound to the
/// borrow of the struct, to a callback that must accept it for every
/// `'this`, and returns what the callback returns.
///
/// ```text
/// #documentation
/// #[inline(always)]
/// #visibility fn #user_name <'outer_borrow, ReturnType>(
///     &'outer_borrow self,
///     user: impl for<'this> ::core::ops::FnOnce(&'outer_borrow #field_type) -> ReturnType,
/// ) -> ReturnType {
///     let field = &unsafe { self.actual_data.assume_init_ref() }.#field_name;
///     user(field)
/// }
/// ```
pub open spec fn with_accessor(field: StructFieldInfo, options: Options) -> Seq<TokenTree> {
    tokens().splice(documentation(options, WITH_DOC@)).punct('#')
        .brackets(tokens().ident("inline"@).parens(tokens().ident("always"@)))
        .splice(visibility_tokens(field.vis@)).ident("fn"@).ident("with_"@ + field.name@).punct('<')
        .lifetime("outer_borrow"@).punct(',').ident("ReturnType"@).punct('>')
        .parens(tokens().punct('&').lifetime("outer_borrow"@).ident("self"@).punct(',').ident("user"@)
            .punct(':').ident("impl"@).ident("for"@).punct('<').lifetime("this"@).punct('>')
            .core_path("ops"@, "FnOnce"@)
            .parens(tokens().punct('&').lifetime("outer_borrow"@).splice(field.typ.tokens@)).arrow()
            .ident("ReturnType"@).punct(',')).arrow().ident("ReturnType"@)
        .braces(tokens().ident("let"@).ident("field"@).punct('=').punct('&').ident("unsafe"@)
            .braces(tokens().ident("self"@).punct('.').ident("actual_data"@).punct('.')
                .ident("assume_init_ref"@).parens(tokens())).punct('.').ident(field.name@).punct(';')
            .ident("user"@).parens(tokens().ident("field"@)))
}

/// The direct accessor: it returns a reference to the field that lives as
/// long as the borrow of the struct.
///
/// ```text
/// #documentation
/// #[inline(always)]
/// #visibility fn #borrower_name<'this>(
///     &'this self,
/// ) -> &'this #field_type {
///     &unsafe { self.actual_data.assume_init_ref() }.#field_name
/// }
/// ```
pub open spec fn borrow_accessor(field: StructFieldInfo, options: Options) -> Seq<TokenTree> {
    tokens().splice(documentation(options, BORROW_DOC@)).punct('#')
        .brackets(tokens().ident("inline"@).parens(tokens().ident("always"@)))
        .splice(visibility_tokens(field.vis@)).ident("fn"@).ident("borrow_"@ + field.name@)
        .punct('<').lifetime("this"@).punct('>')
        .parens(tokens().punct('&').lifetime("this"@).ident("self"@).punct(',')).arrow().punct('&')
        .lifetime("this"@).splice(field.typ.tokens@)
        .braces(tokens().punct('&').ident("unsafe"@)
            .braces(tokens().ident("self"@).punct('.').ident("actual_data"@).punct('.')
                .ident("assume_init_ref"@).parens(tokens())).punct('.').ident(field.name@))
}

/// The mutable scoped accessor: it hands a mutable reference to the field to
/// a callback that must accept it for every `'this`.
///
/// ```text
/// #documentation
/// #[inline(always)]
/// #visibility fn #user_name <'outer_borrow, ReturnType>(
///     &'outer_borrow mut self,
///     user: impl for<'this> ::core::ops::FnOnce(&'outer_borrow mut #field_type) -> ReturnType,
/// ) -> ReturnType {
///     let field = &mut unsafe { self.actual_data.assume_init_mut() }.#field_name;
///     user(field)
/// }
/// ```
pub open spec fn with_mut_accessor(field: StructFieldInfo, options: Options) -> Seq<TokenTree> {
    tokens().splice(documentation(options, WITH_MUT_DOC@)).punct('#')
        .brackets(tokens().ident("inline"@).parens(tokens().ident("always"@)))
        .splice(visibility_tokens(field.vis@)).ident("fn"@).ident("with_"@ + field.name@ + "_mut"@)
        .punct('<').lifetime("outer_borrow"@).punct(',').ident("ReturnType"@).punct('>')
        .parens(tokens().punct('&').lifetime("outer_borrow"@).ident("mut"@).ident("self"@).punct(',')
            .ident("user"@).punct(':').ident("impl"@).ident("for"@).punct('<').lifetime("this"@)
            .punct('>').core_path("ops"@, "FnOnce"@)
            .parens(tokens().punct('&').lifetime("outer_borrow"@).ident("mut"@).splice(field.typ.tokens@))
            .arrow().ident("ReturnType"@).punct(',')).arrow().ident("ReturnType"@)
        .braces(tokens().ident("let"@).ident("field"@).punct('=').punct('&').ident("mut"@).ident("unsafe"@)
            .braces(tokens().ident("self"@).punct('.').ident("actual_data"@).punct('.')
                .ident("assume_init_mut"@).parens(tokens())).punct('.').ident(field.name@).punct(';')
            .ident("user"@).parens(tokens().ident("field"@)))
}

/// The definition of one accessor of a field.
pub open spec fn accessor_def(field: StructFieldInfo, options: Options, accessor: Accessor) -> Seq<
    TokenTree,
> {
    match accessor {
        Accessor::With => with_accessor(field, options),
        Accessor::Borrow => borrow_accessor(field, options),
        Accessor::WithMut => with_mut_accessor(field, options),
    }
}

/// The definitions of the accessors of a field.
pub open spec fn field_users(field: StructFieldInfo, options: Options) -> Seq<Seq<TokenTree>> {
    Seq::new(
        accessors(field).len(),
        |k: int| accessor_def(field, options, accessors(field)[k]),
    )
}

/// The definitions of the accessors of the first `n` fields.
pub open spec fn accessor_defs(info: StructInfo, options: Options, n: int) -> Seq<Seq<TokenTree>>
    decreases n,
{
    if n <= 0 {
        Seq::empty()
    } else {
        accessor_defs(info, options, n - 1) + field_users(info.fields[n - 1], options)
    }
}

/// The errors for the fields among the first `n` whose covariance is neither
/// known nor stated, each placed at its field.
pub open spec fn covariance_errors(info: StructInfo, n: int) -> Seq<Error>
    decreases n,
{
    if n <= 0 {
        Seq::empty()
    } else if lacks_covariance(info.fields[n - 1]) {
        covariance_errors(info, n - 1).push(
            Error {
                kind: ErrorKind::UnknownCovariance,
                field: Some((n - 1) as usize),
                attr: None,
                token: None,
            },
        )
    } else {
        covariance_errors(info, n - 1)
    }
}

/// Lists the accessors that a field gets.
pub fn field_accessors(field: &StructFieldInfo) -> (list: Vec<Accessor>)
    ensures
        list@ == accessors(*field),
{
    let mut list: Vec<Accessor> = Vec::new();
    let covariant = match field.covariant {
        Some(true) => true,
        _ => false,
    };
    match field.field_type {
        FieldType::Tail => {
            list.push(Accessor::With);
            if covariant {
                list.push(Accessor::Borrow);
            }
            // A field that nothing borrows may be borrowed mutably.
            list.push(Accessor::WithMut);
        },
        FieldType::Borrowed => {
            // The reference handed out is of the kind that the other fields
            // of the struct hold.
            list.push(Accessor::With);
            if covariant {
                list.push(Accessor::Borrow);
            }
        },
        FieldType::BorrowedMut => {
            // A field that is borrowed mutably once gives out no other
            // reference.
        },
    }
    assert(list@ =~= accessors(*field));
    list
}

/// Makes the definition of one accessor of a field.
pub fn make_accessor(field: &StructFieldInfo, options: Options, accessor: Accessor) -> (out:
    TokenStream)
    ensures
        out@ == accessor_def(*field, options, accessor),
{
    match accessor {
        Accessor::With => {
            let user_name = String::from_str("with_").concat(field.name.as_str());
            let mut out = TokenStream::new();
            out.append(make_documentation(options, WITH_DOC));
            out.push_punct('#');
            let mut inline = TokenStream::new();
            inline.push_ident("inline");
            let mut always = TokenStream::new();
            always.push_ident("always");
            inline.push_parens(always);
            out.push_brackets(inline);
            out.append(field.vis.to_tokens());
            out.push_ident("fn");
            out.push_ident(user_name.as_str());
            out.push_punct('<');
            out.push_lifetime("outer_borrow");
            out.push_punct(',');
            out.push_ident("ReturnType");
            out.push_punct('>');
            let mut signature = TokenStream::new();
            signature.push_punct('&');
            signature.push_lifetime("outer_borrow");
            signature.push_ident("self");
            signature.push_punct(',');
            signature.push_ident("user");
            signature.push_punct(':');
            signature.push_ident("impl");
            signature.push_ident("for");
            signature.push_punct('<');
            signature.push_lifetime("this");
            signature.push_punct('>');
            signature.push_core("ops", "FnOnce");
            let mut callback = TokenStream::new();
            callback.push_punct('&');
            callback.push_lifetime("outer_borrow");
            callback.append_copy(&field.typ.tokens);
            signature.push_parens(callback);
            signature.push_arrow();
            signature.push_ident("ReturnType");
            signature.push_punct(',');
            out.push_parens(signature);
            out.push_arrow();
            out.push_ident("ReturnType");
            let mut body = TokenStream::new();
            body.push_ident("let");
            body.push_ident("field");
            body.push_punct('=');
            body.push_punct('&');
            body.push_ident("unsafe");
            let mut read = TokenStream::new();
            read.push_ident("self");
            read.push_punct('.');
            read.push_ident("actual_data");
            read.push_punct('.');
            read.push_ident("assume_init_ref");
            read.push_parens(TokenStream::new());
            body.push_braces(read);
            body.push_punct('.');
            body.push_ident(field.name.as_str());
            body.push_punct(';');
            body.push_ident("user");
            let mut init = TokenStream::new();
            init.push_ident("field");
            body.push_parens(init);
            out.push_braces(body);
            out
        },
        Accessor::Borrow => {
            let borrower_name = String::from_str("borrow_").concat(field.name.as_str());
            let mut out = TokenStream::new();
            out.append(make_documentation(options, BORROW_DOC));
            out.push_punct('#');
            let mut inline = TokenStream::new();
            inline.push_ident("inline");
            let mut always = TokenStream::new();
            always.push_ident("always");
            inline.push_parens(always);
            out.push_brackets(inline);
            out.append(field.vis.to_tokens());
            out.push_ident("fn");
            out.push_ident(borrower_name.as_str());
            out.push_punct('<');
            out.push_lifetime("this");
            out.push_punct('>');
            let mut signature = TokenStream::new();
            signature.push_punct('&');
            signature.push_lifetime("this");
            signature.push_ident("self");
            signature.push_punct(',');
            out.push_parens(signature);
            out.push_arrow();
            out.push_punct('&');
            out.push_lifetime("this");
            out.append_copy(&field.typ.tokens);
            let mut body = TokenStream::new();
            body.push_punct('&');
            body.push_ident("unsafe");
            let mut read = TokenStream::new();
            read.push_ident("self");
            read.push_punct('.');
            read.push_ident("actual_data");
            read.push_punct('.');
            read.push_ident("assume_init_ref");
            read.push_parens(TokenStream::new());
            body.push_braces(read);
            body.push_punct('.');
            body.push_ident(field.name.as_str());
            out.push_braces(body);
            out
        },
        Accessor::WithMut => {
            let user_name = String::from_str("with_").concat(field.name.as_str()).concat("_mut");
            let mut out = TokenStream::new();
            out.append(make_documentation(options, WITH_MUT_DOC));
            out.push_punct('#');
            let mut inline = TokenStream::new();
            inline.push_ident("inline");
            let mut always = TokenStream::new();
            always.push_ident("always");
            inline.push_parens(always);
            out.push_brackets(inline);
            out.append(field.vis.to_tokens());
            out.push_ident("fn");
            out.push_ident(user_name.as_str());
            out.push_punct('<');
            out.push_lifetime("outer_borrow");
            out.push_punct(',');
            out.push_ident("ReturnType");
            out.push_punct('>');
            let mut signature = TokenStream::new();
            signature.push_punct('&');
            signature.push_lifetime("outer_borrow");
            signature.push_ident("mut");
            signature.push_ident("self");
            signature.push_punct(',');
            signature.push_ident("user");
            signature.push_punct(':');
            signature.push_ident("impl");
            signature.push_ident("for");
            signature.push_punct('<');
            signature.push_lifetime("this");
            signature.push_punct('>');
            signature.push_core("ops", "FnOnce");
            let mut callback = TokenStream::new();
            callback.push_punct('&');
            callback.push_lifetime("outer_borrow");
            callback.push_ident("mut");
            callback.append_copy(&field.typ.tokens);
            signature.push_parens(callback);
            signature.push_arrow();
            signature.push_ident("ReturnType");
            signature.push_punct(',');
            out.push_parens(signature);
            out.push_arrow();
            out.push_ident("ReturnType");
            let mut body = TokenStream::new();
            body.push_ident("let");
            body.push_ident("field");
            body.push_punct('=');
            body.push_punct('&');
            body.push_ident("mut");
            body.push_ident("unsafe");
            let mut read = TokenStream::new();
            read.push_ident("self");
            read.push_punct('.');
            read.push_ident("actual_data");
            read.push_punct('.');
            read.push_ident("assume_init_mut");
            read.push_parens(TokenStream::new());
            body.push_braces(read);
            body.push_punct('.');
            body.push_ident(field.name.as_str());
            body.push_punct(';');
            body.push_ident("user");
            let mut init = TokenStream::new();
            init.push_ident("field");
            body.push_parens(init);
            out.push_braces(body);
            out
        },
    }
}

/// Creates the accessors of the single fields, and the errors for the fields
/// whose covariance has to be stated.
pub fn make_with_functions(info: &StructInfo, options: Options) -> (r: (
    Vec<TokenStream>,
    Vec<Error>,
))
    ensures
        r.0.deep_view() == accessor_defs(*info, options, info.fields.len() as int),
        r.1@ == covariance_errors(*info, info.fields.len() as int),
{
    let mut users: Vec<TokenStream> = Vec::new();
    let mut errors: Vec<Error> = Vec::new();
    let mut i: usize = 0;
    while i < info.fields.len()
        invariant
            i <= info.fields.len(),
            users.deep_view() == accessor_defs(*info, options, i as int),
            errors@ == covariance_errors(*info, i as int),
        decreases info.fields.len() - i,
    {
        let field = &info.fields[i];
        let list = field_accessors(field);
        let ghost before = users.deep_view();
        let mut k: usize = 0;
        while k < list.len()
            invariant
                k <= list.len(),
                list@ == accessors(*field),
                users.deep_view() == before + field_users(*field, options).take(k as int),
            decreases list.len() - k,
        {
            push_stream(&mut users, make_accessor(field, options, list[k]));
            k += 1;
            assert(users.deep_view() =~= before + field_users(*field, options).take(k as int));
        }
        assert(field_users(*field, options).take(k as int) =~= field_users(*field, options));
        let unknown = match field.covariant {
            None => true,
            Some(_) => false,
        };
        if unknown && !field.is_mutably_borrowed() {
            let mut error = field.covariance_error();
            error.field = Some(i);
            errors.push(error);
        }
        i += 1;
    }
    (users, errors)
}

} // verus!
