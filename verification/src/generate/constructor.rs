//! The constructors that cannot fail, and their builder structs.

use vstd::prelude::*;
use vstd::string::*;
use crate::diagnostics::Error;
use crate::generate::common::{
    documentation, extras_visibility, make_documentation, make_extras_visibility,
};
use crate::info_structures::{
    ArgType, BuilderType, FieldType, Options, StructFieldInfo, StructInfo,
};
use crate::syntax::{generic_params_list, visibility_tokens, where_tokens};
use crate::tokens::{Emit, TokenStream, TokenTree, push_stream, separated, tokens};
use crate::utils::{class_case, generic_arguments, replace_this, to_class_case};

verus! {

/// The type of a constructor argument that is passed directly: the type of
/// the field, with the internal lifetime in place of `'this`.
pub open spec fn plain_type(info: StructInfo, field: StructFieldInfo) -> Seq<TokenTree> {
    replace_this(field.typ.tokens@, info.first_lifetime@)
}

/// The bound on the builder of a field, for the infallible or the fallible
/// constructors of one flavour.
pub open spec fn arg_bound(
    info: StructInfo,
    field: StructFieldInfo,
    builder_type: BuilderType,
    fallible: bool,
) -> Seq<TokenTree> {
    if fallible {
        field.builder_bound(info, field.try_builder_return_type(builder_type))
    } else {
        field.builder_bound(info, field.builder_return_type(builder_type))
    }
}

/// `NameBuilder_`, the generic parameter of the builder struct that stands
/// for the type of the builder of a field.
pub open spec fn builder_type_ident(field: StructFieldInfo) -> Seq<char> {
    class_case(field.name@) + "Builder_"@
}

/// The constructor argument for a field: its value where it borrows nothing,
/// and else a function that builds it from what it borrows.
pub open spec fn constructor_param(
    info: StructInfo,
    field: StructFieldInfo,
    builder_type: BuilderType,
    fallible: bool,
) -> Seq<TokenTree> {
    if field.borrows.len() == 0 {
        tokens().ident(field.name@).punct(':').splice(plain_type(info, field))
    } else {
        tokens().ident(field.builder_ident()).punct(':').ident("impl"@)
            .splice(arg_bound(info, field, builder_type, fallible))
    }
}

/// The constructor arguments, one for each field, in declaration order.
pub open spec fn constructor_params(info: StructInfo, builder_type: BuilderType, fallible: bool) -> Seq<
    Seq<TokenTree>,
> {
    Seq::new(
        info.fields.len() as nat,
        |i: int| constructor_param(info, info.fields[i], builder_type, fallible),
    )
}

/// The member of the builder struct for a field: the field itself where it
/// borrows nothing, and else `name_builder` of the generic builder type.
pub open spec fn builder_member(info: StructInfo, field: StructFieldInfo) -> Seq<TokenTree> {
    if field.borrows.len() == 0 {
        tokens().ident(field.name@).punct(':').splice(plain_type(info, field))
    } else {
        tokens().ident(field.builder_ident()).punct(':').ident(builder_type_ident(field))
    }
}

/// The members of the builder struct, one for each field.
pub open spec fn builder_members(info: StructInfo) -> Seq<Seq<TokenTree>> {
    Seq::new(info.fields.len() as nat, |i: int| builder_member(info, info.fields[i]))
}

/// The name of the member of the builder struct for a field.
pub open spec fn builder_member_name(field: StructFieldInfo) -> Seq<TokenTree> {
    if field.borrows.len() == 0 {
        tokens().ident(field.name@)
    } else {
        tokens().ident(field.builder_ident())
    }
}

/// The names of the members of the builder struct, one for each field.
pub open spec fn builder_member_names(info: StructInfo) -> Seq<Seq<TokenTree>> {
    Seq::new(info.fields.len() as nat, |i: int| builder_member_name(info.fields[i]))
}

/// The generic parameters of the builder struct: those of the struct, and
/// then one for each of the first `n` fields that needs a builder, bounded by
/// what that builder must be.
pub open spec fn builder_producers(
    info: StructInfo,
    builder_type: BuilderType,
    fallible: bool,
    n: int,
) -> Seq<Seq<TokenTree>>
    decreases n,
{
    if n <= 0 {
        generic_params_list(info.generics)
    } else {
        let field = info.fields[n - 1];
        let before = builder_producers(info, builder_type, fallible, n - 1);
        if field.borrows.len() == 0 {
            before
        } else {
            before.push(
                tokens().ident(builder_type_ident(field)).punct(':')
                    .splice(arg_bound(info, field, builder_type, fallible)),
            )
        }
    }
}

/// The generic arguments of the builder struct: those of the struct, and
/// then one for each of the first `n` fields that needs a builder.
pub open spec fn builder_consumers(info: StructInfo, n: int) -> Seq<Seq<TokenTree>>
    decreases n,
{
    if n <= 0 {
        generic_arguments(info.generics)
    } else {
        let field = info.fields[n - 1];
        let before = builder_consumers(info, n - 1);
        if field.borrows.len() == 0 {
            before
        } else {
            before.push(tokens().ident(builder_type_ident(field)))
        }
    }
}

/// What the constructors and the builder struct of one flavour are put
/// together from.
pub struct BuilderParts {
    /// The arguments of the constructor.
    pub params: Vec<TokenStream>,
    /// The generic parameters of the builder struct, with their bounds.
    pub generic_producers: Vec<TokenStream>,
    /// The generic arguments of the builder struct.
    pub generic_consumers: Vec<TokenStream>,
    /// The members of the builder struct, with their types.
    pub fields: Vec<TokenStream>,
    /// The names of the members of the builder struct.
    pub field_names: Vec<TokenStream>,
}

impl BuilderParts {
    /// Whether the parts are those of `info` for the given flavour.
    pub open spec fn matches(
        self,
        info: StructInfo,
        builder_type: BuilderType,
        fallible: bool,
    ) -> bool {
        &&& self.params.deep_view() == constructor_params(info, builder_type, fallible)
        &&& self.generic_producers.deep_view() == builder_producers(
            info,
            builder_type,
            fallible,
            info.fields.len() as int,
        )
        &&& self.generic_consumers.deep_view() == builder_consumers(
            info,
            info.fields.len() as int,
        )
        &&& self.fields.deep_view() == builder_members(info)
        &&& self.field_names.deep_view() == builder_member_names(info)
    }
}

/// Collects, field by field, what the constructors and the builder struct of
/// one flavour are put together from.
pub fn collect_builder_parts(info: &StructInfo, builder_type: BuilderType, fallible: bool) -> (r:
    Result<BuilderParts, Error>)
    requires
        info.wf(),
    ensures
        r is Ok,
        r->Ok_0.matches(*info, builder_type, fallible),
{
    let mut params: Vec<TokenStream> = Vec::new();
    let mut generic_producers = info.generics.params_list();
    let mut generic_consumers = info.generic_arguments();
    let mut fields: Vec<TokenStream> = Vec::new();
    let mut field_names: Vec<TokenStream> = Vec::new();
    let mut i: usize = 0;
    while i < info.fields.len()
        invariant
            info.wf(),
            i <= info.fields.len(),
            params.len() == i,
            fields.len() == i,
            field_names.len() == i,
            forall|j: int|
                0 <= j < i ==> (#[trigger] params[j])@ == constructor_param(
                    *info,
                    info.fields[j],
                    builder_type,
                    fallible,
                ),
            forall|j: int|
                0 <= j < i ==> (#[trigger] fields[j])@ == builder_member(*info, info.fields[j]),
            forall|j: int|
                0 <= j < i ==> (#[trigger] field_names[j])@ == builder_member_name(
                    info.fields[j],
                ),
            generic_producers.deep_view() == builder_producers(
                *info,
                builder_type,
                fallible,
                i as int,
            ),
            generic_consumers.deep_view() == builder_consumers(*info, i as int),
        decreases info.fields.len() - i,
    {
        let field = &info.fields[i];
        assert(field.borrows_within(*info)) by {
            assert forall|k: int| 0 <= k < field.borrows.len() implies (
            #[trigger] field.borrows[k]).index < info.fields.len() by {
                assert(info.fields[i as int].borrows[k].index < i);
            }
        }
        let arg_type = if fallible {
            field.make_try_constructor_arg_type(info, builder_type)
        } else {
            field.make_constructor_arg_type(info, builder_type)
        };
        match arg_type {
            Ok(ArgType::Plain(plain)) => {
                // No builder function: the value moves directly into the
                // struct.
                let mut param = TokenStream::new();
                param.push_ident(field.name.as_str());
                param.push_punct(':');
                param.append_copy(&plain);
                params.push(param);
                let mut member = TokenStream::new();
                member.push_ident(field.name.as_str());
                member.push_punct(':');
                member.append_copy(&plain);
                fields.push(member);
                let mut name = TokenStream::new();
                name.push_ident(field.name.as_str());
                field_names.push(name);
            },
            Ok(ArgType::TraitBound(bound)) => {
                // A builder function is accepted through a bound, and the
                // builder struct needs one more generic parameter for it.
                let builder_name = field.builder_name();
                let mut param = TokenStream::new();
                param.push_ident(builder_name.as_str());
                param.push_punct(':');
                param.push_ident("impl");
                param.append_copy(&bound);
                params.push(param);
                let generic_type_name = to_class_case(field.name.as_str()).concat("Builder_");
                let mut producer = TokenStream::new();
                producer.push_ident(generic_type_name.as_str());
                producer.push_punct(':');
                producer.append_copy(&bound);
                push_stream(&mut generic_producers, producer);
                let mut consumer = TokenStream::new();
                consumer.push_ident(generic_type_name.as_str());
                push_stream(&mut generic_consumers, consumer);
                let mut member = TokenStream::new();
                member.push_ident(builder_name.as_str());
                member.push_punct(':');
                member.push_ident(generic_type_name.as_str());
                fields.push(member);
                let mut name = TokenStream::new();
                name.push_ident(builder_name.as_str());
                field_names.push(name);
            },
            Err(e) => {
                return Err(e);
            },
        }
        i += 1;
    }
    assert(params.deep_view() =~= constructor_params(*info, builder_type, fallible));
    assert(fields.deep_view() =~= builder_members(*info));
    assert(field_names.deep_view() =~= builder_member_names(*info));
    Ok(BuilderParts { params, generic_producers, generic_consumers, fields, field_names })
}

/// The arguments that the builder of a field is called with: for each of its
/// borrows, the reference with the erased lifetime to the borrowed field.
pub open spec fn builder_args(info: StructInfo, field: StructFieldInfo) -> Seq<Seq<TokenTree>> {
    Seq::new(
        field.borrows.len() as nat,
        |k: int| tokens().ident(info.fields[field.borrows[k].index as int].illegal_ref_ident()),
    )
}

/// Makes the arguments that the builder of a field is called with.
pub fn make_builder_args(info: &StructInfo, field: &StructFieldInfo) -> (out: TokenStream)
    requires
        field.borrows_within(*info),
    ensures
        out@ == separated(builder_args(*info, *field), ','),
{
    let mut args: Vec<TokenStream> = Vec::new();
    let mut k: usize = 0;
    while k < field.borrows.len()
        invariant
            k <= field.borrows.len(),
            field.borrows_within(*info),
            args.len() == k,
            forall|j: int|
                0 <= j < k ==> (#[trigger] args[j])@ == tokens().ident(
                    info.fields[field.borrows[j].index as int].illegal_ref_ident(),
                ),
        decreases field.borrows.len() - k,
    {
        let borrowed = &info.fields[field.borrows[k].index];
        let reference = borrowed.illegal_ref_name();
        let mut arg = TokenStream::new();
        arg.push_ident(reference.as_str());
        args.push(arg);
        k += 1;
    }
    assert(args.deep_view() =~= builder_args(*info, *field));
    TokenStream::separated(&args, ',')
}

/// The statements that bring a field into being inside a constructor that
/// cannot fail: the call of its builder where it has one, then, where other
/// fields borrow it, the move into its box and the reference with the erased
/// lifetime that the later builders receive.
pub open spec fn field_code(info: StructInfo, field: StructFieldInfo, builder_type: BuilderType) -> Seq<
    TokenTree,
> {
    boxing_code(field, builder_call(info, field, builder_type))
}

/// `code`, followed by the statements that box a borrowed field and take the
/// reference to its contents.
pub open spec fn boxing_code(field: StructFieldInfo, code: Seq<TokenTree>) -> Seq<TokenTree> {
    match field.field_type {
        FieldType::Tail => code,
        FieldType::Borrowed => {
            code.ident("let"@).ident(field.name@).punct('=').splice(field.boxed_tokens()).punct(';')
                .splice(field.illegal_static_reference_tokens())
        },
        FieldType::BorrowedMut => {
            code.ident("let"@).ident("mut"@).ident(field.name@).punct('=').splice(field.boxed_tokens())
                .punct(';')
                .splice(field.illegal_static_mut_reference_tokens())
        },
    }
}

/// Adds to `code` the statements that box a borrowed field and take the
/// reference to its contents.
pub fn push_boxing_code(field: &StructFieldInfo, code: &mut TokenStream)
    ensures
        final(code)@ == boxing_code(*field, old(code)@),
{
    match field.field_type {
        FieldType::Tail => {},
        FieldType::Borrowed => {
            code.push_ident("let");
            code.push_ident(field.name.as_str());
            code.push_punct('=');
            code.append(field.boxed());
            code.push_punct(';');
            code.append(field.make_illegal_static_reference());
        },
        FieldType::BorrowedMut => {
            code.push_ident("let");
            code.push_ident("mut");
            code.push_ident(field.name.as_str());
            code.push_punct('=');
            code.append(field.boxed());
            code.push_punct(';');
            code.append(field.make_illegal_static_mut_reference());
        },
    }
}

/// The statements that bring the first `n` fields into being, in declaration
/// order.
pub open spec fn constructor_code(info: StructInfo, builder_type: BuilderType, n: int) -> Seq<
    TokenTree,
>
    decreases n,
{
    if n <= 0 {
        tokens()
    } else {
        constructor_code(info, builder_type, n - 1).splice(
            field_code(info, info.fields[n - 1], builder_type),
        )
    }
}

/// The names of the fields, in declaration order.
pub open spec fn field_name_list(info: StructInfo) -> Seq<Seq<TokenTree>> {
    Seq::new(info.fields.len() as nat, |i: int| tokens().ident(info.fields[i].name@))
}

/// Makes the names of the fields, in declaration order.
pub fn make_field_name_list(info: &StructInfo) -> (names: Vec<TokenStream>)
    ensures
        names.deep_view() == field_name_list(*info),
{
    let mut names: Vec<TokenStream> = Vec::new();
    let mut i: usize = 0;
    while i < info.fields.len()
        invariant
            i <= info.fields.len(),
            names.len() == i,
            forall|j: int|
                0 <= j < i ==> (#[trigger] names[j])@ == tokens().ident(info.fields[j].name@),
        decreases info.fields.len() - i,
    {
        let mut name = TokenStream::new();
        name.push_ident(info.fields[i].name.as_str());
        names.push(name);
        i += 1;
    }
    assert(names.deep_view() =~= field_name_list(*info));
    names
}

/// The value that a constructor ends with: the stored fields, inside the
/// container that the struct holds them in.
///
/// ```text
/// unsafe {
///     Self {
///         actual_data: ::core::mem::MaybeUninit::new(#internal_ident {
///             #field_names
///         })
///     }
/// }
/// ```
pub open spec fn constructed_value(info: StructInfo) -> Seq<TokenTree> {
    tokens().ident("unsafe"@)
        .braces(tokens().ident("Self"@)
            .braces(tokens().ident("actual_data"@).punct(':').core_path("mem"@, "MaybeUninit"@).segment("new"@)
                .parens(tokens().ident(info.internal_ident@)
                    .braces(tokens().splice(separated(field_name_list(info), ','))))))
}

/// Makes the value that a constructor ends with.
pub fn make_constructed_value(info: &StructInfo) -> (out: TokenStream)
    ensures
        out@ == constructed_value(*info),
{
    let field_names = make_field_name_list(info);
    let mut out = TokenStream::new();
    out.push_ident("unsafe");
    let mut block = TokenStream::new();
    block.push_ident("Self");
    let mut members = TokenStream::new();
    members.push_ident("actual_data");
    members.push_punct(':');
    members.push_core("mem", "MaybeUninit");
    members.push_segment("new");
    let mut wrapped = TokenStream::new();
    wrapped.push_ident(info.internal_ident.as_str());
    let mut stored = TokenStream::new();
    stored.append(TokenStream::separated(&field_names, ','));
    wrapped.push_braces(stored);
    members.push_parens(wrapped);
    block.push_braces(members);
    out.push_braces(block);
    out
}

/// `selfname`, for each member of the builder struct.
pub open spec fn self_members(info: StructInfo) -> Seq<Seq<TokenTree>> {
    Seq::new(
        info.fields.len() as nat,
        |i: int| tokens().ident("self"@).punct('.').splice(builder_member_name(info.fields[i])),
    )
}

/// Makes the list of the members of the builder struct, each read from `self`.
pub fn make_self_members(info: &StructInfo, names: &Vec<TokenStream>) -> (list: Vec<TokenStream>)
    requires
        names.deep_view() == builder_member_names(*info),
    ensures
        list.deep_view() == self_members(*info),
{
    let mut list: Vec<TokenStream> = Vec::new();
    let mut i: usize = 0;
    assert(names.len() == names.deep_view().len());
    while i < names.len()
        invariant
            i <= names.len(),
            names.len() == info.fields.len(),
            names.deep_view() == builder_member_names(*info),
            list.len() == i,
            forall|j: int|
                0 <= j < i ==> (#[trigger] list[j])@ == tokens().ident("self"@).punct('.').splice(
                    builder_member_name(info.fields[j]),
                ),
        decreases names.len() - i,
    {
        assert(names[i as int]@ == names.deep_view()[i as int]);
        let mut member = TokenStream::new();
        member.push_ident("self");
        member.push_punct('.');
        member.append_copy(&names[i]);
        list.push(member);
        i += 1;
    }
    assert(list.deep_view() =~= self_members(*info));
    list
}

/// The members of the builder struct, each with the visibility `vis`.
pub open spec fn visible_members(info: StructInfo, vis: Seq<TokenTree>) -> Seq<Seq<TokenTree>> {
    Seq::new(
        info.fields.len() as nat,
        |i: int| tokens().splice(vis).splice(builder_member(info, info.fields[i])),
    )
}

/// Makes the members of the builder struct, each with the visibility `vis`.
pub fn make_visible_members(info: &StructInfo, fields: &Vec<TokenStream>, vis: &TokenStream) -> (list:
    Vec<TokenStream>)
    requires
        fields.deep_view() == builder_members(*info),
    ensures
        list.deep_view() == visible_members(*info, vis@),
{
    let mut list: Vec<TokenStream> = Vec::new();
    let mut i: usize = 0;
    assert(fields.len() == fields.deep_view().len());
    while i < fields.len()
        invariant
            i <= fields.len(),
            fields.len() == info.fields.len(),
            fields.deep_view() == builder_members(*info),
            list.len() == i,
            forall|j: int|
                0 <= j < i ==> (#[trigger] list[j])@ == tokens().splice(vis@).splice(
                    builder_member(*info, info.fields[j]),
                ),
        decreases fields.len() - i,
    {
        assert(fields[i as int]@ == fields.deep_view()[i as int]);
        let mut member = TokenStream::new();
        member.append_copy(vis);
        member.append_copy(&fields[i]);
        list.push(member);
        i += 1;
    }
    assert(list.deep_view() =~= visible_members(*info, vis@));
    list
}

/// The name of the builder struct of one flavour.
pub open spec fn builder_struct_ident(info: StructInfo, builder_type: BuilderType) -> Seq<char> {
    match builder_type {
        BuilderType::AsyncSend => info.ident@ + "AsyncSendBuilder"@,
        BuilderType::Async => info.ident@ + "AsyncBuilder"@,
        BuilderType::Sync => info.ident@ + "Builder"@,
    }
}

/// The keyword and the name of the constructor of one flavour.
pub open spec fn constructor_header(builder_type: BuilderType) -> Seq<TokenTree> {
    match builder_type {
        BuilderType::AsyncSend => tokens().ident("async"@).ident("fn"@).ident("new_async_send"@),
        BuilderType::Async => tokens().ident("async"@).ident("fn"@).ident("new_async"@),
        BuilderType::Sync => tokens().ident("fn"@).ident("new"@),
    }
}

/// The keyword and the name of the build function of one flavour.
pub open spec fn build_header(builder_type: BuilderType) -> Seq<TokenTree> {
    if builder_type != BuilderType::Sync {
        tokens().ident("async"@).ident("fn"@).ident("build"@)
    } else {
        tokens().ident("fn"@).ident("build"@)
    }
}

/// The call of the constructor with the members of the builder struct.
pub open spec fn build_call(info: StructInfo, builder_type: BuilderType) -> Seq<TokenTree> {
    match builder_type {
        BuilderType::AsyncSend => tokens().ident(info.ident@).segment("new_async_send"@)
                .parens(tokens().splice(separated(self_members(info), ','))).punct('.').ident("await"@),
        BuilderType::Async => tokens().ident(info.ident@).segment("new_async"@)
                .parens(tokens().splice(separated(self_members(info), ','))).punct('.').ident("await"@),
        BuilderType::Sync => tokens().ident(info.ident@).segment("new"@)
                .parens(tokens().splice(separated(self_members(info), ','))),
    }
}

/// The text that documents a constructor.
pub const CONSTRUCTOR_DOC: &'static str =
    "\"Constructs a new instance of this self-referential struct. Each argument is a field of the new struct. Fields that refer to other fields inside the struct are initialized using functions instead of directly passing their value.\"";

/// The text that documents a builder struct.
pub const BUILDER_DOC: &'static str =
    "\"A more verbose but stable way to construct self-referencing structs. Call build() to construct the actual struct.\"";

/// The constructor of one flavour: it takes one argument for each field and
/// brings the fields into being in declaration order.
///
/// ```text
/// #documentation
/// #vis #constructor_fn(#params) -> #struct_name <#generic_args> {
///     #code
///     #value
/// }
/// ```
#[verifier::opaque]
pub open spec fn constructor_def(info: StructInfo, options: Options, builder_type: BuilderType) -> Seq<
    TokenTree,
> {
    tokens().splice(documentation(options, CONSTRUCTOR_DOC@))
        .splice(visibility_tokens(extras_visibility(info.vis@, options)))
        .splice(constructor_header(builder_type))
        .parens(tokens().splice(separated(constructor_params(info, builder_type, false), ',')))
        .arrow().ident(info.ident@).punct('<')
        .splice(separated(generic_arguments(info.generics), ',')).punct('>')
        .braces(tokens().splice(constructor_code(info, builder_type, info.fields.len() as int))
            .splice(constructed_value(info)))
}

/// The builder struct of one flavour, with the function that hands its
/// members to the constructor.
///
/// ```text
/// #builder_documentation
/// #vis struct #builder_struct_name <#producers> #generic_where {
///     #members
/// }
/// impl<#producers2> #builder_struct_name <#consumers> #generic_where2 {
///     #[doc="Calls the constructor with the provided values."]
///     #vis #builder_fn(self) -> #struct_name <#generic_args> {
///         #builder_code
///     }
/// }
/// ```
#[verifier::opaque]
pub open spec fn builder_def(info: StructInfo, options: Options, builder_type: BuilderType) -> Seq<
    TokenTree,
> {
    tokens().splice(documentation(options, BUILDER_DOC@))
        .splice(visibility_tokens(extras_visibility(info.vis@, options))).ident("struct"@)
        .ident(builder_struct_ident(info, builder_type)).punct('<')
        .splice(separated(builder_producers(info, builder_type, false, info.fields.len() as int), ','))
        .punct('>').splice(where_tokens(info.generics))
        .braces(tokens()
            .splice(separated(visible_members(info, visibility_tokens(extras_visibility(info.vis@, options))), ',')))
        .ident("impl"@).punct('<')
        .splice(separated(builder_producers(info, builder_type, false, info.fields.len() as int), ','))
        .punct('>').ident(builder_struct_ident(info, builder_type)).punct('<')
        .splice(separated(builder_consumers(info, info.fields.len() as int), ',')).punct('>')
        .splice(where_tokens(info.generics))
        .braces(tokens().punct('#')
            .brackets(tokens().ident("doc"@).punct('=')
                .literal("\"Calls the constructor with the provided values.\""@))
            .splice(visibility_tokens(extras_visibility(info.vis@, options)))
            .splice(build_header(builder_type)).parens(tokens().ident("self"@)).arrow()
            .ident(info.ident@).punct('<').splice(separated(generic_arguments(info.generics), ','))
            .punct('>').braces(tokens().splice(build_call(info, builder_type))))
}

/// Makes the statements that bring the fields into being, in declaration
/// order.
pub fn make_constructor_code(info: &StructInfo, builder_type: BuilderType) -> (code: TokenStream)
    requires
        info.wf(),
    ensures
        code@ == constructor_code(*info, builder_type, info.fields.len() as int),
{
    let mut code = TokenStream::new();
    let mut i: usize = 0;
    while i < info.fields.len()
        invariant
            info.wf(),
            i <= info.fields.len(),
            code@ == constructor_code(*info, builder_type, i as int),
        decreases info.fields.len() - i,
    {
        let field = &info.fields[i];
        assert(field.borrows_within(*info)) by {
            assert forall|k: int| 0 <= k < field.borrows.len() implies (
            #[trigger] field.borrows[k]).index < info.fields.len() by {
                assert(info.fields[i as int].borrows[k].index < i);
            }
        }
        let mut statements = make_builder_call(info, field, builder_type);
        push_boxing_code(field, &mut statements);
        code.append(statements);
        i += 1;
    }
    code
}

/// The call of the builder of a field, where it has one.
pub open spec fn builder_call(info: StructInfo, field: StructFieldInfo, builder_type: BuilderType) -> Seq<
    TokenTree,
> {
    if field.borrows.len() == 0 {
        tokens()
    } else if builder_type != BuilderType::Sync {
        tokens().ident("let"@).ident(field.name@).punct('=').ident(field.builder_ident())
            .parens(tokens().splice(separated(builder_args(info, field), ','))).punct('.')
            .ident("await"@).punct(';')
    } else {
        tokens().ident("let"@).ident(field.name@).punct('=').ident(field.builder_ident())
            .parens(tokens().splice(separated(builder_args(info, field), ','))).punct(';')
    }
}

/// Makes the call of the builder of a field, where it has one.
pub fn make_builder_call(info: &StructInfo, field: &StructFieldInfo, builder_type: BuilderType) -> (code:
    TokenStream)
    requires
        field.borrows_within(*info),
    ensures
        code@ == builder_call(*info, *field, builder_type),
{
    let mut code = TokenStream::new();
    if field.borrows.len() > 0 {
        let builder_name = field.builder_name();
        let args = make_builder_args(info, field);
        if builder_type.is_async() {
            code.push_ident("let");
            code.push_ident(field.name.as_str());
            code.push_punct('=');
            code.push_ident(builder_name.as_str());
            let mut call_args = TokenStream::new();
            call_args.append(args);
            code.push_parens(call_args);
            code.push_punct('.');
            code.push_ident("await");
            code.push_punct(';');
        } else {
            code.push_ident("let");
            code.push_ident(field.name.as_str());
            code.push_punct('=');
            code.push_ident(builder_name.as_str());
            let mut call_args = TokenStream::new();
            call_args.append(args);
            code.push_parens(call_args);
            code.push_punct(';');
        }
    }
    code
}

/// Makes the keyword and the name of the constructor of one flavour.
pub fn make_constructor_header(builder_type: BuilderType) -> (header: TokenStream)
    ensures
        header@ == constructor_header(builder_type),
{
    match builder_type {
        BuilderType::AsyncSend => {
            let mut header = TokenStream::new();
            header.push_ident("async");
            header.push_ident("fn");
            header.push_ident("new_async_send");
            header
        },
        BuilderType::Async => {
            let mut header = TokenStream::new();
            header.push_ident("async");
            header.push_ident("fn");
            header.push_ident("new_async");
            header
        },
        BuilderType::Sync => {
            let mut header = TokenStream::new();
            header.push_ident("fn");
            header.push_ident("new");
            header
        },
    }
}

/// Makes the keyword and the name of the build function of one flavour.
pub fn make_build_header(builder_type: BuilderType) -> (out: TokenStream)
    ensures
        out@ == build_header(builder_type),
{
    if builder_type.is_async() {
        let mut build_header = TokenStream::new();
        build_header.push_ident("async");
        build_header.push_ident("fn");
        build_header.push_ident("build");
        build_header
    } else {
        let mut build_header = TokenStream::new();
        build_header.push_ident("fn");
        build_header.push_ident("build");
        build_header
    }
}

/// Makes the call of the constructor with the members of the builder struct.
pub fn make_build_call(info: &StructInfo, builder_type: BuilderType, names: &Vec<TokenStream>) -> (builder_code:
    TokenStream)
    requires
        names.deep_view() == builder_member_names(*info),
    ensures
        builder_code@ == build_call(*info, builder_type),
{
    let self_fields = make_self_members(info, names);
    match builder_type {
        BuilderType::AsyncSend => {
            let mut builder_code = TokenStream::new();
            builder_code.push_ident(info.ident.as_str());
            builder_code.push_segment("new_async_send");
            let mut call_args = TokenStream::new();
            call_args.append(TokenStream::separated(&self_fields, ','));
            builder_code.push_parens(call_args);
            builder_code.push_punct('.');
            builder_code.push_ident("await");
            builder_code
        },
        BuilderType::Async => {
            let mut builder_code = TokenStream::new();
            builder_code.push_ident(info.ident.as_str());
            builder_code.push_segment("new_async");
            let mut call_args = TokenStream::new();
            call_args.append(TokenStream::separated(&self_fields, ','));
            builder_code.push_parens(call_args);
            builder_code.push_punct('.');
            builder_code.push_ident("await");
            builder_code
        },
        BuilderType::Sync => {
            let mut builder_code = TokenStream::new();
            builder_code.push_ident(info.ident.as_str());
            builder_code.push_segment("new");
            let mut call_args = TokenStream::new();
            call_args.append(TokenStream::separated(&self_fields, ','));
            builder_code.push_parens(call_args);
            builder_code
        },
    }
}

/// Makes the constructor of one flavour from its parts.
pub fn make_constructor_def(
    info: &StructInfo,
    options: Options,
    builder_type: BuilderType,
    parts: &BuilderParts,
) -> (out: TokenStream)
    requires
        info.wf(),
        parts.matches(*info, builder_type, false),
    ensures
        out@ == constructor_def(*info, options, builder_type),
{
    reveal(constructor_def);
    let generic_args = info.generic_arguments();
    let vis = make_extras_visibility(info, options);
    let code = make_constructor_code(info, builder_type);
    let header = make_constructor_header(builder_type);
    let value = make_constructed_value(info);
    let mut constructor_def = TokenStream::new();
    constructor_def.append(make_documentation(options, CONSTRUCTOR_DOC));
    constructor_def.append_copy(&vis);
    constructor_def.append(header);
    let mut signature = TokenStream::new();
    signature.append(TokenStream::separated(&parts.params, ','));
    constructor_def.push_parens(signature);
    constructor_def.push_arrow();
    constructor_def.push_ident(info.ident.as_str());
    constructor_def.push_punct('<');
    constructor_def.append(TokenStream::separated(&generic_args, ','));
    constructor_def.push_punct('>');
    let mut body = TokenStream::new();
    body.append(code);
    body.append(value);
    constructor_def.push_braces(body);
    constructor_def
}

/// Makes the builder struct of one flavour from its parts.
pub fn make_builder_def(
    info: &StructInfo,
    options: Options,
    builder_type: BuilderType,
    parts: &BuilderParts,
) -> (out: TokenStream)
    requires
        info.wf(),
        parts.matches(*info, builder_type, false),
    ensures
        out@ == builder_def(*info, options, builder_type),
{
    reveal(builder_def);
    let generic_args = info.generic_arguments();
    let vis = make_extras_visibility(info, options);
    let builder_struct_name = make_builder_struct_name(info, builder_type);
    let build_header = make_build_header(builder_type);
    let builder_code = make_build_call(info, builder_type, &parts.field_names);
    let members = make_visible_members(info, &parts.fields, &vis);
    let mut builder_def = TokenStream::new();
    builder_def.append(make_documentation(options, BUILDER_DOC));
    builder_def.append_copy(&vis);
    builder_def.push_ident("struct");
    builder_def.push_ident(builder_struct_name.as_str());
    builder_def.push_punct('<');
    builder_def.append(TokenStream::separated(&parts.generic_producers, ','));
    builder_def.push_punct('>');
    builder_def.append(info.generics.where_tokens());
    let mut struct_body = TokenStream::new();
    struct_body.append(TokenStream::separated(&members, ','));
    builder_def.push_braces(struct_body);
    builder_def.push_ident("impl");
    builder_def.push_punct('<');
    builder_def.append(TokenStream::separated(&parts.generic_producers, ','));
    builder_def.push_punct('>');
    builder_def.push_ident(builder_struct_name.as_str());
    builder_def.push_punct('<');
    builder_def.append(TokenStream::separated(&parts.generic_consumers, ','));
    builder_def.push_punct('>');
    builder_def.append(info.generics.where_tokens());
    let mut impl_body = TokenStream::new();
    impl_body.push_punct('#');
    let mut doc = TokenStream::new();
    doc.push_ident("doc");
    doc.push_punct('=');
    doc.push_literal("\"Calls the constructor with the provided values.\"");
    impl_body.push_brackets(doc);
    impl_body.append_copy(&vis);
    impl_body.append(build_header);
    let mut receiver = TokenStream::new();
    receiver.push_ident("self");
    impl_body.push_parens(receiver);
    impl_body.push_arrow();
    impl_body.push_ident(info.ident.as_str());
    impl_body.push_punct('<');
    impl_body.append(TokenStream::separated(&generic_args, ','));
    impl_body.push_punct('>');
    let mut fn_body = TokenStream::new();
    fn_body.append(builder_code);
    impl_body.push_braces(fn_body);
    builder_def.push_braces(impl_body);
    builder_def
}

/// Makes the name of the builder struct of one flavour.
pub fn make_builder_struct_name(info: &StructInfo, builder_type: BuilderType) -> (name: String)
    ensures
        name@ == builder_struct_ident(*info, builder_type),
{
    match builder_type {
        BuilderType::AsyncSend => info.ident.clone().concat("AsyncSendBuilder"),
        BuilderType::Async => info.ident.clone().concat("AsyncBuilder"),
        BuilderType::Sync => info.ident.clone().concat("Builder"),
    }
}

/// Creates the constructor of one flavour and its builder struct: the name of
/// the builder struct, its definition, and the definition of the constructor.
pub fn create_builder_and_constructor(
    info: &StructInfo,
    options: Options,
    builder_type: BuilderType,
) -> (r: Result<(String, TokenStream, TokenStream), Error>)
    requires
        info.wf(),
    ensures
        r is Ok,
        r->Ok_0.0@ == builder_struct_ident(*info, builder_type),
        r->Ok_0.1@ == builder_def(*info, options, builder_type),
        r->Ok_0.2@ == constructor_def(*info, options, builder_type),
{
    let parts = match collect_builder_parts(info, builder_type, false) {
        Ok(parts) => parts,
        Err(e) => {
            return Err(e);
        },
    };
    let builder_struct_name = make_builder_struct_name(info, builder_type);
    let constructor_def = make_constructor_def(info, options, builder_type, &parts);
    let builder_def = make_builder_def(info, options, builder_type, &parts);
    Ok((builder_struct_name, builder_def, constructor_def))
}

} // verus!
