//! The parts of a struct declaration that the analysis reads, as plain data.

use vstd::prelude::*;
use vstd::string::*;
use crate::tokens::{Emit, TokenStream, TokenTree, separated, tokens};

verus! {

/// Who may name an item.
#[derive(Debug, PartialEq, Eq)]
pub enum Visibility {
    /// `pub`
    Public,
    /// `crate`
    Crate,
    /// `pub(path)` or `pub(in path)`
    Restricted { in_token: bool, path: TokenStream },
    /// Nothing written.
    Inherited,
}

/// The mathematical value of a [`Visibility`].
pub enum VisibilityView {
    Public,
    Crate,
    Restricted { in_token: bool, path: Seq<TokenTree> },
    Inherited,
}

impl View for Visibility {
    type V = VisibilityView;

    open spec fn view(&self) -> VisibilityView {
        match *self {
            Visibility::Public => VisibilityView::Public,
            Visibility::Crate => VisibilityView::Crate,
            Visibility::Restricted { in_token, path } => VisibilityView::Restricted {
                in_token,
                path: path@,
            },
            Visibility::Inherited => VisibilityView::Inherited,
        }
    }
}

/// The tokens that a visibility is written with.
pub open spec fn visibility_tokens(vis: VisibilityView) -> Seq<TokenTree> {
    match vis {
        VisibilityView::Public => tokens().ident("pub"@),
        VisibilityView::Crate => tokens().ident("crate"@),
        VisibilityView::Restricted { in_token, path } => if in_token {
            tokens().ident("pub"@).parens(tokens().ident("in"@).splice(path))
        } else {
            tokens().ident("pub"@).parens(tokens().splice(path))
        },
        VisibilityView::Inherited => tokens(),
    }
}

/// `pub(super)`
pub open spec fn pub_super() -> VisibilityView {
    VisibilityView::Restricted { in_token: false, path: tokens().ident("super"@) }
}

impl Clone for Visibility {
    fn clone(&self) -> (r: Visibility)
        ensures
            r@ == self@,
    {
        match self {
            Visibility::Public => Visibility::Public,
            Visibility::Crate => Visibility::Crate,
            Visibility::Restricted { in_token, path } => Visibility::Restricted {
                in_token: *in_token,
                path: path.clone(),
            },
            Visibility::Inherited => Visibility::Inherited,
        }
    }
}

impl Visibility {
    /// `pub(super)`
    pub fn pub_super() -> (r: Visibility)
        ensures
            r@ == pub_super(),
    {
        let mut path = TokenStream::new();
        path.push_ident("super");
        Visibility::Restricted { in_token: false, path }
    }

    /// The tokens that this visibility is written with.
    pub fn to_tokens(&self) -> (out: TokenStream)
        ensures
            out@ == visibility_tokens(self@),
    {
        let mut out = TokenStream::new();
        match self {
            Visibility::Public => {
                out.push_ident("pub");
            },
            Visibility::Crate => {
                out.push_ident("crate");
            },
            Visibility::Restricted { in_token, path } => {
                out.push_ident("pub");
                let mut inner = TokenStream::new();
                if *in_token {
                    inner.push_ident("in");
                }
                inner.append_copy(path);
                out.push_parens(inner);
            },
            Visibility::Inherited => {},
        }
        out
    }
}

/// One attribute: the path after `#[`, and the tokens that follow the path.
#[derive(Debug, PartialEq, Eq)]
pub struct Attribute {
    /// Whether the path starts with `::`.
    pub leading_colon: bool,
    /// The names that make up the path.
    pub segments: Vec<String>,
    /// What follows the path inside the brackets.
    pub tokens: TokenStream,
}

/// What a generic parameter stands for.
#[derive(Clone, Copy, Debug, PartialEq, Eq, Structural)]
pub enum GenericParamKind {
    Type,
    Lifetime,
    Const,
}

/// One generic parameter of the struct.
#[derive(Debug, PartialEq, Eq)]
pub struct GenericParam {
    pub kind: GenericParamKind,
    /// The parameter's name; for a lifetime, without the quote.
    pub ident: String,
    /// The parameter as declared, bounds included, without a default.
    pub tokens: TokenStream,
    /// Whether the declaration carries at least one bound.
    pub has_bounds: bool,
    /// `= default`, or nothing.
    pub default: TokenStream,
}

/// The generic parameters of the struct and its `where` clause.
#[derive(Debug, PartialEq, Eq)]
pub struct Generics {
    pub params: Vec<GenericParam>,
    /// The predicates of the `where` clause, if one is written.
    pub where_clause: Option<Vec<TokenStream>>,
}

/// One parameter as declared, with its default.
pub open spec fn generic_param_tokens(param: GenericParam) -> Seq<TokenTree> {
    tokens().splice(param.tokens@).splice(param.default@)
}

/// The parameters as declared, in order.
pub open spec fn generic_params_list(generics: Generics) -> Seq<Seq<TokenTree>> {
    Seq::new(generics.params.len() as nat, |i: int| generic_param_tokens(generics.params[i]))
}

/// The parameters as declared, with commas between them.
pub open spec fn generic_params_tokens(generics: Generics) -> Seq<TokenTree> {
    separated(generic_params_list(generics), ',')
}

/// The `where` clause as written, or nothing.
pub open spec fn where_tokens(generics: Generics) -> Seq<TokenTree> {
    match generics.where_clause {
        Some(predicates) => tokens().ident("where"@).splice(separated(predicates.deep_view(), ',')),
        None => tokens(),
    }
}

impl Generics {
    /// The parameters as declared, in order.
    pub fn params_list(&self) -> (list: Vec<TokenStream>)
        ensures
            list.deep_view() == generic_params_list(*self),
    {
        let mut list: Vec<TokenStream> = Vec::new();
        let mut i: usize = 0;
        while i < self.params.len()
            invariant
                i <= self.params.len(),
                list.len() == i,
                forall|j: int|
                    0 <= j < i ==> (#[trigger] list[j])@ == generic_param_tokens(self.params[j]),
            decreases self.params.len() - i,
        {
            let mut param = TokenStream::new();
            param.append_copy(&self.params[i].tokens);
            param.append_copy(&self.params[i].default);
            list.push(param);
            i += 1;
        }
        assert(list.deep_view() =~= generic_params_list(*self));
        list
    }

    /// The parameters as declared, with commas between them.
    pub fn params_tokens(&self) -> (out: TokenStream)
        ensures
            out@ == generic_params_tokens(*self),
    {
        let list = self.params_list();
        TokenStream::separated(&list, ',')
    }

    /// The `where` clause as written, or nothing.
    pub fn where_tokens(&self) -> (out: TokenStream)
        ensures
            out@ == where_tokens(*self),
    {
        let mut out = TokenStream::new();
        match &self.where_clause {
            Some(predicates) => {
                out.push_ident("where");
                out.append(TokenStream::separated(predicates, ','));
            },
            None => {},
        }
        out
    }
}

/// A type: the tokens it is written with, and its outermost shape.
#[derive(Debug, PartialEq, Eq)]
pub struct TypeExpr {
    pub tokens: TokenStream,
    pub shape: TypeShape,
}

/// The outermost shape of a type, with the types directly inside it.
#[derive(Debug, PartialEq, Eq)]
pub enum TypeShape {
    /// `[T; n]`
    Array(Box<TypeExpr>),
    /// `fn(A) -> B`
    BareFn,
    /// A type inside invisible delimiters.
    Group(Box<TypeExpr>),
    /// `impl Trait`
    ImplTrait,
    /// `_`
    Infer,
    /// A macro in type position.
    Macro,
    /// `!`
    Never,
    /// `(T)`
    Paren(Box<TypeExpr>),
    /// `<Q as Trait>::a::b<Args>`; `qself` is `Q`.
    Path { qself: Option<Box<TypeExpr>>, segments: Vec<PathSegment> },
    /// `*const T` or `*mut T`
    Ptr { mutable: bool, elem: Box<TypeExpr> },
    /// `&T` or `&mut T`
    Reference { mutable: bool, elem: Box<TypeExpr> },
    /// `[T]`
    Slice(Box<TypeExpr>),
    /// `dyn Trait`
    TraitObject,
    /// `(A, B)`
    Tuple(Vec<TypeExpr>),
    /// Anything else.
    Other,
}

/// One segment of a path, with its arguments.
#[derive(Debug, PartialEq, Eq)]
pub struct PathSegment {
    pub ident: String,
    pub arguments: PathArguments,
}

/// What follows the name of a path segment.
#[derive(Debug, PartialEq, Eq)]
pub enum PathArguments {
    /// Nothing.
    Empty,
    /// `<A, B>`
    AngleBracketed(Vec<GenericArgument>),
    /// `(A, B) -> C`
    Parenthesized { inputs: Vec<TypeExpr>, output: Option<Box<TypeExpr>> },
}

/// One argument between angle brackets.
#[derive(Debug, PartialEq, Eq)]
pub enum GenericArgument {
    /// A lifetime, by its name without the quote.
    Lifetime(String),
    /// A type.
    Type(TypeExpr),
    /// A binding, a constraint or a constant.
    Other,
}

/// One named field of the declaration.
#[derive(Debug, PartialEq, Eq)]
pub struct FieldDecl {
    pub attrs: Vec<Attribute>,
    pub vis: Visibility,
    pub ident: String,
    pub ty: TypeExpr,
}

/// The fields of the declaration.
#[derive(Debug, PartialEq, Eq)]
pub enum FieldsDecl {
    /// `{ a: A, b: B }`
    Named(Vec<FieldDecl>),
    /// `(A, B)`
    Unnamed,
    /// No fields.
    Unit,
}

/// A struct declaration as written by the user.
#[derive(Debug, PartialEq, Eq)]
pub struct StructDecl {
    pub attrs: Vec<Attribute>,
    pub vis: Visibility,
    pub ident: String,
    pub generics: Generics,
    pub fields: FieldsDecl,
}

} // verus!
