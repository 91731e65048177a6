//! A span-free model of token trees, and the builders that the generators use.
//!
//! A [`TokenStream`] is executable data; its view is a sequence of
//! [`TokenTree`] values, over which every contract of the crate is stated.

use vstd::prelude::*;
use vstd::string::*;

verus! {

/// The bracket kind of a group.
#[derive(Clone, Copy, Debug, PartialEq, Eq, Structural)]
pub enum Delimiter {
    Parenthesis,
    Brace,
    Bracket,
    Invisible,
}

/// Whether a punctuation character is glued to the one after it.
#[derive(Clone, Copy, Debug, PartialEq, Eq, Structural)]
pub enum Spacing {
    Alone,
    Joint,
}

/// One token tree, as executable data.
#[derive(Debug, PartialEq, Eq)]
pub enum Token {
    /// An identifier or keyword.
    Ident(String),
    /// One punctuation character.
    Punct(char, Spacing),
    /// A literal, held as its source text.
    Literal(String),
    /// A delimited run of tokens.
    Group(Delimiter, TokenStream),
}

/// A run of token trees.
#[derive(Debug, PartialEq, Eq)]
pub struct TokenStream {
    pub trees: Vec<Token>,
}

/// The mathematical value of a token tree.
pub enum TokenTree {
    Ident(Seq<char>),
    Punct(char, Spacing),
    Literal(Seq<char>),
    Group(Delimiter, Seq<TokenTree>),
}

/// The value of one token.
pub open spec fn tree_of(t: Token) -> TokenTree
    decreases t,
{
    match t {
        Token::Ident(s) => TokenTree::Ident(s@),
        Token::Punct(c, sp) => TokenTree::Punct(c, sp),
        Token::Literal(s) => TokenTree::Literal(s@),
        Token::Group(d, inner) => TokenTree::Group(
            d,
            Seq::new(
                inner.trees.len() as nat,
                |i: int|
                    if 0 <= i < inner.trees.len() {
                        tree_of(inner.trees[i])
                    } else {
                        TokenTree::Punct(' ', Spacing::Alone)
                    },
            ),
        ),
    }
}

/// The values of a run of tokens.
pub open spec fn trees_of(ts: Seq<Token>) -> Seq<TokenTree> {
    Seq::new(ts.len(), |i: int| tree_of(ts[i]))
}

impl View for Token {
    type V = TokenTree;

    open spec fn view(&self) -> TokenTree {
        tree_of(*self)
    }
}

impl View for TokenStream {
    type V = Seq<TokenTree>;

    open spec fn view(&self) -> Seq<TokenTree> {
        trees_of(self.trees@)
    }
}

impl DeepView for TokenStream {
    type V = Seq<TokenTree>;

    open spec fn deep_view(&self) -> Seq<TokenTree> {
        self@
    }
}

/// The empty run, from which the templates are built up.
pub open spec fn tokens() -> Seq<TokenTree> {
    Seq::empty()
}

/// The vocabulary in which the templates are written: each method adds to the
/// end of a run of token trees.
pub trait Emit: Sized {
    /// An identifier or keyword.
    spec fn ident(self, name: Seq<char>) -> Self;

    /// A punctuation character that stands alone.
    spec fn punct(self, c: char) -> Self;

    /// A punctuation character glued to the next token.
    spec fn joint(self, c: char) -> Self;

    /// A literal with the given source text.
    spec fn literal(self, text: Seq<char>) -> Self;

    /// A group with the given delimiter.
    spec fn group(self, d: Delimiter, inner: Seq<TokenTree>) -> Self;

    /// `( inner )`
    spec fn parens(self, inner: Seq<TokenTree>) -> Self;

    /// `{ inner }`
    spec fn braces(self, inner: Seq<TokenTree>) -> Self;

    /// `[ inner ]`
    spec fn brackets(self, inner: Seq<TokenTree>) -> Self;

    /// Every token of `other`, in order.
    spec fn splice(self, other: Seq<TokenTree>) -> Self;

    /// `::`
    spec fn colon2(self) -> Self;

    /// `->`
    spec fn arrow(self) -> Self;

    /// `=>`
    spec fn fat_arrow(self) -> Self;

    /// `'name`
    spec fn lifetime(self, name: Seq<char>) -> Self;

    /// `::name`, one segment of a path.
    spec fn segment(self, name: Seq<char>) -> Self;

    /// `::core::module::item`
    spec fn core_path(self, module: Seq<char>, item: Seq<char>) -> Self;

    /// `::ouroboros::macro_help::item`, an item of the runtime support.
    spec fn help(self, item: Seq<char>) -> Self;
}

impl Emit for Seq<TokenTree> {
    open spec fn ident(self, name: Seq<char>) -> Self {
        self.push(TokenTree::Ident(name))
    }

    open spec fn punct(self, c: char) -> Self {
        self.push(TokenTree::Punct(c, Spacing::Alone))
    }

    open spec fn joint(self, c: char) -> Self {
        self.push(TokenTree::Punct(c, Spacing::Joint))
    }

    open spec fn literal(self, text: Seq<char>) -> Self {
        self.push(TokenTree::Literal(text))
    }

    open spec fn group(self, d: Delimiter, inner: Seq<TokenTree>) -> Self {
        self.push(TokenTree::Group(d, inner))
    }

    open spec fn parens(self, inner: Seq<TokenTree>) -> Self {
        self.group(Delimiter::Parenthesis, inner)
    }

    open spec fn braces(self, inner: Seq<TokenTree>) -> Self {
        self.group(Delimiter::Brace, inner)
    }

    open spec fn brackets(self, inner: Seq<TokenTree>) -> Self {
        self.group(Delimiter::Bracket, inner)
    }

    open spec fn splice(self, other: Seq<TokenTree>) -> Self {
        self + other
    }

    open spec fn colon2(self) -> Self {
        self.joint(':').punct(':')
    }

    open spec fn arrow(self) -> Self {
        self.joint('-').punct('>')
    }

    open spec fn fat_arrow(self) -> Self {
        self.joint('=').punct('>')
    }

    open spec fn lifetime(self, name: Seq<char>) -> Self {
        self.joint('\'').ident(name)
    }

    open spec fn segment(self, name: Seq<char>) -> Self {
        self.colon2().ident(name)
    }

    open spec fn core_path(self, module: Seq<char>, item: Seq<char>) -> Self {
        self.segment("core"@).segment(module).segment(item)
    }

    open spec fn help(self, item: Seq<char>) -> Self {
        self.segment("ouroboros"@).segment("macro_help"@).segment(item)
    }
}

/// The value of a group is the group of its members' values.
pub proof fn lemma_group_view(d: Delimiter, inner: TokenStream)
    ensures
        Token::Group(d, inner)@ == TokenTree::Group(d, inner@),
{
    match tree_of(Token::Group(d, inner)) {
        TokenTree::Group(_, members) => {
            assert(members =~= inner@);
        },
        _ => {},
    }
}

impl Clone for Token {
    fn clone(&self) -> (r: Token)
        ensures
            r@ == self@,
        decreases self,
    {
        match self {
            Token::Ident(s) => Token::Ident(s.clone()),
            Token::Punct(c, sp) => Token::Punct(*c, *sp),
            Token::Literal(s) => Token::Literal(s.clone()),
            Token::Group(d, inner) => {
                let copy = inner.clone();
                proof {
                    lemma_group_view(*d, *inner);
                    lemma_group_view(*d, copy);
                }
                Token::Group(*d, copy)
            },
        }
    }
}

impl Clone for TokenStream {
    fn clone(&self) -> (r: TokenStream)
        ensures
            r@ == self@,
        decreases self,
    {
        let mut out: Vec<Token> = Vec::new();
        let mut i: usize = 0;
        while i < self.trees.len()
            invariant
                i <= self.trees.len(),
                out.len() == i,
                forall|j: int| 0 <= j < i ==> tree_of(#[trigger] out[j]) == tree_of(self.trees[j]),
            decreases self.trees.len() - i,
        {
            let t = self.trees[i].clone();
            out.push(t);
            i += 1;
        }
        assert(trees_of(out@) =~= trees_of(self.trees@));
        TokenStream { trees: out }
    }
}

impl TokenStream {
    /// The empty stream.
    pub fn new() -> (r: TokenStream)
        ensures
            r@ == tokens(),
    {
        let r = TokenStream { trees: Vec::new() };
        assert(r@ =~= tokens());
        r
    }

    /// Whether the stream holds no token.
    pub fn is_empty(&self) -> (r: bool)
        ensures
            r == (self@.len() == 0),
    {
        self.trees.len() == 0
    }

    /// Adds one token at the end.
    pub fn push(&mut self, t: Token)
        ensures
            final(self)@ == old(self)@.push(t@),
    {
        self.trees.push(t);
        assert(self@ =~= old(self)@.push(t@));
    }

    /// Adds an identifier at the end.
    pub fn push_ident(&mut self, name: &str)
        ensures
            final(self)@ == old(self)@.ident(name@),
    {
        self.push(Token::Ident(String::from_str(name)));
    }

    /// Adds a punctuation character that stands alone.
    pub fn push_punct(&mut self, c: char)
        ensures
            final(self)@ == old(self)@.punct(c),
    {
        self.push(Token::Punct(c, Spacing::Alone));
    }

    /// Adds a punctuation character glued to what follows.
    pub fn push_joint(&mut self, c: char)
        ensures
            final(self)@ == old(self)@.joint(c),
    {
        self.push(Token::Punct(c, Spacing::Joint));
    }

    /// Adds a literal with the given source text.
    pub fn push_literal(&mut self, text: &str)
        ensures
            final(self)@ == old(self)@.literal(text@),
    {
        self.push(Token::Literal(String::from_str(text)));
    }

    /// Adds a group around `inner`.
    pub fn push_group(&mut self, d: Delimiter, inner: TokenStream)
        ensures
            final(self)@ == old(self)@.group(d, inner@),
    {
        proof {
            lemma_group_view(d, inner);
        }
        self.push(Token::Group(d, inner));
    }

    /// Adds `( inner )`.
    pub fn push_parens(&mut self, inner: TokenStream)
        ensures
            final(self)@ == old(self)@.parens(inner@),
    {
        self.push_group(Delimiter::Parenthesis, inner);
    }

    /// Adds `{ inner }`.
    pub fn push_braces(&mut self, inner: TokenStream)
        ensures
            final(self)@ == old(self)@.braces(inner@),
    {
        self.push_group(Delimiter::Brace, inner);
    }

    /// Adds `[ inner ]`.
    pub fn push_brackets(&mut self, inner: TokenStream)
        ensures
            final(self)@ == old(self)@.brackets(inner@),
    {
        self.push_group(Delimiter::Bracket, inner);
    }

    /// Moves every token of `other` to the end of this stream.
    pub fn append(&mut self, other: TokenStream)
        ensures
            final(self)@ == old(self)@.splice(other@),
    {
        let mut rest = other.trees;
        self.trees.append(&mut rest);
        assert(self@ =~= old(self)@ + other@);
    }

    /// Copies every token of `other` to the end of this stream.
    pub fn append_copy(&mut self, other: &TokenStream)
        ensures
            final(self)@ == old(self)@.splice(other@),
    {
        self.append(other.clone());
    }

    /// Adds `::`.
    pub fn push_colon2(&mut self)
        ensures
            final(self)@ == old(self)@.colon2(),
    {
        self.push_joint(':');
        self.push_punct(':');
    }

    /// Adds `->`.
    pub fn push_arrow(&mut self)
        ensures
            final(self)@ == old(self)@.arrow(),
    {
        self.push_joint('-');
        self.push_punct('>');
    }

    /// Adds `=>`.
    pub fn push_fat_arrow(&mut self)
        ensures
            final(self)@ == old(self)@.fat_arrow(),
    {
        self.push_joint('=');
        self.push_punct('>');
    }

    /// Adds the lifetime `'name`.
    pub fn push_lifetime(&mut self, name: &str)
        ensures
            final(self)@ == old(self)@.lifetime(name@),
    {
        self.push_joint('\'');
        self.push_ident(name);
    }

    /// Adds the path segment `::name`.
    pub fn push_segment(&mut self, name: &str)
        ensures
            final(self)@ == old(self)@.segment(name@),
    {
        self.push_colon2();
        self.push_ident(name);
    }

    /// Adds the path `::core::module::item`.
    pub fn push_core(&mut self, module: &str, item: &str)
        ensures
            final(self)@ == old(self)@.core_path(module@, item@),
    {
        self.push_segment("core");
        self.push_segment(module);
        self.push_segment(item);
    }

    /// Adds the path `::ouroboros::macro_help::item`.
    pub fn push_help(&mut self, item: &str)
        ensures
            final(self)@ == old(self)@.help(item@),
    {
        self.push_segment("ouroboros");
        self.push_segment("macro_help");
        self.push_segment(item);
    }
}

/// Every token of every item, in order.
pub open spec fn concat(items: Seq<Seq<TokenTree>>) -> Seq<TokenTree>
    decreases items.len(),
{
    if items.len() == 0 {
        tokens()
    } else {
        concat(items.drop_last()).splice(items.last())
    }
}

/// The items in order, with `sep` between each two of them.
pub open spec fn separated(items: Seq<Seq<TokenTree>>, sep: char) -> Seq<TokenTree>
    decreases items.len(),
{
    if items.len() == 0 {
        tokens()
    } else if items.len() == 1 {
        tokens().splice(items[0])
    } else {
        separated(items.drop_last(), sep).punct(sep).splice(items.last())
    }
}

/// The items in order, each followed by `sep`.
pub open spec fn terminated(items: Seq<Seq<TokenTree>>, sep: char) -> Seq<TokenTree>
    decreases items.len(),
{
    if items.len() == 0 {
        tokens()
    } else {
        terminated(items.drop_last(), sep).splice(items.last()).punct(sep)
    }
}

/// Adds one stream at the end of a list of streams.
pub fn push_stream(list: &mut Vec<TokenStream>, item: TokenStream)
    ensures
        final(list).deep_view() == old(list).deep_view().push(item@),
{
    list.push(item);
    assert(list.deep_view() =~= old(list).deep_view().push(item@));
}

/// Puts one stream in front of a list of streams.
pub fn prepend_stream(list: &mut Vec<TokenStream>, item: TokenStream)
    ensures
        final(list).deep_view() == seq![item@] + old(list).deep_view(),
{
    list.insert(0, item);
    assert(list.deep_view() =~= seq![item@] + old(list).deep_view());
}

impl TokenStream {
    /// Joins the items without anything between them.
    pub fn concat(items: &Vec<TokenStream>) -> (r: TokenStream)
        ensures
            r@ == concat(items.deep_view()),
    {
        let ghost all = items.deep_view();
        let mut out = TokenStream::new();
        let mut i: usize = 0;
        while i < items.len()
            invariant
                i <= items.len(),
                all == items.deep_view(),
                out@ == concat(all.take(i as int)),
            decreases items.len() - i,
        {
            assert(all.take(i + 1).drop_last() =~= all.take(i as int));
            out.append_copy(&items[i]);
            i += 1;
        }
        assert(all.take(i as int) =~= all);
        out
    }

    /// Joins the items with `sep` between each two of them.
    pub fn separated(items: &Vec<TokenStream>, sep: char) -> (r: TokenStream)
        ensures
            r@ == separated(items.deep_view(), sep),
    {
        let ghost all = items.deep_view();
        let mut out = TokenStream::new();
        let mut i: usize = 0;
        while i < items.len()
            invariant
                i <= items.len(),
                all == items.deep_view(),
                out@ == separated(all.take(i as int), sep),
            decreases items.len() - i,
        {
            assert(all.take(i + 1).drop_last() =~= all.take(i as int));
            if i > 0 {
                out.push_punct(sep);
            }
            out.append_copy(&items[i]);
            i += 1;
        }
        assert(all.take(i as int) =~= all);
        out
    }

    /// Joins the items, each followed by `sep`.
    pub fn terminated(items: &Vec<TokenStream>, sep: char) -> (r: TokenStream)
        ensures
            r@ == terminated(items.deep_view(), sep),
    {
        let ghost all = items.deep_view();
        let mut out = TokenStream::new();
        let mut i: usize = 0;
        while i < items.len()
            invariant
                i <= items.len(),
                all == items.deep_view(),
                out@ == terminated(all.take(i as int), sep),
            decreases items.len() - i,
        {
            assert(all.take(i + 1).drop_last() =~= all.take(i as int));
            out.append_copy(&items[i]);
            out.push_punct(sep);
            i += 1;
        }
        assert(all.take(i as int) =~= all);
        out
    }
}

} // verus!
