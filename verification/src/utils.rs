//! Helpers on token streams, generics, visibilities and names.

use vstd::prelude::*;
use vstd::string::*;
use crate::syntax::{GenericParam, GenericParamKind, Generics, Visibility, VisibilityView, pub_super};
use crate::tokens::{Emit, Token, TokenStream, TokenTree, lemma_group_view, tokens};

verus! {

/// The snake-case form of a name, as the `Inflector` crate computes it.
pub uninterp spec fn snake_case_of(name: Seq<char>) -> Seq<char>;

/// The upper-case form of a character, which Unicode may spell with several.
pub uninterp spec fn uppercase_of(c: char) -> Seq<char>;

/// The lower-case form of a character, which Unicode may spell with several.
pub uninterp spec fn lowercase_of(c: char) -> Seq<char>;

/// Calls `inflector::cases::snakecase::to_snake_case`. The result is a
/// function of the characters of `name` alone; nothing else is claimed of it.
#[verifier::external_body]
pub(crate) fn to_snake_case(name: &str) -> (r: String)
    ensures
        r@ == snake_case_of(name@),
{
    inflector::cases::snakecase::to_snake_case(name)
}

/// Calls `char::to_uppercase` and collects what it yields. The result is a
/// function of `c` alone; nothing else is claimed of it.
#[verifier::external_body]
pub(crate) fn to_uppercase(c: char) -> (r: Vec<char>)
    ensures
        r@ == uppercase_of(c),
{
    c.to_uppercase().collect()
}

/// Calls `char::to_lowercase` and collects what it yields. The result is a
/// function of `c` alone; nothing else is claimed of it.
#[verifier::external_body]
pub(crate) fn to_lowercase(c: char) -> (r: Vec<char>)
    ensures
        r@ == lowercase_of(c),
{
    c.to_lowercase().collect()
}

/// Calls `String::from_iter` on the characters of `chars`: the string that
/// holds exactly these characters, in order.
#[verifier::external_body]
pub(crate) fn string_from_chars(chars: &Vec<char>) -> (r: String)
    ensures
        r@ == chars@,
{
    chars.iter().collect()
}

/// What the character at `i` contributes to the class-case form of `s`: nothing
/// for an underscore, its upper-case form at the start of a word, its
/// lower-case form elsewhere.
pub open spec fn class_case_piece(s: Seq<char>, i: int) -> Seq<char> {
    if s[i] == '_' {
        Seq::empty()
    } else if i == 0 || s[i - 1] == '_' {
        uppercase_of(s[i])
    } else {
        lowercase_of(s[i])
    }
}

/// The class-case form of the first `n` characters of `s`.
pub open spec fn class_case_upto(s: Seq<char>, n: int) -> Seq<char>
    decreases n,
{
    if n <= 0 {
        Seq::empty()
    } else {
        class_case_upto(s, n - 1) + class_case_piece(s, n - 1)
    }
}

/// The class-case form of `s`: its words, split at underscores, each with its
/// first character in upper case and the rest in lower case, joined.
pub open spec fn class_case(s: Seq<char>) -> Seq<char> {
    class_case_upto(s, s.len() as int)
}

/// One character of a name, with its upper-case and its lower-case form.
#[derive(Debug)]
pub struct CasedChar {
    pub original: char,
    pub upper: Vec<char>,
    pub lower: Vec<char>,
}

/// What the character at `i` contributes to the joined name: nothing for an
/// underscore, its upper-case form at the start of a word, its lower-case
/// form elsewhere.
pub open spec fn joined_piece(chars: Seq<CasedChar>, i: int) -> Seq<char> {
    if chars[i].original == '_' {
        Seq::empty()
    } else if i == 0 || chars[i - 1].original == '_' {
        chars[i].upper@
    } else {
        chars[i].lower@
    }
}

/// What the first `n` characters contribute to the joined name.
pub open spec fn joined_upto(chars: Seq<CasedChar>, n: int) -> Seq<char>
    decreases n,
{
    if n <= 0 {
        Seq::empty()
    } else {
        joined_upto(chars, n - 1) + joined_piece(chars, n - 1)
    }
}

/// The name in class case, given each of its characters with its two case
/// forms: the underscores are left out, the character after an underscore
/// and the first one stand in their upper-case form, the others in their
/// lower-case form.
pub open spec fn class_case_joined(chars: Seq<CasedChar>) -> Seq<char> {
    joined_upto(chars, chars.len() as int)
}

/// Where every character comes with the case forms that the standard library
/// gives it, the joined name is the class-case form of the characters.
pub proof fn lemma_joined_is_class_case(chars: Seq<CasedChar>, s: Seq<char>, n: int)
    requires
        0 <= n <= s.len(),
        chars.len() == s.len(),
        forall|i: int|
            0 <= i < s.len() ==> {
                &&& (#[trigger] chars[i]).original == s[i]
                &&& chars[i].upper@ == uppercase_of(s[i])
                &&& chars[i].lower@ == lowercase_of(s[i])
            },
    ensures
        joined_upto(chars, n) == class_case_upto(s, n),
    decreases n,
{
    if n > 0 {
        lemma_joined_is_class_case(chars, s, n - 1);
        assert(chars[n - 1].original == s[n - 1]);
        if n > 1 {
            assert(chars[n - 2].original == s[n - 2]);
        }
    }
}

/// Where no case form holds an underscore, the joined name holds none.
pub proof fn lemma_joined_has_no_underscore(chars: Seq<CasedChar>, n: int)
    requires
        0 <= n <= chars.len(),
        forall|i: int|
            0 <= i < chars.len() ==> !(#[trigger] chars[i]).upper@.contains('_')
                && !chars[i].lower@.contains('_'),
    ensures
        !joined_upto(chars, n).contains('_'),
    decreases n,
{
    if n > 0 {
        lemma_joined_has_no_underscore(chars, n - 1);
        let before = joined_upto(chars, n - 1);
        let piece = joined_piece(chars, n - 1);
        assert(!chars[n - 1].upper@.contains('_') && !chars[n - 1].lower@.contains('_'));
        assert(!piece.contains('_'));
        if (before + piece).contains('_') {
            let k = choose|k: int| 0 <= k < (before + piece).len() && (before + piece)[k] == '_';
            if k < before.len() {
                assert(before[k] == '_');
            } else {
                assert(piece[k - before.len()] == '_');
            }
        }
    }
}

/// Where every case form is one character, the joined name has one character
/// for each character that is no underscore.
pub proof fn lemma_joined_length(chars: Seq<CasedChar>, n: int)
    requires
        0 <= n <= chars.len(),
        forall|i: int|
            0 <= i < chars.len() ==> (#[trigger] chars[i]).upper@.len() == 1 && chars[i].lower@.len()
                == 1,
    ensures
        joined_upto(chars, n).len() == n - underscores_upto(chars, n),
    decreases n,
{
    if n > 0 {
        lemma_joined_length(chars, n - 1);
        assert(chars[n - 1].upper@.len() == 1 && chars[n - 1].lower@.len() == 1);
    }
}

/// How many of the first `n` characters are underscores.
pub open spec fn underscores_upto(chars: Seq<CasedChar>, n: int) -> int
    decreases n,
{
    if n <= 0 {
        0
    } else if chars[n - 1].original == '_' {
        underscores_upto(chars, n - 1) + 1
    } else {
        underscores_upto(chars, n - 1)
    }
}

/// Joins the characters of a name into its class-case form, given each
/// character with its two case forms.
pub fn join_class_case(chars: &Vec<CasedChar>) -> (r: String)
    ensures
        r@ == class_case_joined(chars@),
{
    let mut out: Vec<char> = Vec::new();
    let mut at_start = true;
    let mut i: usize = 0;
    while i < chars.len()
        invariant
            i <= chars.len(),
            out@ == joined_upto(chars@, i as int),
            at_start == (i == 0 || chars[i - 1].original == '_'),
        decreases chars.len() - i,
    {
        let cased = &chars[i];
        if cased.original == '_' {
            at_start = true;
            assert(out@ + joined_piece(chars@, i as int) =~= out@);
        } else {
            let piece = if at_start {
                &cased.upper
            } else {
                &cased.lower
            };
            let mut k: usize = 0;
            let ghost before = out@;
            while k < piece.len()
                invariant
                    k <= piece.len(),
                    out@ == before + piece@.take(k as int),
                decreases piece.len() - k,
            {
                out.push(piece[k]);
                k += 1;
                assert(out@ =~= before + piece@.take(k as int));
            }
            assert(piece@.take(k as int) =~= piece@);
            at_start = false;
        }
        i += 1;
    }
    string_from_chars(&out)
}

/// Turns `snake_case` into `ClassCase`.
pub fn to_class_case(s: &str) -> (r: String)
    ensures
        r@ == class_case(s@),
{
    let n = s.unicode_len();
    let mut chars: Vec<CasedChar> = Vec::new();
    let mut i: usize = 0;
    while i < n
        invariant
            n == s@.len(),
            i <= n,
            chars.len() == i,
            forall|j: int|
                0 <= j < i ==> {
                    &&& (#[trigger] chars[j]).original == s@[j]
                    &&& chars[j].upper@ == uppercase_of(s@[j])
                    &&& chars[j].lower@ == lowercase_of(s@[j])
                },
        decreases n - i,
    {
        let c = s.get_char(i);
        // One character may become several when its case changes.
        chars.push(CasedChar { original: c, upper: to_uppercase(c), lower: to_lowercase(c) });
        i += 1;
    }
    proof {
        lemma_joined_is_class_case(chars@, s@, n as int);
    }
    join_class_case(&chars)
}

/// Whether an identifier `this` occurs anywhere in the trees, inside groups too.
pub open spec fn mentions_this(ts: Seq<TokenTree>) -> bool
    decreases ts,
{
    exists|i: int| 0 <= i < ts.len() && tree_mentions_this(#[trigger] ts[i])
}

/// Whether a tree is the identifier `this`, or a group that holds it.
pub open spec fn tree_mentions_this(t: TokenTree) -> bool
    decreases t,
{
    match t {
        TokenTree::Ident(s) => s == "this"@,
        TokenTree::Group(_d, inner) => mentions_this(inner),
        _ => false,
    }
}

/// Whether the stream names the self-lifetime `'this`.
pub fn uses_this_lifetime(input: &TokenStream) -> (r: bool)
    ensures
        r == mentions_this(input@),
    decreases input,
{
    let mut i: usize = 0;
    while i < input.trees.len()
        invariant
            i <= input.trees.len(),
            forall|j: int| 0 <= j < i ==> !tree_mentions_this(#[trigger] input@[j]),
        decreases input.trees.len() - i,
    {
        match &input.trees[i] {
            Token::Ident(name) => {
                if *name == String::from_str("this") {
                    assert(tree_mentions_this(input@[i as int]));
                    return true;
                }
            },
            Token::Group(d, inner) => {
                proof {
                    lemma_group_view(*d, *inner);
                }
                if uses_this_lifetime(inner) {
                    assert(tree_mentions_this(input@[i as int]));
                    return true;
                }
            },
            _ => {},
        }
        i += 1;
    }
    false
}

/// The trees with every identifier `this` replaced by `lifetime`, inside
/// groups too.
pub open spec fn replace_this(ts: Seq<TokenTree>, lifetime: Seq<char>) -> Seq<TokenTree>
    decreases ts,
{
    Seq::new(
        ts.len(),
        |i: int|
            if 0 <= i < ts.len() {
                replace_this_in_tree(ts[i], lifetime)
            } else {
                TokenTree::Punct(' ', crate::tokens::Spacing::Alone)
            },
    )
}

/// One tree with every identifier `this` replaced by `lifetime`.
pub open spec fn replace_this_in_tree(t: TokenTree, lifetime: Seq<char>) -> TokenTree
    decreases t,
{
    match t {
        TokenTree::Ident(s) => if s == "this"@ {
            TokenTree::Ident(lifetime)
        } else {
            t
        },
        TokenTree::Group(d, inner) => TokenTree::Group(d, replace_this(inner, lifetime)),
        _ => t,
    }
}

/// Writes `lifetime` wherever the stream names the self-lifetime `'this`.
pub fn replace_this_with_lifetime(input: &TokenStream, lifetime: &str) -> (r: TokenStream)
    ensures
        r@ == replace_this(input@, lifetime@),
    decreases input,
{
    let mut out = TokenStream::new();
    let mut i: usize = 0;
    while i < input.trees.len()
        invariant
            i <= input.trees.len(),
            out@.len() == i,
            forall|j: int| 0 <= j < i ==> out@[j] == replace_this_in_tree(input@[j], lifetime@),
        decreases input.trees.len() - i,
    {
        match &input.trees[i] {
            Token::Ident(name) => {
                if *name == String::from_str("this") {
                    out.push_ident(lifetime);
                } else {
                    out.push(Token::Ident(name.clone()));
                }
            },
            Token::Group(d, inner) => {
                proof {
                    lemma_group_view(*d, *inner);
                }
                let replaced = replace_this_with_lifetime(inner, lifetime);
                out.push_group(*d, replaced);
            },
            other => {
                out.push(other.clone());
            },
        }
        i += 1;
    }
    assert(out@ =~= replace_this(input@, lifetime@));
    out
}

/// The argument that fills the place of a generic parameter: its name, with
/// the quote in front for a lifetime.
pub open spec fn generic_argument(param: GenericParam) -> Seq<TokenTree> {
    match param.kind {
        GenericParamKind::Lifetime => tokens().lifetime(param.ident@),
        _ => tokens().ident(param.ident@),
    }
}

/// The arguments that fill the places of the parameters, in order.
pub open spec fn generic_arguments(generics: Generics) -> Seq<Seq<TokenTree>> {
    Seq::new(generics.params.len() as nat, |i: int| generic_argument(generics.params[i]))
}

/// Turns the generic parameters of the struct into arguments.
pub fn make_generic_arguments(generics: &Generics) -> (arguments: Vec<TokenStream>)
    ensures
        arguments.deep_view() == generic_arguments(*generics),
{
    let mut arguments: Vec<TokenStream> = Vec::new();
    let mut i: usize = 0;
    while i < generics.params.len()
        invariant
            i <= generics.params.len(),
            arguments.len() == i,
            forall|j: int|
                0 <= j < i ==> (#[trigger] arguments[j])@ == generic_argument(generics.params[j]),
        decreases generics.params.len() - i,
    {
        let param = &generics.params[i];
        let mut argument = TokenStream::new();
        match param.kind {
            GenericParamKind::Lifetime => {
                argument.push_lifetime(param.ident.as_str());
            },
            _ => {
                argument.push_ident(param.ident.as_str());
            },
        }
        arguments.push(argument);
        i += 1;
    }
    assert(arguments.deep_view() =~= generic_arguments(*generics));
    arguments
}

/// The type of the marker field that uses up a generic parameter.
pub open spec fn consumer_type(param: GenericParam) -> Seq<TokenTree> {
    match param.kind {
        GenericParamKind::Type => tokens().ident(param.ident@),
        GenericParamKind::Lifetime => tokens().punct('&').lifetime(param.ident@).parens(tokens()),
        GenericParamKind::Const => tokens().parens(tokens()),
    }
}

/// The name of the marker field that uses up a generic parameter.
pub open spec fn consumer_name(param: GenericParam) -> Seq<char> {
    match param.kind {
        GenericParamKind::Type => "_consume_template_type_"@ + snake_case_of(param.ident@),
        GenericParamKind::Lifetime => "_consume_template_lifetime_"@ + param.ident@,
        GenericParamKind::Const => "_comsume_template_const_parameter_"@ + snake_case_of(
            param.ident@,
        ),
    }
}

/// Makes the marker fields, one for each generic parameter, that keep the
/// generated structs from leaving a parameter unused: for each, its type and
/// its name.
pub fn make_generic_consumers(generics: &Generics) -> (consumers: Vec<(TokenStream, String)>)
    ensures
        consumers.len() == generics.params.len(),
        forall|j: int|
            0 <= j < consumers.len() ==> {
                &&& (#[trigger] consumers[j]).0@ == consumer_type(generics.params[j])
                &&& consumers[j].1@ == consumer_name(generics.params[j])
            },
{
    let mut consumers: Vec<(TokenStream, String)> = Vec::new();
    let mut i: usize = 0;
    while i < generics.params.len()
        invariant
            i <= generics.params.len(),
            consumers.len() == i,
            forall|j: int|
                0 <= j < i ==> {
                    &&& (#[trigger] consumers[j]).0@ == consumer_type(generics.params[j])
                    &&& consumers[j].1@ == consumer_name(generics.params[j])
                },
        decreases generics.params.len() - i,
    {
        let param = &generics.params[i];
        let mut ty = TokenStream::new();
        let name = match param.kind {
            GenericParamKind::Type => {
                ty.push_ident(param.ident.as_str());
                let snake = to_snake_case(param.ident.as_str());
                String::from_str("_consume_template_type_").concat(snake.as_str())
            },
            GenericParamKind::Lifetime => {
                ty.push_punct('&');
                ty.push_lifetime(param.ident.as_str());
                ty.push_parens(TokenStream::new());
                String::from_str("_consume_template_lifetime_").concat(param.ident.as_str())
            },
            GenericParamKind::Const => {
                ty.push_parens(TokenStream::new());
                let snake = to_snake_case(param.ident.as_str());
                String::from_str("_comsume_template_const_parameter_").concat(snake.as_str())
            },
        };
        consumers.push((ty, name));
        i += 1;
    }
    consumers
}

/// The visibility that an item needs inside the hidden module so that it can
/// be seen from where the struct was declared: one more `super` for what was
/// private or relative to `super`, and the same for the rest.
pub open spec fn submodule_visibility(vis: VisibilityView) -> VisibilityView {
    match vis {
        VisibilityView::Inherited => pub_super(),
        VisibilityView::Restricted { in_token, path } => if path.len() > 0 && path[0]
            == TokenTree::Ident("super"@) {
            VisibilityView::Restricted {
                in_token: true,
                path: tokens().ident("super"@).colon2().splice(path),
            }
        } else {
            vis
        },
        _ => vis,
    }
}

/// Adjusts a visibility for an item that moves one module down.
pub fn submodule_contents_visiblity(original_visibility: &Visibility) -> (r: Visibility)
    ensures
        r@ == submodule_visibility(original_visibility@),
{
    match original_visibility {
        Visibility::Inherited => Visibility::pub_super(),
        Visibility::Restricted { in_token, path } => {
            let starts_with_super = if path.trees.len() > 0 {
                match &path.trees[0] {
                    Token::Ident(name) => *name == String::from_str("super"),
                    _ => false,
                }
            } else {
                false
            };
            if starts_with_super {
                let mut longer = TokenStream::new();
                longer.push_ident("super");
                longer.push_colon2();
                longer.append_copy(path);
                Visibility::Restricted { in_token: true, path: longer }
            } else {
                original_visibility.clone()
            }
        },
        _ => original_visibility.clone(),
    }
}

/// The character that stands for a digit.
pub open spec fn digit_char(d: int) -> char {
    if d == 0 {
        '0'
    } else if d == 1 {
        '1'
    } else if d == 2 {
        '2'
    } else if d == 3 {
        '3'
    } else if d == 4 {
        '4'
    } else if d == 5 {
        '5'
    } else if d == 6 {
        '6'
    } else if d == 7 {
        '7'
    } else if d == 8 {
        '8'
    } else {
        '9'
    }
}

/// A number written in decimal digits, without leading zeros.
pub open spec fn decimal(n: nat) -> Seq<char>
    decreases n,
{
    if n < 10 {
        seq![digit_char(n as int)]
    } else {
        decimal(n / 10).push(digit_char((n % 10) as int))
    }
}

fn push_decimal(n: usize, out: &mut Vec<char>)
    ensures
        final(out)@ == old(out)@ + decimal(n as nat),
    decreases n,
{
    if n >= 10 {
        push_decimal(n / 10, out);
    }
    let d = n % 10;
    let c = if d == 0 {
        '0'
    } else if d == 1 {
        '1'
    } else if d == 2 {
        '2'
    } else if d == 3 {
        '3'
    } else if d == 4 {
        '4'
    } else if d == 5 {
        '5'
    } else if d == 6 {
        '6'
    } else if d == 7 {
        '7'
    } else if d == 8 {
        '8'
    } else {
        '9'
    };
    out.push(c);
    assert(out@ =~= old(out)@ + decimal(n as nat));
}

/// Writes a number in decimal digits.
pub fn to_decimal(n: usize) -> (r: String)
    ensures
        r@ == decimal(n as nat),
{
    let mut digits: Vec<char> = Vec::new();
    push_decimal(n, &mut digits);
    assert(digits@ =~= decimal(n as nat));
    string_from_chars(&digits)
}

} // verus!
