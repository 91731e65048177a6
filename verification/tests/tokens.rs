use ouroboros_macro::tokens::{push_stream, prepend_stream, Delimiter, Spacing, Token, TokenStream};

fn ident(name: &str) -> Token {
    Token::Ident(name.to_string())
}

fn alone(c: char) -> Token {
    Token::Punct(c, Spacing::Alone)
}

fn joint(c: char) -> Token {
    Token::Punct(c, Spacing::Joint)
}

fn stream(trees: Vec<Token>) -> TokenStream {
    TokenStream { trees }
}

#[test]
fn new_stream_is_empty() {
    let out = TokenStream::new();
    assert!(out.is_empty());
    assert_eq!(out.trees.len(), 0);
}

#[test]
fn push_adds_at_the_end() {
    let mut out = TokenStream::new();
    out.push_ident("let");
    out.push_punct('=');
    out.push_joint('&');
    out.push_literal("\"text\"");
    out.push(ident("x"));
    assert!(!out.is_empty());
    assert_eq!(
        out,
        stream(vec![
            ident("let"),
            alone('='),
            joint('&'),
            Token::Literal("\"text\"".to_string()),
            ident("x"),
        ])
    );
}

#[test]
fn groups_hold_their_members() {
    let mut inner = TokenStream::new();
    inner.push_ident("a");
    let mut out = TokenStream::new();
    out.push_parens(inner.clone());
    out.push_braces(inner.clone());
    out.push_brackets(inner.clone());
    out.push_group(Delimiter::Invisible, inner.clone());
    assert_eq!(
        out,
        stream(vec![
            Token::Group(Delimiter::Parenthesis, inner.clone()),
            Token::Group(Delimiter::Brace, inner.clone()),
            Token::Group(Delimiter::Bracket, inner.clone()),
            Token::Group(Delimiter::Invisible, inner),
        ])
    );
}

#[test]
fn compound_punctuation_is_glued() {
    let mut out = TokenStream::new();
    out.push_colon2();
    out.push_arrow();
    out.push_fat_arrow();
    assert_eq!(
        out,
        stream(vec![
            joint(':'),
            alone(':'),
            joint('-'),
            alone('>'),
            joint('='),
            alone('>'),
        ])
    );
}

#[test]
fn lifetime_is_a_quote_and_a_name() {
    let mut out = TokenStream::new();
    out.push_lifetime("this");
    assert_eq!(out, stream(vec![joint('\''), ident("this")]));
}

#[test]
fn paths_are_made_of_segments() {
    let mut out = TokenStream::new();
    out.push_segment("alloc");
    assert_eq!(out, stream(vec![joint(':'), alone(':'), ident("alloc")]));
    let mut core = TokenStream::new();
    core.push_core("mem", "drop");
    assert_eq!(
        core,
        stream(vec![
            joint(':'),
            alone(':'),
            ident("core"),
            joint(':'),
            alone(':'),
            ident("mem"),
            joint(':'),
            alone(':'),
            ident("drop"),
        ])
    );
    let mut help = TokenStream::new();
    help.push_help("unbox");
    assert_eq!(
        help,
        stream(vec![
            joint(':'),
            alone(':'),
            ident("ouroboros"),
            joint(':'),
            alone(':'),
            ident("macro_help"),
            joint(':'),
            alone(':'),
            ident("unbox"),
        ])
    );
}

#[test]
fn append_moves_and_append_copy_copies() {
    let mut tail = TokenStream::new();
    tail.push_ident("b");
    tail.push_ident("c");
    let mut out = TokenStream::new();
    out.push_ident("a");
    out.append_copy(&tail);
    out.append(tail.clone());
    assert_eq!(
        out,
        stream(vec![ident("a"), ident("b"), ident("c"), ident("b"), ident("c")])
    );
    assert_eq!(tail.trees.len(), 2);
}

#[test]
fn clone_copies_nested_groups() {
    let mut innermost = TokenStream::new();
    innermost.push_ident("deep");
    let mut inner = TokenStream::new();
    inner.push_braces(innermost);
    inner.push_punct(',');
    let mut out = TokenStream::new();
    out.push_parens(inner);
    out.push_literal("1");
    let copy = out.clone();
    assert_eq!(copy, out);
    let token = out.trees[0].clone();
    assert_eq!(token, out.trees[0]);
}

#[test]
fn concat_joins_without_separator() {
    let items = vec![
        stream(vec![ident("a")]),
        stream(vec![]),
        stream(vec![ident("b"), ident("c")]),
    ];
    assert_eq!(
        TokenStream::concat(&items),
        stream(vec![ident("a"), ident("b"), ident("c")])
    );
    assert_eq!(TokenStream::concat(&Vec::new()), stream(vec![]));
}

#[test]
fn separated_puts_the_separator_between_items() {
    let items = vec![
        stream(vec![ident("a")]),
        stream(vec![ident("b")]),
        stream(vec![ident("c")]),
    ];
    assert_eq!(
        TokenStream::separated(&items, ','),
        stream(vec![ident("a"), alone(','), ident("b"), alone(','), ident("c")])
    );
    assert_eq!(
        TokenStream::separated(&items[..1].to_vec().into_iter().collect(), ','),
        stream(vec![ident("a")])
    );
    assert_eq!(TokenStream::separated(&Vec::new(), ','), stream(vec![]));
}

#[test]
fn terminated_puts_the_separator_after_each_item() {
    let items = vec![stream(vec![ident("a")]), stream(vec![ident("b")])];
    assert_eq!(
        TokenStream::terminated(&items, ';'),
        stream(vec![ident("a"), alone(';'), ident("b"), alone(';')])
    );
    assert_eq!(TokenStream::terminated(&Vec::new(), ';'), stream(vec![]));
}

#[test]
fn lists_grow_at_either_end() {
    let mut list = vec![stream(vec![ident("b")])];
    push_stream(&mut list, stream(vec![ident("c")]));
    prepend_stream(&mut list, stream(vec![ident("a")]));
    assert_eq!(
        list,
        vec![
            stream(vec![ident("a")]),
            stream(vec![ident("b")]),
            stream(vec![ident("c")]),
        ]
    );
}
