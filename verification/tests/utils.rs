use ouroboros_macro::syntax::{GenericParam, GenericParamKind, Generics, Visibility};
use ouroboros_macro::tokens::{Delimiter, Spacing, Token, TokenStream};
use ouroboros_macro::utils::{
    join_class_case, CasedChar, make_generic_arguments, make_generic_consumers, replace_this_with_lifetime,
    submodule_contents_visiblity, to_class_case, to_decimal, uses_this_lifetime,
};

fn ident(name: &str) -> Token {
    Token::Ident(name.to_string())
}

fn alone(c: char) -> Token {
    Token::Punct(c, Spacing::Alone)
}

fn joint(c: char) -> Token {
    Token::Punct(c, Spacing::Joint)
}

fn stream(trees: Vec<Token>) -> TokenStream {
    TokenStream { trees }
}

fn param(kind: GenericParamKind, name: &str, tokens: Vec<Token>) -> GenericParam {
    GenericParam {
        kind,
        ident: name.to_string(),
        tokens: stream(tokens),
        has_bounds: false,
        default: stream(vec![]),
    }
}

#[test]
fn class_case_joins_capitalised_words() {
    assert_eq!(to_class_case("foo_bar"), "FooBar");
    assert_eq!(to_class_case("data"), "Data");
    assert_eq!(to_class_case("a_b_c"), "ABC");
}

#[test]
fn class_case_lowers_the_rest_of_each_word() {
    assert_eq!(to_class_case("fooBAR_bAZ"), "FoobarBaz");
}

#[test]
fn class_case_skips_empty_words() {
    assert_eq!(to_class_case("__foo__bar_"), "FooBar");
    assert_eq!(to_class_case(""), "");
    assert_eq!(to_class_case("___"), "");
}

#[test]
fn class_case_keeps_digits() {
    assert_eq!(to_class_case("ref_2"), "Ref2");
}

#[test]
fn class_case_follows_unicode() {
    // One character may become several when its case changes.
    assert_eq!(to_class_case("ßa_é"), "SSaÉ");
}

#[test]
fn decimal_has_no_leading_zeros() {
    assert_eq!(to_decimal(0), "0");
    assert_eq!(to_decimal(7), "7");
    assert_eq!(to_decimal(10), "10");
    assert_eq!(to_decimal(409), "409");
    assert_eq!(to_decimal(1234567890), "1234567890");
}

#[test]
fn this_is_found_at_the_top_level() {
    assert!(uses_this_lifetime(&stream(vec![
        alone('&'),
        joint('\''),
        ident("this"),
        ident("i32"),
    ])));
}

#[test]
fn this_is_found_inside_groups() {
    let inner = stream(vec![alone('&'), joint('\''), ident("this"), ident("i32")]);
    let middle = stream(vec![Token::Group(Delimiter::Parenthesis, inner)]);
    let outer = stream(vec![
        ident("Box"),
        alone('<'),
        Token::Group(Delimiter::Bracket, middle),
        alone('>'),
    ]);
    assert!(uses_this_lifetime(&outer));
}

#[test]
fn other_names_are_not_this() {
    assert!(!uses_this_lifetime(&stream(vec![])));
    assert!(!uses_this_lifetime(&stream(vec![
        alone('&'),
        joint('\''),
        ident("a"),
        ident("thistle"),
        Token::Literal("\"this\"".to_string()),
        Token::Group(Delimiter::Brace, stream(vec![ident("that")])),
    ])));
}

#[test]
fn this_is_replaced_everywhere() {
    let inner = stream(vec![alone('&'), joint('\''), ident("this"), ident("i32")]);
    let input = stream(vec![
        alone('&'),
        joint('\''),
        ident("this"),
        ident("Box"),
        alone('<'),
        Token::Group(Delimiter::Parenthesis, inner),
        alone('>'),
        ident("thistle"),
    ]);
    let replaced_inner = stream(vec![alone('&'), joint('\''), ident("static"), ident("i32")]);
    let expected = stream(vec![
        alone('&'),
        joint('\''),
        ident("static"),
        ident("Box"),
        alone('<'),
        Token::Group(Delimiter::Parenthesis, replaced_inner),
        alone('>'),
        ident("thistle"),
    ]);
    assert_eq!(replace_this_with_lifetime(&input, "static"), expected);
}

#[test]
fn replacing_leaves_a_stream_without_this_unchanged() {
    let input = stream(vec![
        ident("Vec"),
        alone('<'),
        ident("u8"),
        alone('>'),
        Token::Group(Delimiter::Invisible, stream(vec![Token::Literal("1".to_string())])),
    ]);
    assert_eq!(replace_this_with_lifetime(&input, "a"), input);
}

#[test]
fn generic_arguments_name_the_parameters() {
    let generics = Generics {
        params: vec![
            param(GenericParamKind::Lifetime, "a", vec![joint('\''), ident("a")]),
            param(
                GenericParamKind::Type,
                "T",
                vec![ident("T"), alone(':'), ident("Clone")],
            ),
            param(
                GenericParamKind::Const,
                "N",
                vec![ident("const"), ident("N"), alone(':'), ident("usize")],
            ),
        ],
        where_clause: None,
    };
    assert_eq!(
        make_generic_arguments(&generics),
        vec![
            stream(vec![joint('\''), ident("a")]),
            stream(vec![ident("T")]),
            stream(vec![ident("N")]),
        ]
    );
}

#[test]
fn generic_consumers_use_every_parameter() {
    let generics = Generics {
        params: vec![
            param(GenericParamKind::Lifetime, "long", vec![joint('\''), ident("long")]),
            param(GenericParamKind::Type, "FooBar", vec![ident("FooBar")]),
            param(
                GenericParamKind::Const,
                "REV",
                vec![ident("const"), ident("REV"), alone(':'), ident("bool")],
            ),
        ],
        where_clause: None,
    };
    let unit = Token::Group(Delimiter::Parenthesis, stream(vec![]));
    assert_eq!(
        make_generic_consumers(&generics),
        vec![
            (
                stream(vec![alone('&'), joint('\''), ident("long"), unit.clone()]),
                "_consume_template_lifetime_long".to_string(),
            ),
            (
                stream(vec![ident("FooBar")]),
                // The name is put in snake case.
                "_consume_template_type_foo_bar".to_string(),
            ),
            (
                stream(vec![unit]),
                "_comsume_template_const_parameter_rev".to_string(),
            ),
        ]
    );
}

#[test]
fn generics_render_with_defaults_and_where_clause() {
    let mut with_default = param(
        GenericParamKind::Type,
        "T",
        vec![ident("T"), alone(':'), ident("Clone")],
    );
    with_default.has_bounds = true;
    with_default.default = stream(vec![alone('='), ident("u8")]);
    let generics = Generics {
        params: vec![
            param(GenericParamKind::Lifetime, "a", vec![joint('\''), ident("a")]),
            with_default,
        ],
        where_clause: Some(vec![
            stream(vec![ident("T"), alone(':'), joint('\''), ident("a")]),
            stream(vec![ident("T"), alone(':'), ident("Send")]),
        ]),
    };
    assert_eq!(
        generics.params_tokens(),
        stream(vec![
            joint('\''),
            ident("a"),
            alone(','),
            ident("T"),
            alone(':'),
            ident("Clone"),
            alone('='),
            ident("u8"),
        ])
    );
    assert_eq!(
        generics.where_tokens(),
        stream(vec![
            ident("where"),
            ident("T"),
            alone(':'),
            joint('\''),
            ident("a"),
            alone(','),
            ident("T"),
            alone(':'),
            ident("Send"),
        ])
    );
    let bare = Generics {
        params: vec![],
        where_clause: None,
    };
    assert_eq!(bare.params_tokens(), stream(vec![]));
    assert_eq!(bare.where_tokens(), stream(vec![]));
}

#[test]
fn private_items_become_visible_to_the_parent() {
    assert_eq!(
        submodule_contents_visiblity(&Visibility::Inherited),
        Visibility::Restricted {
            in_token: false,
            path: stream(vec![ident("super")]),
        }
    );
}

#[test]
fn paths_relative_to_super_get_one_more_super() {
    let restricted = Visibility::Restricted {
        in_token: false,
        path: stream(vec![ident("super")]),
    };
    assert_eq!(
        submodule_contents_visiblity(&restricted),
        Visibility::Restricted {
            in_token: true,
            path: stream(vec![ident("super"), joint(':'), alone(':'), ident("super")]),
        }
    );
    let longer = Visibility::Restricted {
        in_token: true,
        path: stream(vec![ident("super"), joint(':'), alone(':'), ident("a")]),
    };
    assert_eq!(
        submodule_contents_visiblity(&longer),
        Visibility::Restricted {
            in_token: true,
            path: stream(vec![
                ident("super"),
                joint(':'),
                alone(':'),
                ident("super"),
                joint(':'),
                alone(':'),
                ident("a"),
            ]),
        }
    );
}

#[test]
fn absolute_visibilities_stay() {
    assert_eq!(
        submodule_contents_visiblity(&Visibility::Public),
        Visibility::Public
    );
    assert_eq!(
        submodule_contents_visiblity(&Visibility::Crate),
        Visibility::Crate
    );
    let in_crate = Visibility::Restricted {
        in_token: false,
        path: stream(vec![ident("crate")]),
    };
    assert_eq!(submodule_contents_visiblity(&in_crate), in_crate.clone());
    let absolute = Visibility::Restricted {
        in_token: true,
        path: stream(vec![joint(':'), alone(':'), ident("super")]),
    };
    assert_eq!(submodule_contents_visiblity(&absolute), absolute.clone());
}

#[test]
fn visibilities_are_written_as_declared() {
    assert_eq!(Visibility::Public.to_tokens(), stream(vec![ident("pub")]));
    assert_eq!(Visibility::Crate.to_tokens(), stream(vec![ident("crate")]));
    assert_eq!(Visibility::Inherited.to_tokens(), stream(vec![]));
    assert_eq!(
        Visibility::pub_super().to_tokens(),
        stream(vec![
            ident("pub"),
            Token::Group(Delimiter::Parenthesis, stream(vec![ident("super")])),
        ])
    );
    let in_path = Visibility::Restricted {
        in_token: true,
        path: stream(vec![ident("crate"), joint(':'), alone(':'), ident("a")]),
    };
    assert_eq!(
        in_path.to_tokens(),
        stream(vec![
            ident("pub"),
            Token::Group(
                Delimiter::Parenthesis,
                stream(vec![
                    ident("in"),
                    ident("crate"),
                    joint(':'),
                    alone(':'),
                    ident("a"),
                ]),
            ),
        ])
    );
}

fn cased(original: char, upper: &str, lower: &str) -> CasedChar {
    CasedChar {
        original,
        upper: upper.chars().collect(),
        lower: lower.chars().collect(),
    }
}

#[test]
fn joining_picks_the_case_form_by_place() {
    let chars = vec![
        cased('d', "D", "d"),
        cased('R', "R", "r"),
        cased('_', "_", "_"),
        cased('_', "_", "_"),
        cased('e', "E", "e"),
        cased('F', "F", "f"),
    ];
    assert_eq!(join_class_case(&chars), "DrEf");
}

#[test]
fn joining_uses_the_forms_it_is_given() {
    // The forms need not be those of the character, and may be several
    // characters or none.
    let chars = vec![
        cased('a', "XY", "z"),
        cased('b', "Q", ""),
        cased('c', "Q", "lower"),
        cased('_', "never", "never"),
        cased('d', "", "never"),
        cased('e', "never", "e"),
    ];
    assert_eq!(join_class_case(&chars), "XYlowere");
    assert_eq!(join_class_case(&Vec::new()), "");
}
