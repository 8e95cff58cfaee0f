//! Expansion behavior: both syntaxes, global-only mode, nested invocations.

use duplicate::{
    duplicate_impl, expand_tokens, inline_macro_impl, parse_invocation, substitute_impl, Delim,
    Token,
};

fn id(s: &str) -> Token {
    Token::Ident(s.to_string(), 0)
}

fn punct(c: char) -> Token {
    Token::Punct(c, true, 0)
}

fn lit(s: &str) -> Token {
    Token::Lit(s.to_string(), 0)
}

fn bracket(body: Vec<Token>) -> Token {
    Token::Group(Delim::Bracket, body, 0)
}

fn paren(body: Vec<Token>) -> Token {
    Token::Group(Delim::Paren, body, 0)
}

fn brace(body: Vec<Token>) -> Token {
    Token::Group(Delim::Brace, body, 0)
}

fn tok_eq(a: &Token, b: &Token) -> bool {
    match (a, b) {
        (Token::Ident(x, sa), Token::Ident(y, sb)) => x == y && sa == sb,
        (Token::Punct(x, ax, sa), Token::Punct(y, ay, sb)) => x == y && ax == ay && sa == sb,
        (Token::Lit(x, sa), Token::Lit(y, sb)) => x == y && sa == sb,
        (Token::Group(da, ba, sa), Token::Group(db, bb, sb)) => {
            da == db && sa == sb && toks_eq(ba, bb)
        },
        _ => false,
    }
}

fn toks_eq(a: &[Token], b: &[Token]) -> bool {
    a.len() == b.len() && a.iter().zip(b.iter()).all(|(x, y)| tok_eq(x, y))
}

fn struct_item(name: &str, member: Option<&str>) -> Vec<Token> {
    match member {
        Some(m) => vec![
            id("pub"),
            id("struct"),
            id(name),
            paren(vec![id(m)]),
            punct(';'),
        ],
        None => vec![id("pub"), id("struct"), id(name), paren(vec![]), punct(';')],
    }
}

/// Expansions in both syntaxes and the global-only mode.
#[test]
fn test_expansions() {
    // name; [SomeName1];
    let attr = vec![id("name"), punct(';'), bracket(vec![id("SomeName1")]), punct(';')];
    let out = duplicate_impl(&attr, &struct_item("name", None)).unwrap();
    assert!(toks_eq(&out, &struct_item("SomeName1", None)));

    // name member; [SomeName3] [u8]; [SomeName4] [u16];
    let attr = vec![
        id("name"),
        id("member"),
        punct(';'),
        bracket(vec![id("SomeName3")]),
        bracket(vec![id("u8")]),
        punct(';'),
        bracket(vec![id("SomeName4")]),
        bracket(vec![id("u16")]),
        punct(';'),
    ];
    let out = duplicate_impl(&attr, &struct_item("name", Some("member"))).unwrap();
    let mut expected = struct_item("SomeName3", Some("u8"));
    expected.extend(struct_item("SomeName4", Some("u16")));
    assert!(toks_eq(&out, &expected));

    // verbose: [ name [SomeName3] member [u8] ] [ member [u16] name [SomeName4] ]
    let attr = vec![
        bracket(vec![
            id("name"),
            bracket(vec![id("SomeName3")]),
            id("member"),
            bracket(vec![id("u8")]),
        ]),
        bracket(vec![
            id("member"),
            bracket(vec![id("u16")]),
            id("name"),
            bracket(vec![id("SomeName4")]),
        ]),
    ];
    let out = duplicate_impl(&attr, &struct_item("name", Some("member"))).unwrap();
    assert!(toks_eq(&out, &expected));

    // global-only: ty [i16];
    let attr = vec![id("ty"), bracket(vec![id("i16")]), punct(';')];
    let out = duplicate_impl(&attr, &struct_item("SomeStruct", Some("ty"))).unwrap();
    assert!(toks_eq(&out, &struct_item("SomeStruct", Some("i16"))));

    // a substitution that includes braces: var [ { } ];
    let attr = vec![id("var"), bracket(vec![brace(vec![])]), punct(';')];
    let item = vec![id("let"), id("x"), punct('='), id("var"), punct(';')];
    let out = duplicate_impl(&attr, &item).unwrap();
    let expected = vec![id("let"), id("x"), punct('='), brace(vec![]), punct(';')];
    assert!(toks_eq(&out, &expected));
}

/// Parameterized substitution in the verbose syntax.
#[test]
fn verbose_parameterized() {
    // [ method [get] reference(type) [& type] ]
    // [ method [get_mut] reference(type) [& mut type] ]
    let group = |m: &str, sub: Vec<Token>| -> Token {
        bracket(vec![
            id("method"),
            bracket(vec![id(m)]),
            id("reference"),
            paren(vec![id("type")]),
            bracket(sub),
        ])
    };
    let attr = vec![
        group("get", vec![punct('&'), id("type")]),
        group("get_mut", vec![punct('&'), id("mut"), id("type")]),
    ];
    // fn method ( r : reference([Self]) ) ;
    let item = vec![
        id("fn"),
        id("method"),
        paren(vec![
            id("r"),
            punct(':'),
            id("reference"),
            paren(vec![bracket(vec![id("Self")])]),
        ]),
        punct(';'),
    ];
    let out = duplicate_impl(&attr, &item).unwrap();
    let one = |m: &str, refer: Vec<Token>| -> Vec<Token> {
        let mut inner = vec![id("r"), punct(':')];
        inner.extend(refer);
        vec![id("fn"), id(m), paren(inner), punct(';')]
    };
    let mut expected = one("get", vec![punct('&'), id("Self")]);
    expected.extend(one("get_mut", vec![punct('&'), id("mut"), id("Self")]));
    assert!(toks_eq(&out, &expected));
}

/// The substitute-only entry performs the global substitutions once and
/// never duplicates.
#[test]
fn substitute_only_single_copy() {
    let attr = vec![
        id("Name"),
        bracket(vec![id("SomeStruct5")]),
        punct(';'),
        id("ty"),
        bracket(vec![id("u32")]),
        punct(';'),
    ];
    let out = substitute_impl(&attr, &struct_item("Name", Some("ty"))).unwrap();
    assert!(toks_eq(&out, &struct_item("SomeStruct5", Some("u32"))));
}

/// A fragment without any matching identifier passes through unchanged.
#[test]
fn identity_when_no_key_matches() {
    let attr = vec![id("missing"), bracket(vec![id("u8")]), punct(';')];
    let item = vec![id("fn"), id("f"), paren(vec![id("x")]), brace(vec![lit("1")])];
    let out = duplicate_impl(&attr, &item).unwrap();
    assert!(toks_eq(&out, &item));
}

/// A nested invocation in the payload produces substitution groups for the
/// outer invocation.
#[test]
fn nested_duplicate() {
    // int_type implementation;
    // duplicate!{ [ nested; [u8]; [u16]; [u32] ] [nested] [false]; }
    // [ i8 ] [ neg ]
    let nested_body = vec![
        bracket(vec![
            id("nested"),
            punct(';'),
            bracket(vec![id("u8")]),
            punct(';'),
            bracket(vec![id("u16")]),
            punct(';'),
            bracket(vec![id("u32")]),
        ]),
        bracket(vec![id("nested")]),
        bracket(vec![id("false")]),
        punct(';'),
    ];
    let attr = vec![
        id("int_type"),
        id("implementation"),
        punct(';'),
        id("duplicate"),
        punct('!'),
        brace(nested_body),
        bracket(vec![id("i8")]),
        bracket(vec![id("neg")]),
    ];
    let item = vec![id("impl"), id("T"), id("for"), id("int_type"), brace(vec![id(
        "implementation",
    )])];
    let out = duplicate_impl(&attr, &item).unwrap();
    let one = |t: &str, i: &str| -> Vec<Token> {
        vec![id("impl"), id("T"), id("for"), id(t), brace(vec![id(i)])]
    };
    let mut expected = one("u8", "false");
    expected.extend(one("u16", "false"));
    expected.extend(one("u32", "false"));
    expected.extend(one("i8", "neg"));
    assert!(toks_eq(&out, &expected));
}

/// An invocation whose payload holds a nested invocation producing three
/// groups, followed by one literal group, parses into four per-duplicate
/// groups.
#[test]
fn scenario_nested_group_count() {
    // duplicate!{ [ n; [u8]; [u16]; [u32] ] [ a [n] ] } [ a [i8] ]
    let nested_body = vec![
        bracket(vec![
            id("n"),
            punct(';'),
            bracket(vec![id("u8")]),
            punct(';'),
            bracket(vec![id("u16")]),
            punct(';'),
            bracket(vec![id("u32")]),
        ]),
        bracket(vec![id("a"), bracket(vec![id("n")])]),
    ];
    let attr = vec![
        id("duplicate"),
        punct('!'),
        brace(nested_body),
        bracket(vec![id("a"), bracket(vec![id("i8")])]),
    ];
    let expanded = expand_tokens(&attr, 64).unwrap();
    let def = parse_invocation(&expanded).unwrap();
    assert_eq!(def.duplications.len(), 4);
}

/// The call-style form takes the invocation within initial brackets and
/// duplicates everything after it.
#[test]
fn inline_invocation() {
    let stream = vec![
        bracket(vec![
            id("name"),
            punct(';'),
            bracket(vec![id("A")]),
            punct(';'),
            bracket(vec![id("B")]),
            punct(';'),
        ]),
        id("struct"),
        id("name"),
        punct(';'),
    ];
    let out = inline_macro_impl(&stream, false).unwrap();
    let expected = vec![
        id("struct"),
        id("A"),
        punct(';'),
        id("struct"),
        id("B"),
        punct(';'),
    ];
    assert!(toks_eq(&out, &expected));
}

/// The substitute-only form can be nested too: it expands to a single
/// substituted copy.
#[test]
fn nested_substitute() {
    // The fragment holds: substitute!{ [ty [u8];] struct S(ty); }
    let attr = vec![id("unused"), bracket(vec![id("z")]), punct(';')];
    let nested_body = vec![
        bracket(vec![id("ty"), bracket(vec![id("u8")]), punct(';')]),
        id("struct"),
        id("S"),
        paren(vec![id("ty")]),
        punct(';'),
    ];
    let item = vec![id("substitute"), punct('!'), brace(nested_body)];
    let out = duplicate_impl(&attr, &item).unwrap();
    let expected = vec![id("struct"), id("S"), paren(vec![id("u8")]), punct(';')];
    assert!(toks_eq(&out, &expected));
}

/// A nested invocation in the fragment is expanded first; the outer
/// substitutions then apply to its expansion.
#[test]
fn nested_in_fragment() {
    let attr = vec![id("x"), bracket(vec![id("u8")]), punct(';')];
    let nested_body = vec![
        bracket(vec![
            id("y"),
            punct(';'),
            bracket(vec![id("a")]),
            punct(';'),
            bracket(vec![id("b")]),
            punct(';'),
        ]),
        id("struct"),
        id("y"),
        paren(vec![id("x")]),
        punct(';'),
    ];
    let item = vec![id("duplicate"), punct('!'), brace(nested_body)];
    let out = duplicate_impl(&attr, &item).unwrap();
    let expected = vec![
        id("struct"),
        id("a"),
        paren(vec![id("u8")]),
        punct(';'),
        id("struct"),
        id("b"),
        paren(vec![id("u8")]),
        punct(';'),
    ];
    assert!(toks_eq(&out, &expected));
}

/// A transparent group is spliced inline before anything else sees it.
#[test]
fn transparent_group_is_spliced() {
    let attr = vec![Token::Group(
        Delim::Transparent,
        vec![id("x")],
        0,
    ), bracket(vec![id("y")]), punct(';')];
    let item = vec![id("x")];
    let out = duplicate_impl(&attr, &item).unwrap();
    assert!(toks_eq(&out, &vec![id("y")]));
}
