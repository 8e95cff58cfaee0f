//! Short-syntax duplication.

use duplicate::{duplicate_impl, Delim, Token};

fn id(s: &str) -> Token {
    Token::Ident(s.to_string(), 0)
}

fn punct(c: char) -> Token {
    Token::Punct(c, true, 0)
}

fn lit(s: &str) -> Token {
    Token::Lit(s.to_string(), 0)
}

fn bracket(body: Vec<Token>) -> Token {
    Token::Group(Delim::Bracket, body, 0)
}

fn paren(body: Vec<Token>) -> Token {
    Token::Group(Delim::Paren, body, 0)
}

fn brace(body: Vec<Token>) -> Token {
    Token::Group(Delim::Brace, body, 0)
}

fn tok_eq(a: &Token, b: &Token) -> bool {
    match (a, b) {
        (Token::Ident(x, sa), Token::Ident(y, sb)) => x == y && sa == sb,
        (Token::Punct(x, ax, sa), Token::Punct(y, ay, sb)) => x == y && ax == ay && sa == sb,
        (Token::Lit(x, sa), Token::Lit(y, sb)) => x == y && sa == sb,
        (Token::Group(da, ba, sa), Token::Group(db, bb, sb)) => {
            da == db && sa == sb && toks_eq(ba, bb)
        },
        _ => false,
    }
}

fn toks_eq(a: &[Token], b: &[Token]) -> bool {
    a.len() == b.len() && a.iter().zip(b.iter()).all(|(x, y)| tok_eq(x, y))
}

/// One global substitution and no per-duplicate groups: one copy, with the
/// identifier substituted.
#[test]
fn duplicate_single() {
    // boolean [true]
    let attr = vec![id("boolean"), bracket(vec![id("true")])];
    // fn duplicate_single() { assert!(boolean); }
    let item = vec![
        id("fn"),
        id("duplicate_single"),
        paren(vec![]),
        brace(vec![id("assert"), punct('!'), paren(vec![id("boolean")]), punct(';')]),
    ];
    let out = duplicate_impl(&attr, &item).unwrap();
    let expected = vec![
        id("fn"),
        id("duplicate_single"),
        paren(vec![]),
        brace(vec![id("assert"), punct('!'), paren(vec![id("true")]), punct(';')]),
    ];
    assert!(toks_eq(&out, &expected));
}

/// Two global substitutions: one copy with both identifiers substituted.
#[test]
fn name() {
    // name [function_name]; boolean [true];
    let attr = vec![
        id("name"),
        bracket(vec![id("function_name")]),
        punct(';'),
        id("boolean"),
        bracket(vec![id("true")]),
        punct(';'),
    ];
    let item = vec![
        id("fn"),
        id("name"),
        paren(vec![]),
        brace(vec![id("assert"), punct('!'), paren(vec![id("boolean")]), punct(';')]),
    ];
    let out = duplicate_impl(&attr, &item).unwrap();
    let expected = vec![
        id("fn"),
        id("function_name"),
        paren(vec![]),
        brace(vec![id("assert"), punct('!'), paren(vec![id("true")]), punct(';')]),
    ];
    assert!(toks_eq(&out, &expected));
}

/// Two duplicates in the short syntax: the output is both copies in group
/// order.
#[test]
fn short_syntax_name() {
    // name boolean; [first_duplicate] [true]; [second_duplicate] [true];
    let attr = vec![
        id("name"),
        id("boolean"),
        punct(';'),
        bracket(vec![id("first_duplicate")]),
        bracket(vec![id("true")]),
        punct(';'),
        bracket(vec![id("second_duplicate")]),
        bracket(vec![id("true")]),
        punct(';'),
    ];
    let item = vec![id("fn"), id("name"), paren(vec![]), brace(vec![id("boolean")])];
    let out = duplicate_impl(&attr, &item).unwrap();
    let expected = vec![
        id("fn"),
        id("first_duplicate"),
        paren(vec![]),
        brace(vec![id("true")]),
        id("fn"),
        id("second_duplicate"),
        paren(vec![]),
        brace(vec![id("true")]),
    ];
    assert!(toks_eq(&out, &expected));
}

/// A module name declared as a substitution identifier is substituted like
/// any other identifier.
#[test]
fn short_syntax_module() {
    // module; [ mod1 ]; [ mod2 ];
    let attr = vec![
        id("module"),
        punct(';'),
        bracket(vec![id("mod1")]),
        punct(';'),
        bracket(vec![id("mod2")]),
        punct(';'),
    ];
    let item = vec![id("mod"), id("module"), brace(vec![id("struct"), id("S"), punct(';')])];
    let out = duplicate_impl(&attr, &item).unwrap();
    let expected = vec![
        id("mod"),
        id("mod1"),
        brace(vec![id("struct"), id("S"), punct(';')]),
        id("mod"),
        id("mod2"),
        brace(vec![id("struct"), id("S"), punct(';')]),
    ];
    assert!(toks_eq(&out, &expected));
}

/// An inner call-style invocation inside a duplicated module: the inner
/// invocation expands first, and each module copy carries its expansion.
#[test]
fn short_syntax_name_in_module() {
    // outer: module; [ mod1 ]; [ mod2 ];
    let attr = vec![
        id("module"),
        punct(';'),
        bracket(vec![id("mod1")]),
        punct(';'),
        bracket(vec![id("mod2")]),
        punct(';'),
    ];
    // inner: duplicate!{ [ name boolean; [first_duplicate] [true]; [second_duplicate] [true]; ]
    //                    fn name ( ) { assert ! ( boolean ) ; } }
    let inner = vec![
        id("duplicate"),
        punct('!'),
        brace(vec![
            bracket(vec![
                id("name"),
                id("boolean"),
                punct(';'),
                bracket(vec![id("first_duplicate")]),
                bracket(vec![id("true")]),
                punct(';'),
                bracket(vec![id("second_duplicate")]),
                bracket(vec![id("true")]),
                punct(';'),
            ]),
            id("fn"),
            id("name"),
            paren(vec![]),
            brace(vec![id("assert"), punct('!'), paren(vec![id("boolean")]), punct(';')]),
        ]),
    ];
    let mut body = vec![id("use"), id("super"), punct(':'), punct(':'), punct('*'), punct(';')];
    body.extend(inner);
    let item = vec![id("mod"), id("module"), brace(body)];
    let out = duplicate_impl(&attr, &item).unwrap();
    let one_fn = |n: &str| -> Vec<Token> {
        vec![
            id("fn"),
            id(n),
            paren(vec![]),
            brace(vec![id("assert"), punct('!'), paren(vec![id("true")]), punct(';')]),
        ]
    };
    let one_mod = |m: &str| -> Vec<Token> {
        let mut b = vec![id("use"), id("super"), punct(':'), punct(':'), punct('*'), punct(';')];
        b.extend(one_fn("first_duplicate"));
        b.extend(one_fn("second_duplicate"));
        vec![id("mod"), id(m), brace(b)]
    };
    let mut expected = one_mod("mod1");
    expected.extend(one_mod("mod2"));
    assert!(toks_eq(&out, &expected));
}

/// The invocation `int_type max_value; [u8] [255]; [u16] [65535];` over an
/// implementation fragment yields two implementations, one per row, with
/// everything else verbatim.
#[test]
fn scenario_two_rows_two_impls() {
    let attr = vec![
        id("int_type"),
        id("max_value"),
        punct(';'),
        bracket(vec![id("u8")]),
        bracket(vec![lit("255")]),
        punct(';'),
        bracket(vec![id("u16")]),
        bracket(vec![lit("65535")]),
        punct(';'),
    ];
    // impl M for int_type { fn f()->bool{*self==max_value} }
    let body = |v: &str| -> Vec<Token> {
        vec![
            id("impl"),
            id("M"),
            id("for"),
            id(v),
            brace(vec![
                id("fn"),
                id("f"),
                paren(vec![]),
                punct('-'),
                punct('>'),
                id("bool"),
                brace(vec![
                    punct('*'),
                    id("self"),
                    punct('='),
                    punct('='),
                    if v == "int_type" { id("max_value") } else { lit(v2_of(v)) },
                ]),
            ]),
        ]
    };
    let item = body("int_type");
    let out = duplicate_impl(&attr, &item).unwrap();
    let mut expected = Vec::new();
    expected.extend(body("u8"));
    expected.extend(body("u16"));
    assert!(toks_eq(&out, &expected));
}

fn v2_of(v: &str) -> &str {
    if v == "u8" {
        "255"
    } else {
        "65535"
    }
}

/// Parameterized substitution: `reference(type)` bound to `&type` and
/// `&mut type`; the call site `reference([i32])` expands to `&i32` in the
/// first duplicate and `&mut i32` in the second.
#[test]
fn scenario_parameterized_reference() {
    let attr = vec![
        id("reference"),
        paren(vec![id("type")]),
        punct(';'),
        bracket(vec![punct('&'), id("type")]),
        punct(';'),
        bracket(vec![punct('&'), id("mut"), id("type")]),
        punct(';'),
    ];
    let item = vec![id("reference"), paren(vec![bracket(vec![id("i32")])]), punct(';')];
    let out = duplicate_impl(&attr, &item).unwrap();
    let expected = vec![
        punct('&'),
        id("i32"),
        punct(';'),
        punct('&'),
        id("mut"),
        id("i32"),
        punct(';'),
    ];
    assert!(toks_eq(&out, &expected));
}
