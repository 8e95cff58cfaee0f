//! Module name disambiguation.

use duplicate::{duplicate_impl, Delim, Token};

fn id(s: &str) -> Token {
    Token::Ident(s.to_string(), 0)
}

fn id_at(s: &str, sp: usize) -> Token {
    Token::Ident(s.to_string(), sp)
}

fn punct(c: char) -> Token {
    Token::Punct(c, true, 0)
}

fn bracket(body: Vec<Token>) -> Token {
    Token::Group(Delim::Bracket, body, 0)
}

fn paren(body: Vec<Token>) -> Token {
    Token::Group(Delim::Paren, body, 0)
}

fn brace(body: Vec<Token>) -> Token {
    Token::Group(Delim::Brace, body, 0)
}

fn tok_eq(a: &Token, b: &Token) -> bool {
    match (a, b) {
        (Token::Ident(x, sa), Token::Ident(y, sb)) => x == y && sa == sb,
        (Token::Punct(x, ax, sa), Token::Punct(y, ay, sb)) => x == y && ax == ay && sa == sb,
        (Token::Lit(x, sa), Token::Lit(y, sb)) => x == y && sa == sb,
        (Token::Group(da, ba, sa), Token::Group(db, bb, sb)) => {
            da == db && sa == sb && toks_eq(ba, bb)
        },
        _ => false,
    }
}

fn toks_eq(a: &[Token], b: &[Token]) -> bool {
    a.len() == b.len() && a.iter().zip(b.iter()).all(|(x, y)| tok_eq(x, y))
}

fn module_item(name: &str, member: &str) -> Vec<Token> {
    vec![
        id("mod"),
        id(name),
        brace(vec![
            id("pub"),
            id("struct"),
            id("name"),
            paren(vec![id(member)]),
            punct(';'),
        ]),
    ]
}

/// Module names are postfixed with the snake-cased values of the first
/// substitution identifier whose substitutions are all single bare
/// identifiers.
#[test]
fn mod_test_expansions() {
    // name; [SomeName11]; [SomeName12]; [SomeName13];
    let attr = vec![
        id("name"),
        punct(';'),
        bracket(vec![id("SomeName11")]),
        punct(';'),
        bracket(vec![id("SomeName12")]),
        punct(';'),
        bracket(vec![id("SomeName13")]),
        punct(';'),
    ];
    let item = vec![id("mod"), id("module"), brace(vec![id("struct"), id("name"), punct(';')])];
    let out = duplicate_impl(&attr, &item).unwrap();
    let one = |m: &str, n: &str| -> Vec<Token> {
        vec![id("mod"), id(m), brace(vec![id("struct"), id(n), punct(';')])]
    };
    let mut expected = one("module_some_name11", "SomeName11");
    expected.extend(one("module_some_name12", "SomeName12"));
    expected.extend(one("module_some_name13", "SomeName13"));
    assert!(toks_eq(&out, &expected));

    // The first identifier whose substitutions are all simple identifiers
    // is chosen: member_type's first value is not a bare identifier.
    let attr = vec![
        bracket(vec![
            id("member_type"),
            bracket(vec![id("Vec"), punct('<'), paren(vec![]), punct('>')]),
            id("name"),
            bracket(vec![id("SomeName21")]),
        ]),
        bracket(vec![
            id("member_type"),
            bracket(vec![id("u32")]),
            id("name"),
            bracket(vec![id("SomeName22")]),
        ]),
    ];
    let item = vec![id("mod"), id("module"), brace(vec![id("name"), punct(';')])];
    let out = duplicate_impl(&attr, &item).unwrap();
    let expected = vec![
        id("mod"),
        id("module_some_name21"),
        brace(vec![id("SomeName21"), punct(';')]),
        id("mod"),
        id("module_some_name22"),
        brace(vec![id("SomeName22"), punct(';')]),
    ];
    assert!(toks_eq(&out, &expected));

    // Only the module's name is disambiguated, not identifiers inside it.
    let attr = vec![
        id("name"),
        punct(';'),
        bracket(vec![id("SomeName41")]),
        punct(';'),
        bracket(vec![id("SomeName42")]),
        punct(';'),
    ];
    let item = vec![id("mod"), id("module"), brace(vec![id("struct"), id("module"), punct(';')])];
    let out = duplicate_impl(&attr, &item).unwrap();
    let expected = vec![
        id("mod"),
        id("module_some_name41"),
        brace(vec![id("struct"), id("module"), punct(';')]),
        id("mod"),
        id("module_some_name42"),
        brace(vec![id("struct"), id("module"), punct(';')]),
    ];
    assert!(toks_eq(&out, &expected));
}

/// Groups assigning `Tag` to bare identifiers and `Size` to types rename
/// the module after `Tag`, the first qualifying identifier in declaration
/// order.
#[test]
fn scenario_first_simple_column_chosen() {
    let attr = vec![
        id("Tag"),
        id("Size"),
        punct(';'),
        bracket(vec![id("Alpha")]),
        bracket(vec![id("u8")]),
        punct(';'),
        bracket(vec![id("Beta")]),
        bracket(vec![id("u16")]),
        punct(';'),
        bracket(vec![id("Gamma")]),
        bracket(vec![id("u32")]),
        punct(';'),
    ];
    let item = vec![id("mod"), id("container"), brace(vec![id("use"), id("Tag"), punct(';')])];
    let out = duplicate_impl(&attr, &item).unwrap();
    let one = |m: &str, t: &str| -> Vec<Token> {
        vec![id("mod"), id(m), brace(vec![id("use"), id(t), punct(';')])]
    };
    let mut expected = one("container_alpha", "Alpha");
    expected.extend(one("container_beta", "Beta"));
    expected.extend(one("container_gamma", "Gamma"));
    assert!(toks_eq(&out, &expected));
}

/// When no substitution identifier qualifies, the duplication of an
/// unnamed-disambiguated module fails.
#[test]
fn mod_basic_expansion_errors() {
    // Every substitution holds more than one token.
    let attr = vec![
        id("t"),
        punct(';'),
        bracket(vec![id("Vec"), punct('<'), id("u8"), punct('>')]),
        punct(';'),
        bracket(vec![id("Vec"), punct('<'), id("u16"), punct('>')]),
        punct(';'),
    ];
    let item = module_item("module", "t");
    let e = duplicate_impl(&attr, &item).unwrap_err();
    assert_eq!(
        e.into_panic_message(),
        "Was unable to find a suitable substitution identifier to postfix on the module's name."
    );
}

/// The disambiguation failure carries its explanatory hint.
#[test]
fn mod_hint_expansion_errors() {
    let attr = vec![
        id("t"),
        punct(';'),
        bracket(vec![id("a"), id("b")]),
        punct(';'),
        bracket(vec![id("c"), id("d")]),
        punct(';'),
    ];
    let item = module_item("module", "t");
    let e = duplicate_impl(&attr, &item).unwrap_err();
    assert!(e.get_hint().contains(
        "If a substitution identifier's substitutions all consist of a single identifier"
    ));
}

/// The disambiguation failure points at the module's name.
#[test]
fn mod_highlight_expansion_errors() {
    let attr = vec![
        id("t"),
        punct(';'),
        bracket(vec![id("a"), id("b")]),
        punct(';'),
        bracket(vec![id("c"), id("d")]),
        punct(';'),
    ];
    let item = vec![
        id("mod"),
        id_at("module", 17),
        brace(vec![id("t"), punct(';')]),
    ];
    let e = duplicate_impl(&attr, &item).unwrap_err();
    assert_eq!(e.get_span(), 17);
}

/// A module whose name is itself a substitution identifier is not
/// disambiguated: the explicit substitution wins.
#[test]
fn explicit_module_substitution_wins() {
    let attr = vec![
        id("module"),
        id("t"),
        punct(';'),
        bracket(vec![id("alpha")]),
        bracket(vec![id("u8")]),
        punct(';'),
    ];
    let item = vec![id("mod"), id("module"), brace(vec![id("t"), punct(';')])];
    let out = duplicate_impl(&attr, &item).unwrap();
    let expected = vec![id("mod"), id("alpha"), brace(vec![id("u8"), punct(';')])];
    assert!(toks_eq(&out, &expected));
}
