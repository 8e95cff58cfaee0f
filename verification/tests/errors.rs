//! Error behavior: messages, hints, and the positions errors point at.

use duplicate::{duplicate_impl, Delim, Token};

fn id(s: &str) -> Token {
    Token::Ident(s.to_string(), 0)
}

fn id_at(s: &str, sp: usize) -> Token {
    Token::Ident(s.to_string(), sp)
}

fn punct(c: char) -> Token {
    Token::Punct(c, true, 0)
}

fn bracket(body: Vec<Token>) -> Token {
    Token::Group(Delim::Bracket, body, 0)
}

fn bracket_at(body: Vec<Token>, sp: usize) -> Token {
    Token::Group(Delim::Bracket, body, sp)
}

fn paren(body: Vec<Token>) -> Token {
    Token::Group(Delim::Paren, body, 0)
}

/// The primary messages of the grammar and consistency errors.
#[test]
fn basic_expansion_errors() {
    let item = vec![id("x")];

    // Declared identifiers without any substitution group.
    let attr = vec![id("a"), punct(';')];
    let e = duplicate_impl(&attr, &item).unwrap_err();
    assert_eq!(e.into_panic_message(), "No substitution groups.");

    // An empty verbose group.
    let attr = vec![bracket(vec![])];
    let e = duplicate_impl(&attr, &item).unwrap_err();
    assert_eq!(e.into_panic_message(), "No substitution groups found.");

    // Verbose groups that disagree on their identifiers.
    let attr = vec![
        bracket(vec![id("a"), bracket(vec![id("x")])]),
        bracket(vec![id("b"), bracket(vec![id("y")])]),
    ];
    let e = duplicate_impl(&attr, &item).unwrap_err();
    assert_eq!(e.into_panic_message(), "Unexpected substitution identifier.");

    // A verbose group missing one of the expected identifiers.
    let attr = vec![
        bracket(vec![
            id("a"),
            bracket(vec![id("x")]),
            id("b"),
            bracket(vec![id("y")]),
        ]),
        bracket(vec![id("a"), bracket(vec![id("z")])]),
    ];
    let e = duplicate_impl(&attr, &item).unwrap_err();
    assert_eq!(e.into_panic_message(), "Incomplete substitution group.");

    // The same identifier with different argument counts across groups.
    let attr = vec![
        bracket(vec![id("a"), paren(vec![id("p")]), bracket(vec![id("p")])]),
        bracket(vec![id("a"), bracket(vec![id("z")])]),
    ];
    let e = duplicate_impl(&attr, &item).unwrap_err();
    assert_eq!(
        e.into_panic_message(),
        "Wrong argument count for substitution identifier."
    );

    // An identifier assigned twice in one group.
    let attr = vec![
        id("a"),
        bracket(vec![id("x")]),
        punct(';'),
        id("a"),
        bracket(vec![id("y")]),
        punct(';'),
    ];
    let e = duplicate_impl(&attr, &item).unwrap_err();
    assert_eq!(
        e.into_panic_message(),
        "Substitution identifier assigned mutiple substitutions"
    );

    // An identifier assigned both globally and in a per-duplicate group
    // fails as soon as it is encountered in the fragment, before any
    // substitution is produced.
    let attr = vec![
        id("x"),
        bracket(vec![id("g")]),
        punct(';'),
        bracket(vec![id("x"), bracket(vec![id("l")])]),
    ];
    let e = duplicate_impl(&attr, &item).unwrap_err();
    assert_eq!(e.into_panic_message(), "Multiple substitutions for identifier");

    // A parameterized identifier applied to the wrong number of arguments
    // reports the expected and the actual count.
    let attr = vec![
        id("f"),
        paren(vec![id("p")]),
        bracket(vec![id("p")]),
        punct(';'),
    ];
    let call = vec![id("f"), paren(vec![
        bracket(vec![id("a")]),
        punct(','),
        bracket(vec![id("b")]),
    ])];
    let e = duplicate_impl(&attr, &call).unwrap_err();
    assert_eq!(
        e.into_panic_message(),
        "Expected 1 substitution arguments but got 2"
    );

    // A parameterized identifier in the fragment not followed by its
    // argument list.
    let e = duplicate_impl(&attr, &vec![id("f"), punct(';')]).unwrap_err();
    assert_eq!(e.into_panic_message(), "Expected '('.");

    // An empty invocation fits neither syntax.
    let e = duplicate_impl(&vec![], &item).unwrap_err();
    assert_eq!(e.into_panic_message(), "Unexpected end of code.");

    // A parameter name declared twice within one declaration, in a global
    // substitution.
    let attr = vec![
        id("f"),
        paren(vec![id("a"), punct(','), id("a")]),
        bracket(vec![id("a")]),
        punct(';'),
    ];
    let e = duplicate_impl(&attr, &item).unwrap_err();
    assert_eq!(e.into_panic_message(), "Parameter name already used");

    // The same rejection in a short-syntax declaration.
    let attr = vec![
        id("f"),
        paren(vec![id("a"), punct(','), id("a")]),
        punct(';'),
        bracket(vec![id("a")]),
        punct(';'),
    ];
    let e = duplicate_impl(&attr, &item).unwrap_err();
    assert_eq!(e.into_panic_message(), "Parameter name already used");

    // The same rejection in a verbose group.
    let attr = vec![bracket(vec![
        id("f"),
        paren(vec![id("a"), punct(','), id("a")]),
        bracket(vec![id("a")]),
    ])];
    let e = duplicate_impl(&attr, &item).unwrap_err();
    assert_eq!(e.into_panic_message(), "Parameter name already used");
}

/// The hints attached to the errors.
#[test]
fn hint_expansion_errors() {
    let item = vec![id("x")];

    // A global substitution not followed by a semicolon.
    let attr = vec![
        id("a"),
        bracket(vec![id("x")]),
        id("b"),
        bracket(vec![id("y")]),
        punct(';'),
    ];
    let e = duplicate_impl(&attr, &item).unwrap_err();
    assert!(e.get_hint().contains("Each global substitution should end with ';'"));

    // Declared identifiers without any substitution group.
    let attr = vec![id("a"), punct(';')];
    let e = duplicate_impl(&attr, &item).unwrap_err();
    assert!(e.get_hint().contains("Add a substitution group after the substitution identifiers"));

    // A short-syntax row with a substitution that is not bracketed.
    let attr = vec![id("a"), punct(';'), id("oops"), punct(';')];
    let e = duplicate_impl(&attr, &item).unwrap_err();
    assert!(e.get_hint().contains("Each substitution should be enclosed in '[]'"));

    // A short-syntax row with too few substitutions.
    let attr = vec![
        id("a"),
        id("b"),
        punct(';'),
        bracket(vec![id("x")]),
        punct(';'),
    ];
    let e = duplicate_impl(&attr, &item).unwrap_err();
    assert!(e.get_hint().contains("Number of substitutions must match"));

    // A verbose group missing an identifier names it.
    let attr = vec![
        bracket(vec![
            id("a"),
            bracket(vec![id("x")]),
            id("b"),
            bracket(vec![id("y")]),
        ]),
        bracket(vec![id("a"), bracket(vec![id("z")])]),
    ];
    let e = duplicate_impl(&attr, &item).unwrap_err();
    assert!(e.get_hint().contains("Missing substitution for: 'b'"));
    assert!(e.get_hint().contains("All substitution groups must define the same substitution identifiers"));

    // A semicolon inside a verbose group.
    let attr = vec![
        bracket(vec![id("a"), bracket(vec![id("x")]), punct(';')]),
    ];
    let e = duplicate_impl(&attr, &item).unwrap_err();
    assert!(e.get_hint().contains("Verbose syntax does not accept semicolons"));

    // Substitution call arguments must each be bracketed.
    let attr = vec![
        id("f"),
        paren(vec![id("p")]),
        bracket(vec![id("p")]),
        punct(';'),
    ];
    let call = vec![id("f"), paren(vec![id("a")])];
    let e = duplicate_impl(&attr, &call).unwrap_err();
    assert!(e.get_hint().contains("Substitution parameters should be enclosed in '[]' each"));
}

/// The positions the errors point at.
#[test]
fn highlight_expansion_errors() {
    let item = vec![id("x")];

    // The duplicated identifier's position.
    let attr = vec![
        id_at("a", 3),
        bracket(vec![id("x")]),
        punct(';'),
        id_at("a", 7),
        bracket(vec![id("y")]),
        punct(';'),
    ];
    let e = duplicate_impl(&attr, &item).unwrap_err();
    assert_eq!(e.get_span(), 7);

    // The ambiguous identifier's position in the fragment.
    let attr = vec![
        id("x"),
        bracket(vec![id("g")]),
        punct(';'),
        bracket(vec![id("x"), bracket(vec![id("l")])]),
    ];
    let e = duplicate_impl(&attr, &vec![id_at("x", 11)]).unwrap_err();
    assert_eq!(e.get_span(), 11);

    // A row with too few substitutions stops at the semicolon that ends it
    // early.
    let attr = vec![
        id("a"),
        id("b"),
        punct(';'),
        bracket(vec![id("x")]),
        punct(';'),
        bracket_at(vec![id("y")], 23),
        bracket(vec![id("z")]),
        punct(';'),
    ];
    let e = duplicate_impl(&attr, &item).unwrap_err();
    assert_eq!(e.into_panic_message(), "Expected '['.");

    // The repeated parameter name's position.
    let attr = vec![
        id("f"),
        paren(vec![id_at("a", 5), punct(','), id_at("a", 9)]),
        bracket(vec![id("a")]),
        punct(';'),
    ];
    let e = duplicate_impl(&attr, &item).unwrap_err();
    assert_eq!(e.get_span(), 9);

    // The argument-count error points at the argument list and reports both
    // counts, here for an empty list.
    let attr = vec![
        id("f"),
        paren(vec![id("p")]),
        bracket(vec![id("p")]),
        punct(';'),
    ];
    let call = vec![id("f"), Token::Group(Delim::Paren, vec![], 42)];
    let e = duplicate_impl(&attr, &call).unwrap_err();
    assert_eq!(e.get_span(), 42);
    assert_eq!(
        e.into_panic_message(),
        "Expected 1 substitution arguments but got 0"
    );
}
