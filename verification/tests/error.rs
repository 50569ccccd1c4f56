use darcy::error::{line_text, DarcyError, ErrorKind, Errors};

fn source(lines: &[&str]) -> Vec<String> {
    lines.iter().map(|l| l.to_string()).collect()
}

fn parts(d: &DarcyError) -> (String, String, String) {
    (d.prefix().clone(), d.offender().clone(), d.suffix().clone())
}

fn rebuilt(d: &DarcyError) -> String {
    format!("{}{}{}", d.prefix(), d.offender(), d.suffix())
}

#[test]
fn diagnostic_points_at_the_first_occurrence() {
    let d = DarcyError::new(
        ErrorKind::IdentifierError,
        &7,
        "ab".to_string(),
        "x ab ab".to_string(),
    );
    assert_eq!(d.kind(), ErrorKind::IdentifierError);
    assert_eq!(d.line(), 7);
    assert_eq!(d.content(), "x ab ab");
    assert_eq!(parts(&d), ("x ".to_string(), "ab".to_string(), " ab".to_string()));
}

#[test]
fn diagnostic_at_either_end_of_the_line() {
    let d = DarcyError::new(ErrorKind::SyntaxError, &1, "ab".to_string(), "ab cd".to_string());
    assert_eq!(parts(&d), ("".to_string(), "ab".to_string(), " cd".to_string()));
    let d = DarcyError::new(ErrorKind::SyntaxError, &1, "cd".to_string(), "ab cd".to_string());
    assert_eq!(parts(&d), ("ab ".to_string(), "cd".to_string(), "".to_string()));
    let d = DarcyError::new(ErrorKind::SyntaxError, &1, "ab cd".to_string(), "ab cd".to_string());
    assert_eq!(parts(&d), ("".to_string(), "ab cd".to_string(), "".to_string()));
}

#[test]
fn diagnostic_without_offender_has_the_line_as_prefix() {
    let d = DarcyError::new(ErrorKind::IdentifierError, &2, String::new(), "let = 1".to_string());
    assert_eq!(d.kind(), ErrorKind::IdentifierError);
    assert_eq!(d.line(), 2);
    assert_eq!(parts(&d), ("let = 1".to_string(), "".to_string(), "".to_string()));
    assert_eq!(d.content(), "let = 1");
}

#[test]
fn offender_that_is_not_in_the_line_is_an_internal_error() {
    let d = DarcyError::new(ErrorKind::IdentifierError, &2, "zz".to_string(), "let = 1".to_string());
    assert_eq!(d.kind(), ErrorKind::InternalError);
    assert_eq!(d.line(), 2);
    assert_eq!(d.content(), "let = 1");
    assert_eq!(parts(&d), ("let = 1".to_string(), "".to_string(), "".to_string()));
}

#[test]
fn every_diagnostic_rebuilds_its_line() {
    let cases = [
        ("b", "abc"),
        ("", "abc"),
        ("abc", "abc"),
        ("zz", "abc"),
        ("é", "caf\u{e9} au lait"),
        ("", ""),
        ("x", ""),
    ];
    for (offender, content) in cases {
        let d = DarcyError::new(
            ErrorKind::SyntaxError,
            &1,
            offender.to_string(),
            content.to_string(),
        );
        assert_eq!(rebuilt(&d), content);
        assert_eq!(d.content(), content);
        if d.offender().is_empty() {
            assert_eq!(d.prefix(), content);
            assert_eq!(d.suffix(), "");
        }
    }
    let d = DarcyError::spanning(ErrorKind::SyntaxError, 1, "abcdef".to_string(), 2, 4);
    assert_eq!(rebuilt(&d), "abcdef");
    let d = DarcyError::unavailable(ErrorKind::SyntaxError);
    assert_eq!(rebuilt(&d), "");
}

#[test]
fn unavailable_line() {
    let d = DarcyError::unavailable(ErrorKind::OverflowError);
    assert_eq!(d.kind(), ErrorKind::OverflowError);
    assert_eq!(d.line(), 0);
    assert_eq!(d.content(), "");
    assert_eq!(parts(&d), ("".to_string(), "".to_string(), "".to_string()));
}

#[test]
fn whole_line_diagnostic() {
    let d = DarcyError::whole_line(ErrorKind::SyntaxError, 4, "a b".to_string());
    assert_eq!(d.kind(), ErrorKind::SyntaxError);
    assert_eq!(d.line(), 4);
    assert_eq!(parts(&d), ("a b".to_string(), "".to_string(), "".to_string()));
}

#[test]
fn spanning_counts_characters() {
    let d = DarcyError::spanning(ErrorKind::SyntaxError, 3, "h\u{e9}llo w\u{f6}rld".to_string(), 1, 5);
    assert_eq!(d.line(), 3);
    assert_eq!(parts(&d), ("h".to_string(), "\u{e9}llo".to_string(), " w\u{f6}rld".to_string()));
}

#[test]
fn spanning_nothing_points_at_nothing() {
    for (from, to) in [(2, 2), (3, 2), (2, 9), (9, 12)] {
        let d = DarcyError::spanning(ErrorKind::SyntaxError, 3, "abcd".to_string(), from, to);
        assert_eq!(d.kind(), ErrorKind::SyntaxError);
        assert_eq!(parts(&d), ("abcd".to_string(), "".to_string(), "".to_string()));
    }
}

#[test]
fn lines_count_from_one() {
    let src = source(&["first", "second"]);
    assert_eq!(line_text(&src, 1), Some(&"first".to_string()));
    assert_eq!(line_text(&src, 2), Some(&"second".to_string()));
    assert_eq!(line_text(&src, 0), None);
    assert_eq!(line_text(&src, 3), None);
    assert_eq!(line_text(&Vec::new(), 1), None);
}

#[test]
fn anchored_looks_the_line_up() {
    let src = source(&["let a", "let b"]);
    let d = DarcyError::anchored(ErrorKind::IdentifierError, 2, "b".to_string(), &src);
    assert_eq!(d.line(), 2);
    assert_eq!(d.content(), "let b");
    assert_eq!(parts(&d), ("let ".to_string(), "b".to_string(), "".to_string()));
    for line in [0, 3, usize::MAX] {
        let d = DarcyError::anchored(ErrorKind::IdentifierError, line, "b".to_string(), &src);
        assert_eq!(d.kind(), ErrorKind::IdentifierError);
        assert_eq!(d.line(), 0);
        assert_eq!(d.content(), "");
        assert_eq!(d.offender(), "");
    }
}

#[test]
fn clone_is_equal() {
    let d = DarcyError::new(ErrorKind::SyntaxError, &1, "b".to_string(), "abc".to_string());
    assert_eq!(d.clone(), d);
}

#[test]
fn render_unknown_identifier() {
    let d = DarcyError::new(
        ErrorKind::IdentifierError,
        &12,
        "count".to_string(),
        "out count + 1".to_string(),
    );
    assert_eq!(
        d.render(),
        "--> IdentifierError at line 12:\n | offending line:\n | out count + 1\n |     ^^^^^ this identifier does not exist in the current scope or is an invalid keyword."
    );
}

#[test]
fn render_missing_identifier() {
    let d = DarcyError::new(ErrorKind::IdentifierError, &3, String::new(), "const =".to_string());
    assert_eq!(
        d.render(),
        "--> IdentifierError at line 3:\n | offending line:\n | const =\n |         expected an identifier here, found nothing"
    );
}

#[test]
fn render_unavailable_line() {
    let d = DarcyError::unavailable(ErrorKind::SyntaxError);
    assert_eq!(
        d.render(),
        "--> SyntaxError at line 0:\n | offending line:\n | \n |  expected a symbol here, found nothing"
    );
}

#[test]
fn messages_of_every_kind() {
    let tail = |d: &DarcyError| d.render().rsplit(" | ").next().unwrap().trim_start_matches([' ', '^']).to_string();
    let with = |kind| DarcyError::new(kind, &1, "x".to_string(), "x".to_string());
    let without = |kind| DarcyError::new(kind, &1, String::new(), "x".to_string());
    assert_eq!(
        tail(&with(ErrorKind::IdentifierError)),
        "this identifier does not exist in the current scope or is an invalid keyword."
    );
    assert_eq!(
        tail(&without(ErrorKind::IdentifierError)),
        "expected an identifier here, found nothing"
    );
    assert_eq!(tail(&with(ErrorKind::SyntaxError)), "this sequence of symbols is not recognized.");
    assert_eq!(tail(&without(ErrorKind::SyntaxError)), "expected a symbol here, found nothing");
    assert_eq!(
        tail(&with(ErrorKind::UnterminatedStringError)),
        "this string literal is never closed."
    );
    assert_eq!(
        tail(&without(ErrorKind::UnterminatedStringError)),
        "expected a closing quote here, found nothing"
    );
    assert_eq!(
        tail(&with(ErrorKind::OverflowError)),
        "this number does not fit the range of its type."
    );
    assert_eq!(tail(&without(ErrorKind::OverflowError)), "expected a number here, found nothing");
    assert_eq!(
        tail(&with(ErrorKind::InternalError)),
        "the offending text could not be located in this line."
    );
    assert_eq!(
        tail(&with(ErrorKind::ArgumentError { params: 2, args: 13 })),
        "2 parameters were specified but 13 arguments were passed."
    );
    assert_eq!(
        tail(&without(ErrorKind::ArgumentError { params: 0, args: 255 })),
        "0 parameters were specified but 255 arguments were passed."
    );
}

#[test]
fn headers_name_every_kind() {
    let head = |kind| {
        let d = DarcyError::unavailable(kind);
        d.render().lines().next().unwrap().to_string()
    };
    assert_eq!(head(ErrorKind::IdentifierError), "--> IdentifierError at line 0:");
    assert_eq!(head(ErrorKind::SyntaxError), "--> SyntaxError at line 0:");
    assert_eq!(head(ErrorKind::ArgumentError { params: 1, args: 2 }), "--> ArgumentError at line 0:");
    assert_eq!(head(ErrorKind::UnterminatedStringError), "--> UnterminatedStringError at line 0:");
    assert_eq!(head(ErrorKind::OverflowError), "--> OverflowError at line 0:");
    assert_eq!(head(ErrorKind::InternalError), "--> InternalError at line 0:");
}

#[test]
fn report_identifier_error() {
    let src = source(&["func main", "  out total"]);
    let e = Errors::IdentifierError(2, "total".to_string());
    assert_eq!(
        e.report(src),
        "--> IdentifierError at line 2:\n | offending line:\n |   out total\n |       ^^^^^ this identifier does not exist in the current scope or is an invalid keyword."
    );
}

#[test]
fn report_syntax_error() {
    let src = source(&["a =+ b"]);
    let e = Errors::SyntaxError(1, "=+".to_string());
    assert_eq!(
        e.report(src),
        "--> SyntaxError at line 1:\n | offending line:\n | a =+ b\n |   ^^ this sequence of symbols is not recognized."
    );
}

#[test]
fn report_argument_error() {
    let src = source(&["", "my_function(5, 10, 2)"]);
    let e = Errors::ArgumentError(2, 2, 3);
    assert_eq!(
        e.report(src),
        "--> ArgumentError at line 2:\n | offending line:\n | my_function(5, 10, 2)\n |             ^^^^^^^^ 2 parameters were specified but 3 arguments were passed."
    );
}

#[test]
fn argument_error_points_between_the_parentheses() {
    let src = source(&["f1(1)"]);
    let d = Errors::ArgumentError(1, 0, 1).locate(&src);
    assert_eq!(d.kind(), ErrorKind::ArgumentError { params: 0, args: 1 });
    assert_eq!(parts(&d), ("f1(".to_string(), "1".to_string(), ")".to_string()));
    let src = source(&["f()"]);
    let d = Errors::ArgumentError(1, 1, 0).locate(&src);
    assert_eq!(d.kind(), ErrorKind::ArgumentError { params: 1, args: 0 });
    assert_eq!(parts(&d), ("f()".to_string(), "".to_string(), "".to_string()));
}

#[test]
fn argument_error_without_parentheses_is_an_internal_error() {
    for line in ["no call here", "f(1, 2", "f 1, 2)", ") f ("] {
        let src = source(&[line]);
        let d = Errors::ArgumentError(1, 1, 2).locate(&src);
        assert_eq!(d.kind(), ErrorKind::InternalError, "{}", line);
        assert_eq!(d.line(), 1);
        assert_eq!(parts(&d), (line.to_string(), "".to_string(), "".to_string()));
    }
}

#[test]
fn report_for_a_line_that_is_not_there() {
    let src = source(&["only line"]);
    for e in [
        Errors::IdentifierError(2, "x".to_string()),
        Errors::SyntaxError(0, "x".to_string()),
        Errors::ArgumentError(5, 1, 2),
    ] {
        let d = e.locate(&src);
        assert_eq!(d.line(), 0);
        assert_eq!(d.content(), "");
        assert_eq!(d.offender(), "");
        assert_eq!(e.report(src.clone()), d.render());
    }
    assert_eq!(
        Errors::ArgumentError(5, 1, 2).report(src),
        "--> ArgumentError at line 0:\n | offending line:\n | \n |  1 parameters were specified but 2 arguments were passed."
    );
}

#[test]
fn report_for_an_offender_that_is_not_in_its_line() {
    let src = source(&["a b c"]);
    assert_eq!(
        Errors::IdentifierError(1, "d".to_string()).report(src),
        "--> InternalError at line 1:\n | offending line:\n | a b c\n |       the offending text could not be located in this line."
    );
}
