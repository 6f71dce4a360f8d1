use scanner::{int_lexemes_fit, tokenize, Token, TokenPosition};

#[test]
fn operators_in_isolation() {
    let cases: Vec<(&str, Token)> = vec![
        ("==", Token::Equal),
        ("!=", Token::Neq),
        ("<=", Token::Leq),
        (">=", Token::Geq),
        ("<", Token::Less),
        (">", Token::Greater),
        ("+", Token::Add),
        ("-", Token::Sub),
        ("*", Token::Mul),
        ("/", Token::Div),
        ("=", Token::Assign),
        ("!", Token::Not),
        ("&&", Token::And),
        ("||", Token::Or),
        ("~", Token::Bnot),
        ("&", Token::Band),
        ("|", Token::Bor),
        ("^", Token::Xor),
        ("\\", Token::Lambda),
        (",", Token::Comma),
        (".", Token::Period),
        (";", Token::Semicolon),
        ("(", Token::Lpar),
        (")", Token::Rpar),
    ];
    for (text, expected) in cases {
        let tokens = tokenize(&vec![String::from(text)]).unwrap();
        assert_eq!(tokens.len(), 1);
        assert_eq!(tokens[0].0, TokenPosition { line: 0, position: 0 });
        assert_eq!(tokens[0].1, expected);
    }
}

#[test]
fn float_preempts_int() {
    let tokens = tokenize(&vec![String::from("3.14")]).unwrap();
    assert_eq!(tokens.len(), 1);
    assert_eq!(tokens[0].0, TokenPosition { line: 0, position: 0 });
    assert_eq!(tokens[0].1, Token::Float(String::from("3.14")));
}

#[test]
fn float_without_leading_digits() {
    let tokens = tokenize(&vec![String::from(".5")]).unwrap();
    assert_eq!(tokens.len(), 1);
    assert_eq!(tokens[0].1, Token::Float(String::from(".5")));
}

#[test]
fn dot_without_following_digits_is_no_float() {
    let tokens = tokenize(&vec![String::from("3.")]).unwrap();
    assert_eq!(tokens.len(), 2);
    assert_eq!(tokens[0].1, Token::Int(3));
    assert_eq!(tokens[1].1, Token::Period);
}

#[test]
fn call_vs_name() {
    let tokens = tokenize(&vec![String::from("g(g(x))")]).unwrap();
    let expected = vec![
        Token::Call(String::from("g")),
        Token::Call(String::from("g")),
        Token::Name(String::from("x")),
        Token::Rpar,
        Token::Rpar,
    ];
    assert_eq!(tokens.len(), expected.len());
    for (i, t) in expected.into_iter().enumerate() {
        assert_eq!(tokens[i].1, t);
    }
}

#[test]
fn char_literal_payload() {
    let tokens = tokenize(&vec![String::from("'A'")]).unwrap();
    assert_eq!(tokens.len(), 1);
    assert_eq!(tokens[0].0, TokenPosition { line: 0, position: 0 });
    assert_eq!(tokens[0].1, Token::Char(65));

    let tokens = tokenize(&vec![String::from("'z'")]).unwrap();
    assert_eq!(tokens.len(), 1);
    assert_eq!(tokens[0].1, Token::Char(122));
}

#[test]
fn builtin_call_payload() {
    let tokens = tokenize(&vec![String::from("_print(x)")]).unwrap();
    let expected = vec![
        Token::Builtin(String::from("print")),
        Token::Name(String::from("x")),
        Token::Rpar,
    ];
    assert_eq!(tokens.len(), expected.len());
    for (i, t) in expected.into_iter().enumerate() {
        assert_eq!(tokens[i].1, t);
    }
}

#[test]
fn int_value_and_leading_zeros() {
    let tokens = tokenize(&vec![String::from("42 007")]).unwrap();
    assert_eq!(tokens.len(), 2);
    assert_eq!(tokens[0].1, Token::Int(42));
    assert_eq!(tokens[1].1, Token::Int(7));
}

#[test]
fn int_lexemes_fit_boundaries() {
    assert!(int_lexemes_fit(&vec![String::from("9223372036854775807")]));
    let tokens = tokenize(&vec![String::from("9223372036854775807")]).unwrap();
    assert_eq!(tokens[0].1, Token::Int(i64::MAX));

    assert!(!int_lexemes_fit(&vec![String::from("9223372036854775808")]));

    // A long run of leading zeros still has a small value.
    assert!(int_lexemes_fit(&vec![String::from("00000000000000000000000")]));
    let tokens = tokenize(&vec![String::from("00000000000000000000000")]).unwrap();
    assert_eq!(tokens[0].1, Token::Int(0));

    // The digits after the period belong to a float literal, not an int.
    assert!(int_lexemes_fit(&vec![String::from("0.99999999999999999999")]));
}

#[test]
fn multi_error_accumulation() {
    let errs = tokenize(&vec![String::from("¤ x ¤¤")]).unwrap_err();
    assert_eq!(errs.len(), 2);
    assert_eq!(errs[0].0, TokenPosition { line: 0, position: 0 });
    assert_eq!(errs[0].1, String::from("¤"));
    assert_eq!(errs[1].0, TokenPosition { line: 0, position: 4 });
    assert_eq!(errs[1].1, String::from("¤¤"));
}

#[test]
fn errors_across_lines_in_order() {
    let errs = tokenize(&vec![String::from("¤ ok"), String::from("ok @")]).unwrap_err();
    assert_eq!(errs.len(), 2);
    assert_eq!(errs[0].0, TokenPosition { line: 0, position: 0 });
    assert_eq!(errs[0].1, String::from("¤"));
    assert_eq!(errs[1].0, TokenPosition { line: 1, position: 3 });
    assert_eq!(errs[1].1, String::from("@"));
}

#[test]
fn unrecognized_run_is_maximal() {
    let errs = tokenize(&vec![String::from("¤abc")]).unwrap_err();
    assert_eq!(errs.len(), 1);
    assert_eq!(errs[0].1, String::from("¤abc"));

    let errs = tokenize(&vec![String::from("3¤")]).unwrap_err();
    assert_eq!(errs.len(), 1);
    assert_eq!(errs[0].0, TokenPosition { line: 0, position: 1 });
    assert_eq!(errs[0].1, String::from("¤"));
}

#[test]
fn whitespace_changes_only_positions() {
    let tight = tokenize(&vec![String::from("f=\\g x.g(g(x))")]).unwrap();
    let spaced = tokenize(&vec![String::from("f  =  \\g   x.g(g(x))")]).unwrap();
    assert_eq!(tight.len(), spaced.len());
    for i in 0..tight.len() {
        assert_eq!(tight[i].1, spaced[i].1);
    }
    assert_eq!(tight[0].0, TokenPosition { line: 0, position: 0 });
    assert_eq!(tight[1].0, TokenPosition { line: 0, position: 1 });
    assert_eq!(spaced[1].0, TokenPosition { line: 0, position: 3 });
}

#[test]
fn empty_and_blank_input() {
    let tokens = tokenize(&Vec::new()).unwrap();
    assert_eq!(tokens.len(), 0);

    let tokens = tokenize(&vec![String::from(""), String::from("   ")]).unwrap();
    assert_eq!(tokens.len(), 0);
}

#[test]
fn positions_are_line_and_column() {
    let tokens = tokenize(&vec![String::from("  + +"), String::from("-")]).unwrap();
    assert_eq!(tokens.len(), 3);
    assert_eq!(tokens[0].0, TokenPosition { line: 0, position: 2 });
    assert_eq!(tokens[0].1, Token::Add);
    assert_eq!(tokens[1].0, TokenPosition { line: 0, position: 4 });
    assert_eq!(tokens[1].1, Token::Add);
    assert_eq!(tokens[2].0, TokenPosition { line: 1, position: 0 });
    assert_eq!(tokens[2].1, Token::Sub);
}
