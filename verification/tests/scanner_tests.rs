use scanner::{tokenize, Token};

#[test]
fn test_single() {
    let tokens = tokenize(&vec![String::from("\\")]);
    println!("{:?}", tokens);
    assert!(tokens.is_ok());
    let tokens = tokens.unwrap();
    assert_eq!(tokens.len(), 1);
    assert_eq!(tokens[0].1, Token::Lambda);

    let tokens = tokenize(&vec![String::from("'A'")]);
    println!("{:?}", tokens);
    assert!(tokens.is_ok());
    let tokens = tokens.unwrap();
    assert_eq!(tokens.len(), 1);
    assert_eq!(tokens[0].1, Token::Char(65));
}

#[test]
fn test_long() {
    let tokens = tokenize(&vec![String::from("f = \\g x.g(g(x))")]);
    println!("{:?}", tokens);
    assert!(tokens.is_ok());
    let tokens = tokens.unwrap();
    let expected = vec![
        Token::Name(String::from("f")),
        Token::Assign,
        Token::Lambda,
        Token::Name(String::from("g")),
        Token::Name(String::from("x")),
        Token::Period,
        Token::Call(String::from("g")),
        Token::Call(String::from("g")),
        Token::Name(String::from("x")),
        Token::Rpar,
        Token::Rpar,
    ];
    assert_eq!(tokens.len(), expected.len());
    for (i, t) in expected.into_iter().enumerate() {
        assert_eq!(tokens[i].1, t);
    }
}

#[test]
fn test_single_err() {
    let errs = tokenize(&vec![String::from("¤")]);
    println!("{:?}", errs);
    assert!(errs.is_err());
    let errs = errs.unwrap_err();
    assert_eq!(errs.len(), 1);
    assert_eq!(errs[0].1, String::from("¤"));

    let errs = tokenize(&vec![String::from("error ¤")]);
    println!("{:?}", errs);
    assert!(errs.is_err());
    let errs = errs.unwrap_err();
    assert_eq!(errs.len(), 1);
    assert_eq!(errs[0].1, String::from("¤"));

    let errs = tokenize(&vec![String::from("¤ error")]);
    println!("{:?}", errs);
    assert!(errs.is_err());
    let errs = errs.unwrap_err();
    assert_eq!(errs.len(), 1);
    assert_eq!(errs[0].1, String::from("¤"));
}
