use compiler::lexer::{
    assemblable_u8, classify, itemize, lex, parse_literal, punctuation_u8, Keyword, Operator,
    Token, Type,
};

fn ident(name: &str) -> Token {
    Token::Identifier(name.to_string())
}

fn items_of(code: &[u8]) -> Vec<Vec<u8>> {
    itemize(code).into_iter().map(|item| item.to_vec()).collect()
}

#[test]
fn empty_input_has_no_tokens() {
    assert_eq!(lex(b""), Vec::<Token>::new());
    assert_eq!(lex(b"  \r\n \n"), Vec::<Token>::new());
}

#[test]
fn two_character_operators_are_one_token() {
    assert_eq!(lex(b"->"), vec![Token::Arrow]);
    assert_eq!(lex(b"=="), vec![Token::Operator(Operator::Equal)]);
    assert_eq!(lex(b"<="), vec![Token::Operator(Operator::LE)]);
    assert_eq!(lex(b">="), vec![Token::Operator(Operator::GE)]);
    assert_eq!(lex(b"<<"), vec![Token::Operator(Operator::LShift)]);
    assert_eq!(lex(b">>"), vec![Token::Operator(Operator::RShift)]);
}

#[test]
fn single_character_tokens() {
    assert_eq!(
        lex(b"< > ; : ( ) { } * / + - = . ,"),
        vec![
            Token::Operator(Operator::LT),
            Token::Operator(Operator::GT),
            Token::Semicolon,
            Token::Colon,
            Token::OpenParanthesis,
            Token::CloseParanthesis,
            Token::OpenBrace,
            Token::CloseBrace,
            Token::Operator(Operator::Mul),
            Token::Operator(Operator::Div),
            Token::Operator(Operator::Add),
            Token::Operator(Operator::Sub),
            Token::Operator(Operator::Assign),
            Token::Operator(Operator::Dot),
            Token::Comma,
        ]
    );
}

#[test]
fn keywords_are_recognized() {
    assert_eq!(
        lex(b"fn return isize usize i64 u64 let if else match while for"),
        vec![
            Token::Keyword(Keyword::Fn),
            Token::Keyword(Keyword::Return),
            Token::Keyword(Keyword::Type(Type::Isize)),
            Token::Keyword(Keyword::Type(Type::Usize)),
            Token::Keyword(Keyword::Type(Type::I64)),
            Token::Keyword(Keyword::Type(Type::U64)),
            Token::Keyword(Keyword::Let),
            Token::Keyword(Keyword::If),
            Token::Keyword(Keyword::Else),
            Token::Keyword(Keyword::Match),
            Token::Keyword(Keyword::While),
            Token::Keyword(Keyword::For),
        ]
    );
}

#[test]
fn trailing_assemblable_byte_is_its_own_token() {
    assert_eq!(lex(b"x="), vec![ident("x"), Token::Operator(Operator::Assign)]);
    assert_eq!(lex(b"="), vec![Token::Operator(Operator::Assign)]);
    assert_eq!(lex(b"x ="), vec![ident("x"), Token::Operator(Operator::Assign)]);
    assert_eq!(lex(b"abc<"), vec![ident("abc"), Token::Operator(Operator::LT)]);
}

#[test]
fn pending_item_is_kept_at_the_end() {
    assert_eq!(lex(b"abc"), vec![ident("abc")]);
    assert_eq!(lex(b"a b"), vec![ident("a"), ident("b")]);
}

#[test]
fn function_source_lexes_to_expected_tokens() {
    let tokens = lex(b"fn add(a: isize, b: isize) -> isize { return a; }");
    let isize_kw = Token::Keyword(Keyword::Type(Type::Isize));
    assert_eq!(
        tokens,
        vec![
            Token::Keyword(Keyword::Fn),
            ident("add"),
            Token::OpenParanthesis,
            ident("a"),
            Token::Colon,
            isize_kw.clone(),
            Token::Comma,
            ident("b"),
            Token::Colon,
            isize_kw.clone(),
            Token::CloseParanthesis,
            Token::Arrow,
            isize_kw,
            Token::OpenBrace,
            Token::Keyword(Keyword::Return),
            ident("a"),
            Token::Semicolon,
            Token::CloseBrace,
        ]
    );
}

#[test]
fn arithmetic_source_lexes_to_expected_tokens() {
    let expected = vec![
        Token::Literal(1),
        Token::Operator(Operator::Add),
        Token::Literal(2),
        Token::Operator(Operator::Mul),
        Token::Literal(3),
    ];
    assert_eq!(lex(b"1 + 2 * 3"), expected);
    assert_eq!(lex(b"1+2*3"), expected);
}

#[test]
fn adjacent_operators_merge_without_table_entry() {
    assert_eq!(lex(b"+-"), vec![Token::Unrecognizable]);
    assert_eq!(lex(b"=="), vec![Token::Operator(Operator::Equal)]);
    assert_eq!(
        lex(b"==="),
        vec![Token::Operator(Operator::Equal), Token::Operator(Operator::Assign)]
    );
    assert_eq!(items_of(b"a<=b"), vec![b"a".to_vec(), b"<=".to_vec(), b"b".to_vec()]);
    assert_eq!(items_of(b"a<-:b"), vec![b"a".to_vec(), b"<-".to_vec(), b":".to_vec(), b"b".to_vec()]);
}

#[test]
fn lone_symbol_joins_following_assemblable_byte() {
    assert_eq!(items_of(b"!="), vec![b"!=".to_vec()]);
    assert_eq!(items_of(b"!=="), vec![b"!=".to_vec(), b"=".to_vec()]);
    assert_eq!(items_of(b"a="), vec![b"a".to_vec(), b"=".to_vec()]);
    assert_eq!(items_of(b"7="), vec![b"7".to_vec(), b"=".to_vec()]);
    assert_eq!(items_of(b"!!="), vec![b"!!".to_vec(), b"=".to_vec()]);
    assert_eq!(lex(b"!="), vec![ident("!=")]);
}

#[test]
fn punctuation_splits_items() {
    assert_eq!(
        items_of(b"f(x,y);"),
        vec![
            b"f".to_vec(),
            b"(".to_vec(),
            b"x".to_vec(),
            b",".to_vec(),
            b"y".to_vec(),
            b")".to_vec(),
            b";".to_vec()
        ]
    );
    assert_eq!(items_of(b"=("), vec![b"=".to_vec(), b"(".to_vec()]);
    assert_eq!(items_of(b"=x"), vec![b"=".to_vec(), b"x".to_vec()]);
}

#[test]
fn newlines_separate_items() {
    assert_eq!(items_of(b"ab\ncd\r\nef"), vec![b"ab".to_vec(), b"cd".to_vec(), b"ef".to_vec()]);
    assert_eq!(items_of(b"a\tb"), vec![b"a\tb".to_vec()]);
}

#[test]
fn items_keep_every_byte_but_blanks() {
    let code: &[u8] = b"fn f ( a:isize )->isize{ a=a+1 ; return a<<2 ; }\r\n";
    let joined: Vec<u8> = itemize(code).concat();
    let kept: Vec<u8> =
        code.iter().copied().filter(|v| *v != b' ' && *v != b'\r' && *v != b'\n').collect();
    assert_eq!(joined, kept);
    assert_eq!(lex(code).len(), itemize(code).len());
}

#[test]
fn relexing_spaced_items_gives_same_items() {
    let code: &[u8] = b"fn f(a:isize)->isize{a=a+1;return a<<2;} != x== +- 12";
    let items = items_of(code);
    let spaced: Vec<u8> = items.join(&b' ');
    assert_eq!(items_of(&spaced), items);
    assert_eq!(lex(&spaced), lex(code));
}

#[test]
fn literals_are_parsed() {
    assert_eq!(classify(b"0"), Token::Literal(0));
    assert_eq!(classify(b"007"), Token::Literal(7));
    assert_eq!(classify(b"12345"), Token::Literal(12345));
    assert_eq!(classify(b"-42"), Token::Literal(-42));
    assert_eq!(classify(b"+42"), Token::Literal(42));
    assert_eq!(parse_literal(b""), None);
    assert_eq!(parse_literal(b"-"), None);
    assert_eq!(parse_literal(b"+"), None);
    assert_eq!(parse_literal(b"1a"), None);
    assert_eq!(parse_literal(b"--1"), None);
    assert_eq!(parse_literal(b" 1"), None);
}

#[test]
fn literal_limits() {
    let max = isize::MAX.to_string();
    let min = isize::MIN.to_string();
    assert_eq!(parse_literal(max.as_bytes()), Some(isize::MAX));
    assert_eq!(parse_literal(min.as_bytes()), Some(isize::MIN));
    let above = format!("{}0", max);
    let below = format!("{}0", min);
    assert_eq!(parse_literal(above.as_bytes()), None);
    assert_eq!(parse_literal(below.as_bytes()), None);
    assert_eq!(parse_literal(b"9223372036854775808"), "9223372036854775808".parse::<isize>().ok());
    assert_eq!(parse_literal(b"-9223372036854775809"), "-9223372036854775809".parse::<isize>().ok());
    assert_eq!(classify(b"99999999999999999999999999"), Token::Identifier("99999999999999999999999999".to_string()));
}

#[test]
fn malformed_items_are_unrecognizable() {
    assert_eq!(classify(b"=>>"), Token::Unrecognizable);
    assert_eq!(classify(b"(x"), Token::Unrecognizable);
    assert_eq!(classify(b""), Token::Unrecognizable);
    assert_eq!(classify(&[0xff, 0xfe]), Token::Unrecognizable);
    assert_eq!(lex(&[b'a', 0xff]), vec![Token::Unrecognizable]);
}

#[test]
fn identifiers_keep_their_text() {
    assert_eq!(classify(b"add"), ident("add"));
    assert_eq!(classify(b"fnx"), ident("fnx"));
    assert_eq!(classify(b"x1"), ident("x1"));
    assert_eq!(classify("h\u{e9}llo".as_bytes()), ident("h\u{e9}llo"));
    assert_ne!(classify(b"add"), ident("sub"));
}

#[test]
fn byte_classes() {
    for v in b"(){};,." {
        assert!(punctuation_u8(*v));
        assert!(!assemblable_u8(*v));
    }
    for v in b"=-><:+*/" {
        assert!(assemblable_u8(*v));
        assert!(!punctuation_u8(*v));
    }
    for v in b"a Z09_\n" {
        assert!(!assemblable_u8(*v));
        assert!(!punctuation_u8(*v));
    }
}

fn text_of(token: &Token) -> String {
    match token {
        Token::OpenBrace => "{".to_string(),
        Token::CloseBrace => "}".to_string(),
        Token::OpenParanthesis => "(".to_string(),
        Token::CloseParanthesis => ")".to_string(),
        Token::Semicolon => ";".to_string(),
        Token::Colon => ":".to_string(),
        Token::Comma => ",".to_string(),
        Token::Arrow => "->".to_string(),
        Token::Keyword(Keyword::Type(Type::Isize)) => "isize".to_string(),
        Token::Keyword(Keyword::Type(Type::Usize)) => "usize".to_string(),
        Token::Keyword(Keyword::Type(Type::I64)) => "i64".to_string(),
        Token::Keyword(Keyword::Type(Type::U64)) => "u64".to_string(),
        Token::Keyword(Keyword::Return) => "return".to_string(),
        Token::Keyword(Keyword::Fn) => "fn".to_string(),
        Token::Keyword(Keyword::Let) => "let".to_string(),
        Token::Keyword(Keyword::If) => "if".to_string(),
        Token::Keyword(Keyword::Else) => "else".to_string(),
        Token::Keyword(Keyword::Match) => "match".to_string(),
        Token::Keyword(Keyword::While) => "while".to_string(),
        Token::Keyword(Keyword::For) => "for".to_string(),
        Token::Operator(Operator::Equal) => "==".to_string(),
        Token::Operator(Operator::LT) => "<".to_string(),
        Token::Operator(Operator::GT) => ">".to_string(),
        Token::Operator(Operator::LE) => "<=".to_string(),
        Token::Operator(Operator::GE) => ">=".to_string(),
        Token::Operator(Operator::Add) => "+".to_string(),
        Token::Operator(Operator::Sub) => "-".to_string(),
        Token::Operator(Operator::Assign) => "=".to_string(),
        Token::Operator(Operator::Mul) => "*".to_string(),
        Token::Operator(Operator::Div) => "/".to_string(),
        Token::Operator(Operator::Dot) => ".".to_string(),
        Token::Operator(Operator::LShift) => "<<".to_string(),
        Token::Operator(Operator::RShift) => ">>".to_string(),
        Token::Identifier(name) => name.clone(),
        Token::Literal(value) => format!("{}", value),
        Token::Unrecognizable => String::new(),
    }
}

#[test]
fn relexing_written_tokens_gives_same_tokens() {
    let code: &[u8] = b"fn main(a:isize,b:u64)->i64{let c:usize=a*007+b<<2;c=c-1==0;if else match while for . < > <= >= / return c;}";
    let tokens = lex(code);
    assert!(!tokens.contains(&Token::Unrecognizable));
    let mut text = String::new();
    for token in &tokens {
        text.push_str(&text_of(token));
        text.push(' ');
    }
    assert_eq!(lex(text.as_bytes()), tokens);
    assert_eq!(tokens[21], Token::Literal(7));
}
