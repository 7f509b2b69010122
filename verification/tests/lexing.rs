use bao::token::{ErrorKind, TokenKind};
use bao::tokenizer::{tokenize, Tokens};

fn kinds(src: &str) -> Vec<TokenKind> {
    tokenize(src.as_bytes())
        .unwrap()
        .into_iter()
        .map(|t| t.kind)
        .collect()
}

#[test]
fn string_char_int_triples() {
    let toks = tokenize(b"\"abc\" 'a' -12").unwrap();
    assert_eq!(toks.len(), 3);

    assert_eq!(toks[0].kind, TokenKind::Str);
    assert_eq!(toks[0].as_bytes(), b"\"abc\"");
    assert_eq!(toks[0].location.line, 1);
    assert_eq!(toks[0].location.column, 0);

    assert_eq!(toks[1].kind, TokenKind::Char);
    assert_eq!(toks[1].as_bytes(), b"'a'");
    assert_eq!(toks[1].location.line, 1);
    assert_eq!(toks[1].location.column, 6);

    assert_eq!(toks[2].kind, TokenKind::Int);
    assert_eq!(toks[2].as_bytes(), b"-12");
    assert_eq!(toks[2].location.line, 1);
    assert_eq!(toks[2].location.column, 10);
}

#[test]
fn as_str_decodes_text() {
    let toks = tokenize(b"hello \"hi\"").unwrap();
    assert_eq!(toks[0].as_str(), "hello");
    assert_eq!(toks[1].as_str(), "\"hi\"");
}

#[test]
fn lines_and_columns_across_newlines_and_comments() {
    let toks = tokenize(b"a\n# comment\n  b").unwrap();
    assert_eq!(toks.len(), 2);
    assert_eq!(toks[0].as_bytes(), b"a");
    assert_eq!((toks[0].location.line, toks[0].location.column), (1, 0));
    assert_eq!(toks[1].as_bytes(), b"b");
    assert_eq!((toks[1].location.line, toks[1].location.column), (3, 2));
}

#[test]
fn keywords_and_identifiers() {
    assert_eq!(
        kinds("nil true false if let x"),
        vec![
            TokenKind::Nil,
            TokenKind::True,
            TokenKind::False,
            TokenKind::If,
            TokenKind::Let,
            TokenKind::Ident,
        ]
    );
}

#[test]
fn symbolic_names_are_identifiers() {
    let toks = tokenize(b"+ - = not= < <= not").unwrap();
    assert_eq!(toks.len(), 7);
    for t in &toks {
        assert_eq!(t.kind, TokenKind::Ident);
    }
    assert_eq!(toks[3].as_bytes(), b"not=");
    assert_eq!(toks[5].as_bytes(), b"<=");
}

#[test]
fn punctuation_kinds() {
    assert_eq!(
        kinds("( ) |"),
        vec![TokenKind::LParen, TokenKind::RParen, TokenKind::Pipe]
    );
}

#[test]
fn minus_alone_is_an_identifier() {
    let toks = tokenize(b"-").unwrap();
    assert_eq!(toks.len(), 1);
    assert_eq!(toks[0].kind, TokenKind::Ident);
    assert_eq!(toks[0].as_bytes(), b"-");
}

#[test]
fn minus_before_digit_is_an_integer() {
    let toks = tokenize(b"-7").unwrap();
    assert_eq!(toks[0].kind, TokenKind::Int);
    assert_eq!(toks[0].as_bytes(), b"-7");
}

#[test]
fn string_keeps_raw_escapes() {
    let toks = tokenize(b"\"a\\nb\"").unwrap();
    assert_eq!(toks.len(), 1);
    assert_eq!(toks[0].kind, TokenKind::Str);
    assert_eq!(toks[0].as_bytes(), b"\"a\\nb\"");
}

#[test]
fn escaped_quote_stays_inside_string() {
    let toks = tokenize(b"\"a\\\"b\"").unwrap();
    assert_eq!(toks.len(), 1);
    assert_eq!(toks[0].as_bytes(), b"\"a\\\"b\"");
}

#[test]
fn unexpected_character_is_located() {
    let e = tokenize(b"ok\n\x01").unwrap_err();
    assert_eq!(e.kind, ErrorKind::UnexpectedCharacter);
    assert_eq!((e.line, e.column), (2, 0));
}

#[test]
fn unterminated_string_fails() {
    let e = tokenize(b"\"abc").unwrap_err();
    assert_eq!(e.kind, ErrorKind::UnexpectedEof);
}

#[test]
fn comment_hitting_end_of_input_fails() {
    let e = tokenize(b"1 # trailing").unwrap_err();
    assert_eq!(e.kind, ErrorKind::UnexpectedEof);
}

#[test]
fn empty_source_has_no_tokens() {
    assert_eq!(tokenize(b"").unwrap().len(), 0);
    assert_eq!(tokenize(b"   \n\t").unwrap().len(), 0);
}

#[test]
fn streaming_lexer_hands_out_tokens_one_by_one() {
    let src = b"let x";
    let mut tz = Tokens::new(src);
    let t1 = tz.next_token().unwrap().unwrap();
    assert_eq!(t1.kind, TokenKind::Let);
    let t2 = tz.next_token().unwrap().unwrap();
    assert_eq!(t2.kind, TokenKind::Ident);
    assert!(tz.next_token().unwrap().is_none());
}

#[test]
fn integer_at_end_of_input_is_a_token() {
    let toks = tokenize(b"12").unwrap();
    assert_eq!(toks.len(), 1);
    assert_eq!(toks[0].kind, TokenKind::Int);
    assert_eq!(toks[0].as_bytes(), b"12");
}
