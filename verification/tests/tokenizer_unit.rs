use snailplate_parser::parse_error::{Component, ParseError, Source};
use snailplate_parser::span::Span;
use snailplate_parser::token::Token;
use snailplate_parser::tokenbody::TokenBody;
use snailplate_parser::tokenizer::ident::{ident_match, Ident};
use snailplate_parser::tokenizer::Tokenizer;

fn unit_same_source(a: &Source, b: &Source) -> bool {
    a.pos_zero == b.pos_zero && a.component == b.component && a.code == b.code
}

// Diagnostics are compared on everything but the tag of the emitting site.
fn unit_same_token(got: &Token, expect: &Token) -> bool {
    match (got, expect) {
        (Token::Error(p1), Token::Error(p2))
        | (Token::Fatal(p1), Token::Fatal(p2))
        | (Token::Warning(p1), Token::Warning(p2)) => match (p1, p2) {
            (ParseError::NoMemory(s1), ParseError::NoMemory(s2))
            | (ParseError::InternalError(s1), ParseError::InternalError(s2))
            | (ParseError::OpenInstruction(s1), ParseError::OpenInstruction(s2))
            | (ParseError::InstructionError(s1), ParseError::InstructionError(s2))
            | (ParseError::InstructionNotOpen(s1), ParseError::InstructionNotOpen(s2))
            | (ParseError::InstructionMissingArgs(s1), ParseError::InstructionMissingArgs(s2))
            | (ParseError::UnwantedWhiteSpace(s1), ParseError::UnwantedWhiteSpace(s2))
            | (ParseError::NoInput(s1), ParseError::NoInput(s2)) => unit_same_source(s1, s2),
            _ => p1 == p2,
        },
        _ => got == expect,
    }
}

// Holds the tokens that `t` returns against `list`. With `allow_unbuffered`
// unset, the scanner is only asked for what is in its queue.
fn unit_match_or_fail(
    t: &mut Tokenizer,
    list: &[Token],
    allow_unbuffered: bool,
) -> Result<(), (Option<Token>, Option<Token>)> {
    let mut idx = 0;
    let idx_oob = list.len();
    while let Some(token) = t.next() {
        if idx >= idx_oob {
            return Err((None, Some(token)));
        }
        if let Token::StateChange = token {
            continue;
        }
        match list.get(idx) {
            Some(expect) => {
                if !unit_same_token(&token, expect) {
                    return Err((Some(*expect), Some(token)));
                }
            }
            None => return Err((None, Some(token))),
        }
        idx += 1;
        if !allow_unbuffered && t.tokenbuf().buf_len() < 1 {
            break;
        }
    }
    if idx < idx_oob {
        if let Some(expect) = list.get(idx) {
            return Err((Some(*expect), None));
        }
    }
    Ok(())
}

fn defered(index: usize, line: usize, length: usize, pos_line: usize, pos_region: usize, pos_zero: usize) -> Token {
    Token::Real(TokenBody::Defered(Span { index, line, length, pos_line, pos_region, pos_zero }))
}

fn newline(index: usize, line: usize, pos_line: usize, pos_region: usize, pos_zero: usize) -> Token {
    Token::Real(TokenBody::Newline(Span { index, line, length: 1, pos_line, pos_region, pos_zero }))
}

fn wsp(index: usize, line: usize, length: usize, pos_line: usize, pos_region: usize, pos_zero: usize) -> Token {
    Token::Real(TokenBody::WhiteSpace(Span { index, line, length, pos_line, pos_region, pos_zero }))
}

fn wsp_whole(index: usize, line: usize, length: usize, pos_line: usize, pos_region: usize, pos_zero: usize) -> Token {
    Token::Real(TokenBody::WhiteSpaceWhole(Span { index, line, length, pos_line, pos_region, pos_zero }))
}

fn wsp_tr(index: usize, line: usize, length: usize, pos_line: usize, pos_region: usize, pos_zero: usize) -> Token {
    Token::Real(TokenBody::WhiteSpaceTr(Span { index, line, length, pos_line, pos_region, pos_zero }))
}

fn wsp_ld(index: usize, line: usize, length: usize, pos_line: usize, pos_region: usize, pos_zero: usize) -> Token {
    Token::Real(TokenBody::WhiteSpaceLd(Span { index, line, length, pos_line, pos_region, pos_zero }))
}

#[test]
fn tokenizer_test_buf_generic() {
    let mut t = Tokenizer::new();
    for i in 0..3 {
        let tok = defered(0, 0, 1, i, i, i);
        if t.tokenbuf_push(tok).is_err() {
            panic!("could not push token into tokenbuf!");
        }
    }
    assert_eq!(t.tokenbuf().num_tokens(), t.tokenbuf().buf_len(), "Bad num_tokens count!");
    for i in 0..3 {
        match t.tokenbuf_consume() {
            Ok(Some(token)) => match token {
                Token::Real(body) => match body {
                    TokenBody::Defered(span) => {
                        assert_eq!(span.pos_region, i, "Wrong order for consumed token.");
                        assert_eq!(span.pos_line, i, "Wrong order for consumed token.");
                        assert_eq!(span.pos_zero, i, "Wrong order for consumed token.");
                    }
                    tokbody => panic!("Received unexpected token body: {:?}", tokbody),
                },
                tok => panic!("Received unexpected token: {:?}", tok),
            },
            Ok(None) => panic!("Received none, although expected token."),
            Err(etok) => panic!("Could not get token out: Error: {:?}", etok),
        }
    }
    match t.tokenbuf_consume() {
        Ok(Some(tok)) => panic!("Received some token when none should be available: {:?}", tok),
        Ok(None) => {}
        Err(etok) => panic!("Could not get token out: Error: {:?}", etok),
    }
}

#[test]
fn tokenizer_src_push() {
    let mut t = Tokenizer::new();
    if let Err(e) = t.src_push(None, "test".into()) {
        panic!("Expected Ok(None), got: Err({:?})", e);
    }
    if let Err(e) = t.src_push(None, "test".into()) {
        panic!("Expected Ok(None), got: Err({:?})", e);
    }
}

#[test]
fn test_tokenizer_return_tokenized_01() {
    let mut t = Tokenizer::new();
    if let Err(e) = t.src_push(None, "AAABBB".into()) {
        panic!("Expected Ok(None), got: Err({:?})", e);
    }
    match t.return_tokenized(defered(0, 0, 3, 0, 0, 0)) {
        Some(Token::Real(..)) => {}
        Some(token) => panic!("Bad token returned from Tokenizer! Expected Token::Real, got {:?}", token),
        None => panic!("Token-1 was not returned!"),
    }
    assert_eq!(t.index(), 0);
    assert_eq!(t.pos_region(), 3);
    assert_eq!(t.pos_line(), 3);
    assert_eq!(t.pos_zero(), 3);

    match t.return_tokenized(Token::StateChange) {
        Some(Token::StateChange) => {}
        Some(token) => panic!("Bad token returned from Tokenizer! Expected Token::StateChange, got {:?}", token),
        None => panic!("Token-2 was not returned!"),
    }
    assert_eq!(t.index(), 0);
    assert_eq!(t.pos_region(), 3);
    assert_eq!(t.pos_line(), 3);
    assert_eq!(t.pos_zero(), 3);

    match t.return_tokenized(defered(0, 0, 3, 3, 3, 3)) {
        Some(Token::Real(..)) => {}
        Some(token) => panic!("Bad token returned from Tokenizer! Expected Token::Real, got {:?}", token),
        None => panic!("Token-1 was not returned!"),
    }
    assert_eq!(t.index(), 0);
    assert_eq!(t.pos_region(), 6);
    assert_eq!(t.pos_line(), 6);
    assert_eq!(t.pos_zero(), 6);
}

#[test]
fn test_tokenizer_defered_tokenize_01() {
    let mut t = Tokenizer::new();
    for src in ["CCC", "BBB", "AAA"] {
        if let Err(e) = t.src_push(None, src.into()) {
            panic!("Expected Ok(None), got: Err({:?})", e);
        }
    }
    for index in [2usize, 1, 0] {
        match t.defered_tokenize() {
            Some(token) => match token.span_clone() {
                Some(span) => assert_eq!(
                    span.index, index,
                    "Span-1 does not contain values as expected. Span: {:?}", span
                ),
                None => panic!("Token does not have span. Token: {:?}", token),
            },
            None => panic!("Token-1 is None!"),
        }
    }
}

// Runs `whitespace_into_tokenbuf` on each source in turn. A source holds a
// run (optional), whitespace, and a run (optional); each further source is
// pushed behind the whitespace of the one before, the way an included file
// is. The runs behind the whitespace come out last, innermost first.
fn unit_whitespace_into_tokenbuf(src: Vec<(&str, usize, usize, usize)>, expect: Vec<Token>) {
    let mut t = Tokenizer::new();
    let mut reverse = Vec::new();
    let mut slice_base = 0;
    for (index, item) in src.iter().enumerate() {
        if let Err(e) = t.src_push(None, item.0.into()) {
            panic!("Expected Ok(None), got: Err({:?})", e);
        }
        let len_region = item.0.len();
        let pos_region = item.1;
        let line_start = item.2;
        let line_end = item.3;
        if pos_region > len_region {
            panic!("Incorrect test data, pos_region > than source size!");
        }
        let mut pos_defer = len_region - 1;
        let bytes = item.0.as_bytes();
        while pos_defer > 0 {
            match bytes[pos_defer] {
                0x0A | 0x20 | 0x09 => {
                    pos_defer += 1;
                    break;
                }
                _ => {}
            }
            pos_defer -= 1;
        }
        let len_whitespace = if pos_region > 0 {
            pos_defer - pos_region
        } else {
            pos_defer = len_region;
            len_region
        };
        let line = t.line();
        if pos_region > 0 {
            let _ = t.tokenbuf_push(defered(index, line, pos_region, 0, 0, t.pos_zero()));
        }
        if let Some(error_token) =
            t.whitespace_into_tokenbuf(index, pos_region, len_whitespace, line_start, line_end)
        {
            panic!(
                "Could not convert whitespace region into Tokens in tokenbuf. Error: {:?}",
                error_token
            );
        }
        let num_tokens = t.tokenbuf().buf_len();
        if let Err((expect, got)) =
            unit_match_or_fail(&mut t, &expect[slice_base..slice_base + num_tokens], false)
        {
            panic!("Token mismatch. Expect: {:?} vs got: {:?}", expect, got);
        }
        let pos_line = t.pos_line();
        slice_base += num_tokens;
        if len_region > pos_defer {
            reverse.push(defered(index, t.line(), len_region - pos_defer, pos_line, pos_defer, t.pos_zero()));
        }
    }

    let num_tokens = reverse.len();
    let slice_end = slice_base + num_tokens;
    if slice_end > expect.len() {
        panic!("Expected less items than there will be available!");
    }
    if num_tokens > 0 {
        let mut pos_zero = 0;
        for token in reverse.into_iter().rev() {
            let mut span_2 = match token.span_clone() {
                Some(span) => span,
                None => panic!("Could not clone span!"),
            };
            if pos_zero < span_2.pos_zero {
                pos_zero = span_2.pos_zero;
            }
            span_2.pos_zero = pos_zero;
            pos_zero += span_2.length;
            let _ = t.tokenbuf_push(Token::Real(TokenBody::Defered(span_2)));
        }
    }
    if let Err((expect, got)) = unit_match_or_fail(&mut t, &expect[slice_base..slice_end], true) {
        panic!("Token mismatch. Expect: {:?} vs got: {:?}", expect, got);
    }
}

#[test]
fn test_whitespace_into_tokenbuf_01() {
    unit_whitespace_into_tokenbuf(
        vec![(" \t \n\n  \n", 0, 0, 3)],
        vec![
            wsp_whole(0, 0, 3, 0, 0, 0),
            newline(0, 0, 3, 3, 3),
            newline(0, 1, 0, 4, 4),
            wsp_whole(0, 2, 2, 0, 5, 5),
            newline(0, 2, 2, 7, 7),
        ],
    );
}

#[test]
fn test_whitespace_into_tokenbuf_02() {
    unit_whitespace_into_tokenbuf(
        vec![("   \n\n  \n  \t  ", 0, 0, 3)],
        vec![
            wsp_whole(0, 0, 3, 0, 0, 0),
            newline(0, 0, 3, 3, 3),
            newline(0, 1, 0, 4, 4),
            wsp_whole(0, 2, 2, 0, 5, 5),
            newline(0, 2, 2, 7, 7),
            wsp(0, 3, 5, 0, 8, 8),
        ],
    );
}

#[test]
fn test_whitespace_into_tokenbuf_03() {
    unit_whitespace_into_tokenbuf(vec![(" \t ", 0, 0, 0)], vec![wsp(0, 0, 3, 0, 0, 0)]);
}

#[test]
fn test_whitespace_into_tokenbuf_04() {
    unit_whitespace_into_tokenbuf(
        vec![("S1 E1", 2, 0, 0), ("S2 E2", 2, 0, 0), ("S3 E3", 2, 0, 0)],
        vec![
            defered(0, 0, 2, 0, 0, 0),
            wsp(0, 0, 1, 2, 2, 2),
            defered(1, 0, 2, 0, 0, 3),
            wsp(1, 0, 1, 2, 2, 5),
            defered(2, 0, 2, 0, 0, 6),
            wsp(2, 0, 1, 2, 2, 8),
            defered(2, 0, 2, 3, 3, 9),
            defered(1, 0, 2, 3, 3, 11),
            defered(0, 0, 2, 3, 3, 13),
        ],
    );
}

fn unit_first_tuple() -> Vec<Token> {
    vec![
        defered(0, 0, 2, 0, 0, 0),
        wsp_tr(0, 0, 3, 2, 2, 2),
        newline(0, 0, 5, 5, 5),
        wsp_whole(0, 1, 1, 0, 6, 6),
        newline(0, 1, 1, 7, 7),
        newline(0, 2, 0, 8, 8),
    ]
}

#[test]
fn test_whitespace_into_tokenbuf_05() {
    let mut expect = unit_first_tuple();
    expect.push(wsp_ld(0, 3, 5, 0, 9, 9));
    expect.push(defered(0, 3, 2, 5, 14, 14));
    unit_whitespace_into_tokenbuf(vec![("S1   \n \n\n     E1", 2, 0, 3)], expect);
}

#[test]
fn test_whitespace_into_tokenbuf_06() {
    let mut expect = unit_first_tuple();
    expect.push(wsp_ld(0, 3, 5, 0, 9, 9));
    expect.push(defered(1, 0, 2, 0, 0, 14));
    expect.push(wsp(1, 0, 2, 2, 2, 16));
    expect.push(defered(1, 0, 2, 4, 4, 18));
    expect.push(defered(0, 3, 2, 5, 14, 20));
    unit_whitespace_into_tokenbuf(
        vec![("S1   \n \n\n     E1", 2, 0, 3), ("S2  E2", 2, 0, 0)],
        expect,
    );
}

#[test]
fn test_whitespace_into_tokenbuf_07() {
    let mut expect = unit_first_tuple();
    expect.push(wsp_ld(0, 3, 5, 0, 9, 9));
    expect.push(defered(1, 0, 2, 0, 0, 14));
    expect.push(wsp(1, 0, 2, 2, 2, 16));
    expect.push(defered(2, 0, 2, 0, 0, 18));
    expect.push(wsp_tr(2, 0, 2, 2, 2, 20));
    expect.push(newline(2, 0, 4, 4, 22));
    expect.push(wsp_whole(2, 1, 3, 0, 5, 23));
    expect.push(newline(2, 1, 3, 8, 26));
    expect.push(wsp_whole(2, 2, 1, 0, 9, 27));
    expect.push(newline(2, 2, 1, 10, 28));
    expect.push(defered(2, 3, 2, 0, 11, 29));
    expect.push(defered(1, 0, 2, 4, 4, 31));
    expect.push(defered(0, 3, 2, 5, 14, 33));
    unit_whitespace_into_tokenbuf(
        vec![
            ("S1   \n \n\n     E1", 2, 0, 3),
            ("S2  E2", 2, 0, 0),
            ("S3 \t\n \t \n \nE3", 2, 0, 3),
        ],
        expect,
    );
}

#[test]
fn test_whitespace_into_tokenbuf_08() {
    let mut expect = unit_first_tuple();
    expect.push(wsp(0, 3, 5, 0, 9, 9));
    unit_whitespace_into_tokenbuf(vec![("S1   \n \n\n     ", 2, 0, 3)], expect);
}

#[test]
fn test_whitespace_into_tokenbuf_09() {
    unit_whitespace_into_tokenbuf(vec![("S1   \n \n\n", 2, 0, 3)], unit_first_tuple());
}

#[test]
fn test_whitespace_into_tokenbuf_10() {
    unit_whitespace_into_tokenbuf(
        vec![("\n", 0, 0, 1), ("\n", 0, 0, 1)],
        vec![newline(0, 0, 0, 0, 0), newline(1, 0, 0, 0, 1)],
    );
}

#[test]
fn test_whitespace_into_tokenbuf_11() {
    unit_whitespace_into_tokenbuf(vec![("\n", 0, 0, 1)], vec![newline(0, 0, 0, 0, 0)]);
}

#[test]
#[should_panic]
fn test_whitespace_into_tokenbuf_12() {
    // The bytes hold no newline and are said to hold three.
    unit_whitespace_into_tokenbuf(
        vec![(" ", 0, 0, 3)],
        vec![Token::Fatal(ParseError::InternalError(Source {
            pos_zero: 0,
            component: Component::Tokenizer,
            line: 0,
            code: 0,
        }))],
    );
}

#[test]
fn test_whitespace_into_tokenbuf_13() {
    unit_whitespace_into_tokenbuf(vec![(" ", 0, 0, 0)], vec![wsp(0, 0, 1, 0, 0, 0)]);
}

#[test]
fn tokenizer_ident_test_01() {
    let buf = "include(filename)".as_bytes();
    let ident = ident_match(buf, 0, 6);
    if let Ident::Include(start, end) = ident {
        assert_eq!(start, 0);
        assert_eq!(end, 6);
    } else {
        panic!("Bad ident returned. Expected Ident::Include, got: {:?}", ident);
    }
}

#[test]
fn tokenizer_slice_test_01() {
    let mut t = Tokenizer::new();
    if let Err(e) = t.src_push(None, "XXPASS0XX".into()) {
        panic!("Expected Ok(None), got: Err({:?})", e);
    }
    if let Err(e) = t.src_push(None, "YYYPASS1YYY".into()) {
        panic!("Expected Ok(None), got: Err({:?})", e);
    }
    let span1 = Span { index: 0, length: 5, pos_region: 2, pos_line: 2, pos_zero: 2, line: 0 };
    match t.span_slice(&span1) {
        Some(slice) => {
            let slicestr = String::from_utf8(slice.to_vec()).expect("Invalid utf-8 string.");
            assert_eq!(slicestr, "PASS0");
        }
        None => panic!("Could not create slice1 from bytes."),
    }
    let span2 = Span { index: 1, length: 5, pos_region: 3, pos_line: 3, pos_zero: 5, line: 0 };
    match t.span_slice(&span2) {
        Some(slice) => {
            let slicestr = String::from_utf8(slice.to_vec()).expect("Invalid utf-8 string.");
            assert_eq!(slicestr, "PASS1");
        }
        None => panic!("Could not create slice1 from bytes."),
    }
}

#[test]
fn tokenizer_iterator_test_01() {
    let mut t = Tokenizer::new();
    if let Err(e) = t.src_push(None, "AAABBB".into()) {
        panic!("Expected Ok(None), got: Err({:?})", e);
    }
    let _ = t.tokenbuf_push(defered(0, 0, 3, 0, 0, 0));
    let _ = t.tokenbuf_push(defered(0, 0, 3, 3, 3, 3));

    match t.next() {
        Some(Token::Real(TokenBody::Defered(span))) => {
            assert_eq!(span.index, 0);
            assert_eq!(span.line, 0);
            assert_eq!(span.pos_region, 0);
            assert_eq!(span.pos_zero, 0);
            assert_eq!(span.pos_line, 0);
            assert_eq!(span.length, 3);
        }
        Some(token) => panic!("Bad token-1 returned! Token: {:?}", token),
        None => panic!("Token-1 was not returned."),
    }
    match t.next() {
        Some(Token::Real(TokenBody::Defered(span))) => {
            assert_eq!(span.index, 0);
            assert_eq!(span.line, 0);
            assert_eq!(span.pos_region, 3);
            assert_eq!(span.pos_zero, 3);
            assert_eq!(span.pos_line, 3);
            assert_eq!(span.length, 3);
        }
        Some(_) => panic!("Bad token-2 returned!"),
        None => panic!("Token-2 was not returned."),
    }
    if t.next().is_some() {
        panic!("Received token, when None should be returned.");
    }
}

#[test]
fn tokenizer_iterator_test_02() {
    let mut t = Tokenizer::new();
    let _ = t.src_push(None, "CCC".into());
    let _ = t.src_push(None, "BBB".into());
    let _ = t.src_push(None, "AAA".into());
    let list = vec![defered(2, 0, 3, 0, 0, 0), defered(1, 0, 3, 0, 0, 3), defered(0, 0, 3, 0, 0, 6)];
    if let Err((expect, got)) = unit_match_or_fail(&mut t, &list, true) {
        panic!("Token mismatch. Expect: {:?} vs got: {:?}", expect, got);
    }
}

#[test]
fn tokenizer_iterator_test_03() {
    let mut t = Tokenizer::new();
    let _ = t.src_push(None, "XXXXXXX".into());
    let list = vec![
        Token::Phantom(TokenBody::Defered(Span {
            index: 0, line: 0, pos_line: 0, pos_region: 0, pos_zero: 0, length: 1,
        })),
        Token::Phantom(TokenBody::Defered(Span {
            index: 0, line: 0, pos_line: 1, pos_region: 1, pos_zero: 1, length: 5,
        })),
        Token::Phantom(TokenBody::Defered(Span {
            index: 0, line: 0, pos_line: 6, pos_region: 6, pos_zero: 6, length: 1,
        })),
    ];
    for token in list.iter() {
        let _ = t.tokenbuf_push(*token);
    }
    if let Err((expect, got)) = unit_match_or_fail(&mut t, &list, true) {
        panic!("Token mismatch. Expect: {:?} vs got: {:?}", expect, got);
    }
}

#[test]
fn tokenizer_iterator_test_04() {
    let mut t = Tokenizer::new();
    let mut num_token = 0;
    while let Some(token) = t.next() {
        num_token += 1;
        if let Token::Error(parse_error) = token {
            if let ParseError::NoInput(..) = parse_error {
            } else {
                panic!("Expected ParseError::NoInput, got: {:?}", parse_error);
            }
        } else {
            panic!("Expected Token::Error, got: {:?}", token);
        }
    }
    assert_eq!(num_token, 1, "We expect to have exactly one token and it should be an error.");
}
