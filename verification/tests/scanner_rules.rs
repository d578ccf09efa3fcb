use snailplate_parser::parse_error::{Component, ParseError, Source};
use snailplate_parser::span::Span;
use snailplate_parser::token::Token;
use snailplate_parser::tokenbody::TokenBody;
use snailplate_parser::tokenizer::instruction::{find_open, scan_gap};
use snailplate_parser::tokenizer::model::TokenizerState;
use snailplate_parser::tokenizer::whitespace::find_newline;
use snailplate_parser::tokenizer::Tokenizer;

fn rules_span(index: usize, line: usize, pos_line: usize, pos_region: usize, pos_zero: usize, length: usize) -> Span {
    Span { index, line, pos_line, pos_region, pos_zero, length }
}

fn rules_defered(index: usize, line: usize, pos_line: usize, pos_region: usize, pos_zero: usize, length: usize) -> Token {
    Token::Real(TokenBody::Defered(rules_span(index, line, pos_line, pos_region, pos_zero, length)))
}

fn rules_scanner(sources: &[&str]) -> Tokenizer {
    let mut t = Tokenizer::new();
    for source in sources {
        t.src_push(None, (*source).into()).expect("push failed");
    }
    t
}

// Pulls until the stream ends, and holds every content token against the
// place the scanner was in before the pull.
fn rules_drain(t: &mut Tokenizer) -> Vec<Token> {
    let mut out = Vec::new();
    for _ in 0..10_000 {
        let before = (t.index(), t.pos_region(), t.pos_line(), t.pos_zero(), t.line());
        let token = match t.next() {
            Some(token) => token,
            None => return out,
        };
        match token.span_clone() {
            Some(span) => {
                assert_eq!(
                    (span.index, span.pos_region, span.pos_line, span.pos_zero, span.line),
                    before
                );
                assert_eq!(t.pos_zero(), before.3 + span.length);
            }
            None => {
                let after = (t.index(), t.pos_region(), t.pos_line(), t.pos_zero(), t.line());
                assert_eq!(after, before);
            }
        }
        out.push(token);
    }
    panic!("the stream does not end");
}

fn rules_stream(sources: &[&str]) -> Vec<Token> {
    let mut t = rules_scanner(sources);
    let tokens = rules_drain(&mut t);
    tokens.into_iter().filter(|t| *t != Token::StateChange).collect()
}

const RULES_SOURCES: [&str; 14] = [
    "",
    "X\nY",
    "\n\nX\n",
    "@include(",
    "@include()",
    "@include(def\ne@red)",
    "@ include(",
    "@ include)(",
    "a@b)c(d\ne",
    "plain text without anything",
    "x@include \t\n  \n\n    (a\n\nb(c)d)e\n@inclu",
    "@include(a)@include(b)\n@include  (c)",
    "@include123(x)",
    "mail@example.org (home)",
];

// Every content token starts where the one before it ended.
#[test]
fn offsets_are_contiguous() {
    for source in RULES_SOURCES {
        let mut expect = 0;
        for token in rules_stream(&[source]) {
            if let Some(span) = token.span_clone() {
                assert_eq!(span.pos_zero, expect, "in {:?}", source);
                expect += span.length;
            }
        }
    }
}

// Every content token has bytes, but for a run without bytes in the
// arguments of an instruction, which has its newline behind it: so the
// offsets go up from content token to content token.
#[test]
fn content_tokens_have_bytes() {
    let mut empty_runs = 0;
    for source in RULES_SOURCES.iter().copied().chain(["@include(\nx)", "@include(a\n\n\n)z"]) {
        let tokens: Vec<Token> =
            rules_stream(&[source]).into_iter().filter(|t| t.span_clone().is_some()).collect();
        for (i, token) in tokens.iter().enumerate() {
            let span = token.span_clone().expect("no span");
            if span.length == 0 {
                empty_runs += 1;
                assert!(matches!(token, Token::Real(TokenBody::Defered(_))), "in {:?}", source);
                assert!(
                    matches!(tokens.get(i + 1), Some(Token::Real(TokenBody::Newline(_)))),
                    "in {:?}",
                    source
                );
            } else if let Some(next) = tokens.get(i + 1) {
                let behind = next.span_clone().expect("no span");
                assert!(behind.pos_zero > span.pos_zero, "in {:?}", source);
            }
        }
    }
    assert_eq!(empty_runs, 4);
}

// The content tokens of a source give the source back.
#[test]
fn content_tokens_give_the_source_back() {
    for source in RULES_SOURCES {
        let mut t = rules_scanner(&[source]);
        let tokens = rules_drain(&mut t);
        let mut bytes = Vec::new();
        for token in tokens {
            if let Token::Real(body) = token {
                let span = body.span_clone();
                bytes.extend_from_slice(t.span_slice(&span).expect("span does not resolve"));
            }
        }
        assert_eq!(bytes, source.as_bytes(), "in {:?}", source);
        assert_eq!(t.pos_region(), source.len(), "in {:?}", source);
        assert_eq!(t.pos_zero(), source.len(), "in {:?}", source);
    }
}

// Every push but the first is returned from.
#[test]
fn pushes_are_returned_from() {
    let sources = ["CCC", "B\nB", "@include(x)", "A"];
    let mut t = rules_scanner(&sources);
    assert_eq!(t.num_regions(), 4);
    assert_eq!(t.num_snapshots(), 4);
    assert_eq!(t.index(), 3);
    let tokens = rules_drain(&mut t);
    assert_eq!(t.index(), 0);
    assert_eq!(t.num_snapshots(), 1);
    assert_eq!(t.num_regions(), 4);
    assert_eq!(t.pos_zero(), 18);
    assert_eq!(t.pos_region(), 3);
    assert_eq!(t.state(), TokenizerState::ExpectDefered);
    let indexes: Vec<usize> =
        tokens.iter().filter_map(|t| t.span_clone()).map(|s| s.index).collect();
    assert_eq!(indexes, vec![3, 2, 2, 2, 2, 1, 1, 1, 0]);
}

// A region that is pushed while another is being scanned is scanned in its
// place, and the scan goes on behind it, also for a second one.
#[test]
fn regions_pushed_one_after_the_other_return_to_the_first() {
    let mut t = rules_scanner(&["ab\ncd\nef"]);
    assert_eq!(t.next(), Some(rules_defered(0, 0, 0, 0, 0, 2)));
    assert_eq!(
        t.next(),
        Some(Token::Real(TokenBody::Newline(rules_span(0, 0, 2, 2, 2, 1))))
    );
    t.src_push(Some("one"), "ONE".into()).expect("push failed");
    assert_eq!(t.index(), 1);
    assert_eq!(t.num_snapshots(), 2);
    assert_eq!(t.next(), Some(rules_defered(1, 0, 0, 0, 3, 3)));
    assert_eq!((t.index(), t.pos_region(), t.pos_line(), t.line()), (0, 3, 0, 1));
    assert_eq!(t.num_snapshots(), 1);
    assert_eq!(t.next(), Some(rules_defered(0, 1, 0, 3, 6, 2)));
    assert_eq!(
        t.next(),
        Some(Token::Real(TokenBody::Newline(rules_span(0, 1, 2, 5, 8, 1))))
    );
    t.src_push(Some("two"), "TWO".into()).expect("push failed");
    assert_eq!(t.index(), 2);
    assert_eq!(t.next(), Some(rules_defered(2, 0, 0, 0, 9, 3)));
    assert_eq!((t.index(), t.pos_region(), t.pos_line(), t.line()), (0, 6, 0, 2));
    assert_eq!(t.next(), Some(rules_defered(0, 2, 0, 6, 12, 2)));
    assert_eq!(t.next(), None);
    assert_eq!(t.num_snapshots(), 1);
    assert_eq!(t.num_regions(), 3);
}

// A region that is pushed while tokens of another wait in the queue gets in
// their way: the scanner fails on the first of them.
#[test]
fn region_pushed_over_queued_tokens_fails_the_scanner() {
    let mut t = rules_scanner(&["ab\ncd"]);
    assert_eq!(t.next(), Some(rules_defered(0, 0, 0, 0, 0, 2)));
    assert_eq!(t.tokenbuf().num_tokens(), 1);
    t.src_push(None, "ONE".into()).expect("push failed");
    match t.next() {
        Some(Token::Fatal(ParseError::InternalError(source))) => {
            assert_eq!((source.pos_zero, source.component, source.code), (2, Component::Tokenizer, 0));
        }
        other => panic!("Received unexpected token: {:?}", other),
    }
    assert_eq!(t.state(), TokenizerState::Failed);
}

// A region without bytes that is pushed onto another is left at once: the
// scan goes on in the region below.
#[test]
fn empty_region_on_top_is_left_at_once() {
    let mut t = rules_scanner(&["CCC", ""]);
    assert_eq!(t.index(), 1);
    assert_eq!(t.num_snapshots(), 2);
    assert_eq!(t.next(), Some(rules_defered(0, 0, 0, 0, 0, 3)));
    assert_eq!(t.index(), 0);
    assert_eq!(t.num_snapshots(), 1);
    assert_eq!(t.pos_zero(), 3);
    assert_eq!(t.next(), None);
    assert_eq!(t.next(), None);
    assert_eq!(t.index(), 0);
    assert_eq!(t.num_snapshots(), 1);
}

// Several regions without bytes on top of one another are all left in one
// pull, and one in the middle of the stack is passed over.
#[test]
fn empty_regions_are_passed_over() {
    let mut t = rules_scanner(&["AA", "", "", "B", ""]);
    assert_eq!(t.index(), 4);
    assert_eq!(t.next(), Some(rules_defered(3, 0, 0, 0, 0, 1)));
    // The delivery of its last byte left the region.
    assert_eq!(t.index(), 2);
    assert_eq!(t.num_snapshots(), 3);
    assert_eq!(t.next(), Some(rules_defered(0, 0, 0, 0, 1, 2)));
    assert_eq!(t.next(), None);
    assert_eq!(t.index(), 0);
    assert_eq!(t.num_snapshots(), 1);
    assert_eq!(t.pos_zero(), 3);
}

// A single region without bytes ends the stream at once.
#[test]
fn empty_first_region_ends_the_stream() {
    let mut t = rules_scanner(&[""]);
    assert_eq!(t.state(), TokenizerState::ExpectDefered);
    assert_eq!(t.next(), None);
    assert_eq!(t.index(), 0);
    assert_eq!(t.num_snapshots(), 1);
    assert_eq!(t.pos_zero(), 0);
}

// Returning to the region below is a step of its own: from a scanner with
// bytes ahead it changes nothing, and at the end of included regions it
// leads back to where something is left to scan.
#[test]
fn regions_return_leads_back() {
    let mut t = rules_scanner(&["AB", "C"]);
    assert_eq!(t.regions_return(), None);
    assert_eq!(t.index(), 1);
    assert_eq!(t.num_snapshots(), 2);

    let mut t = rules_scanner(&["AB", "", ""]);
    assert_eq!(t.index(), 2);
    assert_eq!(t.regions_return(), None);
    assert_eq!(t.index(), 0);
    assert_eq!(t.pos_region(), 0);
    assert_eq!(t.pos_zero(), 0);
    assert_eq!(t.num_snapshots(), 1);
    assert_eq!(t.num_regions(), 3);
    assert_eq!(t.state(), TokenizerState::ExpectDefered);
    assert_eq!(t.next(), Some(rules_defered(0, 0, 0, 0, 0, 2)));
    assert_eq!(t.regions_return(), None);
    assert_eq!(t.next(), None);
}

#[test]
fn no_input_is_reported_once() {
    let mut t = Tokenizer::new();
    match t.next() {
        Some(Token::Error(ParseError::NoInput(source))) => {
            assert_eq!(source.component, Component::Tokenizer);
            assert_eq!(source.pos_zero, 0);
        }
        other => panic!("Received unexpected token: {:?}", other),
    }
    assert_eq!(t.next(), None);
    assert_eq!(t.next(), None);
    assert_eq!(t.state(), TokenizerState::ExpectInput);
    assert_eq!(t.span_slice(&rules_span(0, 0, 0, 0, 0, 0)), None);
    // The scanner works once it is given a source.
    t.src_push(None, "X".into()).expect("push failed");
    assert_eq!(t.state(), TokenizerState::ExpectDefered);
    assert_eq!(t.next(), Some(rules_defered(0, 0, 0, 0, 0, 1)));
    assert_eq!(t.next(), None);
}

// A token that does not start where the scanner stands is put back, and a
// fatal error leaves in its place, once for the delivery and once for the
// token that was put back.
#[test]
fn token_out_of_place_fails_the_scanner() {
    let mut t = rules_scanner(&["AB"]);
    let wrong = rules_defered(0, 0, 1, 1, 1, 1);
    t.tokenbuf_push(wrong).expect("push failed");
    for _ in 0..2 {
        match t.next() {
            Some(Token::Fatal(ParseError::InternalError(source))) => {
                assert_eq!(
                    (source.pos_zero, source.component, source.code),
                    (0, Component::Tokenizer, 0)
                );
            }
            other => panic!("Received unexpected token: {:?}", other),
        }
        assert_eq!(t.state(), TokenizerState::Failed);
        assert_eq!((t.pos_region(), t.pos_zero()), (0, 0));
    }
    assert_eq!(t.next(), None);
    assert_eq!(t.next(), None);
}

#[test]
fn token_of_another_region_fails_the_scanner() {
    let mut t = rules_scanner(&["AB", "CD"]);
    match t.return_tokenized(rules_defered(0, 0, 0, 0, 0, 2)) {
        Some(Token::Fatal(ParseError::InternalError(_))) => {}
        other => panic!("Received unexpected token: {:?}", other),
    }
    assert_eq!(t.state(), TokenizerState::Failed);
    assert_eq!(t.tokenbuf().num_tokens(), 1);
}

#[test]
fn token_past_the_end_of_its_region_fails_the_scanner() {
    let mut t = rules_scanner(&["AB"]);
    match t.return_tokenized(rules_defered(0, 0, 0, 0, 0, 3)) {
        Some(Token::Fatal(ParseError::InternalError(_))) => {}
        other => panic!("Received unexpected token: {:?}", other),
    }
    assert_eq!(t.state(), TokenizerState::Failed);
    assert_eq!((t.pos_region(), t.pos_zero()), (0, 0));
    match t.return_tokenized(rules_defered(0, 0, 0, 0, 0, usize::MAX)) {
        Some(Token::Fatal(ParseError::InternalError(_))) => {}
        other => panic!("Received unexpected token: {:?}", other),
    }
}

// A failed scanner still gives what is in its queue, and nothing else.
#[test]
fn failed_scanner_gives_its_queue() {
    let mut t = rules_scanner(&["ABCD"]);
    let fatal = Token::Fatal(ParseError::NoMemory(Source {
        pos_zero: 0,
        component: Component::Tokenizer,
        line: 0,
        code: 0,
    }));
    assert_eq!(t.fail_token(fatal), fatal);
    assert_eq!(t.state(), TokenizerState::Failed);
    assert_eq!(t.next(), None);
    t.tokenbuf_push(Token::Warning(ParseError::NoError)).expect("push failed");
    t.tokenbuf_push(Token::Real(TokenBody::Include(rules_span(0, 0, 0, 0, 0, 2))))
        .expect("push failed");
    assert_eq!(t.next(), Some(Token::Warning(ParseError::NoError)));
    assert_eq!(
        t.next(),
        Some(Token::Real(TokenBody::Include(rules_span(0, 0, 0, 0, 0, 2))))
    );
    // The instruction did not take the scanner out of the failed state.
    assert_eq!(t.state(), TokenizerState::Failed);
    assert_eq!(t.pos_region(), 2);
    assert_eq!(t.next(), None);
}

#[test]
fn newline_takes_the_scanner_to_the_next_line() {
    let mut t = rules_scanner(&["\nX"]);
    // No run stands in front of the newline: it comes by itself.
    assert_eq!(
        t.next(),
        Some(Token::Real(TokenBody::Newline(rules_span(0, 0, 0, 0, 0, 1))))
    );
    assert_eq!((t.line(), t.pos_line(), t.pos_region(), t.pos_zero()), (1, 0, 1, 1));
    assert_eq!(t.next(), Some(rules_defered(0, 1, 0, 1, 1, 1)));
    assert_eq!(t.next(), None);
}

// A name that is joined to the `@` and is no instruction: the `@` is a
// literal one, and the scan goes on behind it.
#[test]
fn unknown_name_makes_a_literal_at() {
    for source in [
        "@if(prop == \")xx\")",
        "@if(/*(*/ prop == \")xx\")",
        "@if(x)",
        "@foo(",
        "@Include(x)",
        "@includes(x)",
        "@includ(x)",
    ] {
        assert_eq!(
            rules_stream(&[source]),
            vec![
                Token::Real(TokenBody::UnescapedAt(rules_span(0, 0, 0, 0, 0, 1))),
                rules_defered(0, 0, 1, 1, 1, source.len() - 1),
            ],
            "in {:?}",
            source
        );
    }
}

// The run in front of such an `@` comes first.
#[test]
fn unknown_name_behind_a_run() {
    assert_eq!(
        rules_stream(&["ab@includes(x)"]),
        vec![
            rules_defered(0, 0, 0, 0, 0, 2),
            Token::Real(TokenBody::UnescapedAt(rules_span(0, 0, 2, 2, 2, 1))),
            rules_defered(0, 0, 3, 3, 3, 11),
        ]
    );
    assert_eq!(
        rules_stream(&["mail@example.org (home)"]),
        vec![
            rules_defered(0, 0, 0, 0, 0, 4),
            Token::Real(TokenBody::UnescapedAt(rules_span(0, 0, 4, 4, 4, 1))),
            rules_defered(0, 0, 5, 5, 5, 18),
        ]
    );
    assert_eq!(
        rules_stream(&["x\n@if(a)\n@include(b)"]),
        vec![
            rules_defered(0, 0, 0, 0, 0, 1),
            Token::Real(TokenBody::Newline(rules_span(0, 0, 1, 1, 1, 1))),
            Token::Real(TokenBody::UnescapedAt(rules_span(0, 1, 0, 2, 2, 1))),
            rules_defered(0, 1, 1, 3, 3, 5),
            Token::Real(TokenBody::Newline(rules_span(0, 1, 6, 8, 8, 1))),
            Token::Real(TokenBody::Include(rules_span(0, 2, 0, 9, 9, 8))),
            Token::Real(TokenBody::OpenParen(rules_span(0, 2, 8, 17, 17, 1))),
            rules_defered(0, 2, 9, 18, 18, 1),
            Token::Real(TokenBody::CloseParen(rules_span(0, 2, 10, 19, 19, 1))),
        ]
    );
}

// A name that is no instruction in an included region does not keep the
// scanner from returning to the region below.
#[test]
fn unknown_name_in_an_included_region() {
    let mut t = rules_scanner(&["A", "x@if(y)z"]);
    let mut tokens = Vec::new();
    while let Some(token) = t.next() {
        tokens.push(token);
        assert!(tokens.len() < 100);
    }
    assert_eq!(
        tokens,
        vec![
            rules_defered(1, 0, 0, 0, 0, 1),
            Token::Real(TokenBody::UnescapedAt(rules_span(1, 0, 1, 1, 1, 1))),
            rules_defered(1, 0, 2, 2, 2, 6),
            rules_defered(0, 0, 0, 0, 8, 1),
        ]
    );
    assert_eq!(t.index(), 0);
    assert_eq!(t.num_snapshots(), 1);
    assert_eq!(t.pos_zero(), 9);
}

// The run in front of a literal `@` comes first, the `@` by itself.
#[test]
fn literal_at_behind_a_run() {
    assert_eq!(
        rules_stream(&["ab@ c(d"]),
        vec![
            rules_defered(0, 0, 0, 0, 0, 2),
            Token::Real(TokenBody::UnescapedAt(rules_span(0, 0, 2, 2, 2, 1))),
            rules_defered(0, 0, 3, 3, 3, 4),
        ]
    );
    let stream = rules_stream(&["ab@c)d(e"]);
    assert_eq!(stream.len(), 4);
    assert_eq!(stream[0], rules_defered(0, 0, 0, 0, 0, 2));
    assert_eq!(stream[1], Token::Real(TokenBody::UnescapedAt(rules_span(0, 0, 2, 2, 2, 1))));
    match stream[2] {
        Token::Error(ParseError::InstructionError(source)) => {
            assert_eq!((source.pos_zero, source.component, source.code), (2, Component::Tokenizer, 0));
        }
        other => panic!("Received unexpected token: {:?}", other),
    }
    assert_eq!(stream[3], rules_defered(0, 0, 3, 3, 3, 5));
}

// Whitespace in front of the parenthesis of an instruction behind a run.
#[test]
fn instruction_behind_a_run_with_whitespace() {
    let stream = rules_stream(&["x@include \n ()"]);
    assert_eq!(stream.len(), 8);
    assert_eq!(stream[0], rules_defered(0, 0, 0, 0, 0, 1));
    assert_eq!(stream[1], Token::Real(TokenBody::Include(rules_span(0, 0, 1, 1, 1, 8))));
    assert_eq!(stream[2], Token::Real(TokenBody::WhiteSpaceTr(rules_span(0, 0, 9, 9, 9, 1))));
    assert_eq!(stream[3], Token::Real(TokenBody::Newline(rules_span(0, 0, 10, 10, 10, 1))));
    assert_eq!(stream[4], Token::Real(TokenBody::WhiteSpaceLd(rules_span(0, 1, 0, 11, 11, 1))));
    match stream[5] {
        Token::Warning(ParseError::UnwantedWhiteSpace(source)) => {
            assert_eq!((source.pos_zero, source.component, source.code), (9, Component::Tokenizer, 2));
        }
        other => panic!("Received unexpected token: {:?}", other),
    }
    assert_eq!(stream[6], Token::Real(TokenBody::OpenParen(rules_span(0, 1, 1, 12, 12, 1))));
    assert_eq!(stream[7], Token::Real(TokenBody::CloseParen(rules_span(0, 1, 2, 13, 13, 1))));
}

// Two instructions on one line: the columns go on behind the first.
#[test]
fn second_instruction_on_a_line() {
    let stream = rules_stream(&["@include(a) @include(b)"]);
    assert_eq!(
        stream,
        vec![
            Token::Real(TokenBody::Include(rules_span(0, 0, 0, 0, 0, 8))),
            Token::Real(TokenBody::OpenParen(rules_span(0, 0, 8, 8, 8, 1))),
            rules_defered(0, 0, 9, 9, 9, 1),
            Token::Real(TokenBody::CloseParen(rules_span(0, 0, 10, 10, 10, 1))),
            rules_defered(0, 0, 11, 11, 11, 1),
            Token::Real(TokenBody::Include(rules_span(0, 0, 12, 12, 12, 8))),
            Token::Real(TokenBody::OpenParen(rules_span(0, 0, 20, 20, 20, 1))),
            rules_defered(0, 0, 21, 21, 21, 1),
            Token::Real(TokenBody::CloseParen(rules_span(0, 0, 22, 22, 22, 1))),
        ]
    );
}

// A newline in the arguments cuts the run, also an empty one, and the
// closing parenthesis comes behind what was cut off.
#[test]
fn arguments_with_newlines() {
    let stream = rules_stream(&["@include(\nab\n)"]);
    assert_eq!(
        stream,
        vec![
            Token::Real(TokenBody::Include(rules_span(0, 0, 0, 0, 0, 8))),
            Token::Real(TokenBody::OpenParen(rules_span(0, 0, 8, 8, 8, 1))),
            rules_defered(0, 0, 9, 9, 9, 0),
            Token::Real(TokenBody::Newline(rules_span(0, 0, 9, 9, 9, 1))),
            rules_defered(0, 1, 0, 10, 10, 2),
            Token::Real(TokenBody::Newline(rules_span(0, 1, 2, 12, 12, 1))),
            Token::Real(TokenBody::CloseParen(rules_span(0, 2, 0, 13, 13, 1))),
        ]
    );
}

#[test]
fn span_slice_of_what_is_not_there() {
    let t = rules_scanner(&["ABC"]);
    assert_eq!(t.span_slice(&rules_span(0, 0, 0, 0, 0, 3)), Some("ABC".as_bytes()));
    assert_eq!(t.span_slice(&rules_span(0, 0, 0, 3, 3, 0)), Some("".as_bytes()));
    assert_eq!(t.span_slice(&rules_span(0, 0, 0, 1, 1, 3)), None);
    assert_eq!(t.span_slice(&rules_span(1, 0, 0, 0, 0, 1)), None);
    assert_eq!(t.span_slice(&rules_span(0, 0, 0, 2, 2, usize::MAX)), None);
}

#[test]
fn searches_find_the_first() {
    let src = "ab\n(c)\n(".as_bytes();
    assert_eq!(find_newline(src, 0, 8), 2);
    assert_eq!(find_newline(src, 3, 8), 6);
    assert_eq!(find_newline(src, 3, 5), 5);
    assert_eq!(find_open(src, 0), 3);
    assert_eq!(find_open(src, 4), 7);
    assert_eq!(find_open(src, 8), 8);
    let gap = scan_gap(src, 0, 7);
    assert!(gap.close);
    assert_eq!(gap.letters, Some((0, 4)));
    assert_eq!(gap.lines, 2);
    assert_eq!(gap.line_start, Some(7));
    let gap = scan_gap(src, 2, 4);
    assert!(!gap.close);
    assert_eq!(gap.letters, None);
    assert_eq!(gap.lines, 1);
    assert_eq!(gap.line_start, Some(3));
}

// Without memory for its records a region is not pushed, and the scanner
// fails.
#[test]
fn push_without_room_fails_the_scanner() {
    let mut t = rules_scanner(&["AB"]);
    assert_eq!(t.next(), Some(rules_defered(0, 0, 0, 0, 0, 2)));
    match t.src_push_with_room(Some("more"), "CD".into(), false) {
        Err(Token::Fatal(ParseError::NoMemory(source))) => {
            assert_eq!(
                (source.pos_zero, source.component, source.code),
                (2, Component::Tokenizer, 0)
            );
        }
        other => panic!("Received unexpected result: {:?}", other),
    }
    assert_eq!(t.state(), TokenizerState::Failed);
    assert_eq!(t.num_regions(), 1);
    assert_eq!(t.num_snapshots(), 1);
    assert_eq!((t.index(), t.pos_region(), t.pos_zero()), (0, 2, 2));
    assert_eq!(t.next(), None);
}

#[test]
fn push_with_room_makes_the_region_current() {
    let mut t = rules_scanner(&["AB"]);
    assert_eq!(t.src_push_with_room(Some("more"), "CDE".into(), true), Ok(()));
    assert_eq!(t.state(), TokenizerState::ExpectDefered);
    assert_eq!(t.num_regions(), 2);
    assert_eq!(t.num_snapshots(), 2);
    assert_eq!((t.index(), t.pos_region(), t.pos_line(), t.line(), t.pos_zero()), (1, 0, 0, 0, 0));
    assert_eq!(t.region_filename(1), Some("more"));
    assert_eq!(t.region_filename(0), None);
    assert_eq!(t.region_filename(2), None);
    assert_eq!(t.next(), Some(rules_defered(1, 0, 0, 0, 0, 3)));
    assert_eq!(t.next(), Some(rules_defered(0, 0, 0, 0, 3, 2)));
    assert_eq!(t.next(), None);
}

// Where the stream ends every byte that was pushed was delivered: the
// global offset is the sum of the lengths of the regions, the scanner is
// back in the first region, and the snapshot of the first push is left.
#[test]
fn stream_end_counts_the_pushed_bytes() {
    let cases: [&[&str]; 6] = [
        &["A"],
        &["AB\nC", "DE"],
        &["AB\nC", "DE", ""],
        &["", "x\n\ny", "", "zzzz"],
        &["@@@include(a)b", "\n"],
        &[""],
    ];
    for sources in cases {
        let mut t = rules_scanner(sources);
        let mut pulls = 0;
        while t.next().is_some() {
            pulls += 1;
            assert!(pulls < 10_000, "the stream does not end");
        }
        let total: usize = sources.iter().map(|s| s.len()).sum();
        assert_eq!(t.pos_zero(), total, "for {:?}", sources);
        assert_eq!(t.index(), 0, "for {:?}", sources);
        assert_eq!(t.num_snapshots(), 1, "for {:?}", sources);
        assert_eq!(t.num_regions(), sources.len(), "for {:?}", sources);
        assert_eq!(t.next(), None);
    }
}

// Regions that are pushed between pulls count as well.
#[test]
fn stream_end_counts_bytes_pushed_between_pulls() {
    let mut t = rules_scanner(&["AB\nCD"]);
    assert_eq!(t.next(), Some(rules_defered(0, 0, 0, 0, 0, 2)));
    assert_eq!(t.next(), Some(Token::Real(TokenBody::Newline(rules_span(0, 0, 2, 2, 2, 1)))));
    t.src_push(None, "xyz".into()).expect("push failed");
    assert_eq!(t.next(), Some(rules_defered(1, 0, 0, 0, 3, 3)));
    assert_eq!(t.index(), 0);
    assert_eq!(t.next(), Some(rules_defered(0, 1, 0, 3, 6, 2)));
    assert_eq!(t.next(), None);
    assert_eq!(t.pos_zero(), 8);
    assert_eq!(t.index(), 0);
    assert_eq!(t.num_snapshots(), 1);
}

// A guarded queue that refuses a token fails the scanner and is empty
// afterwards: the tokens that waited are given up.
#[test]
fn refused_push_empties_the_queue() {
    let mut t = Tokenizer::with_guard(true);
    t.src_push(None, "AB".into()).expect("push failed");
    assert_eq!(t.tokenbuf_push(Token::StateChange), Ok(()));
    assert_eq!(t.tokenbuf_push(Token::StateChange), Ok(()));
    assert_eq!(t.tokenbuf_consume(), Ok(Some(Token::StateChange)));
    assert_eq!(t.tokenbuf().num_tokens(), 1);
    match t.tokenbuf_push(Token::StateChange) {
        Err(Token::Fatal(ParseError::InternalError(source))) => {
            assert_eq!((source.component, source.code), (Component::TokenBuf, 3));
        }
        other => panic!("Received unexpected result: {:?}", other),
    }
    assert_eq!(t.state(), TokenizerState::Failed);
    assert_eq!(t.tokenbuf().num_tokens(), 0);
    assert_eq!(t.tokenbuf().buf_len(), 0);
    assert_eq!(t.next(), None);
}

// A scanner waits for input exactly as long as it has no region: an empty
// instruction token that is delivered before any push does not take it out
// of that state, and the first push does.
#[test]
fn scanner_waits_for_input_until_the_first_push() {
    let mut t = Tokenizer::new();
    let span = rules_span(0, 0, 0, 0, 0, 0);
    let token = Token::Real(TokenBody::Include(span));
    assert_eq!(t.return_tokenized(token), Some(token));
    assert_eq!(t.state(), TokenizerState::ExpectInput);
    assert_eq!(t.num_regions(), 0);
    assert_eq!(t.span_slice(&span), None);
    t.src_push(None, Vec::new()).expect("push failed");
    assert_eq!(t.state(), TokenizerState::ExpectDefered);
    assert_eq!(t.num_regions(), 1);
    assert_eq!(t.span_slice(&span), Some(&[][..]));
    assert_eq!(t.next(), None);
}

// The instruction token takes the scanner from the ordinary scan into the
// scan of arguments.
#[test]
fn include_token_opens_the_scan_of_arguments() {
    let mut t = rules_scanner(&["@include(a)"]);
    assert_eq!(t.state(), TokenizerState::ExpectDefered);
    assert_eq!(t.next(), Some(Token::Real(TokenBody::Include(rules_span(0, 0, 0, 0, 0, 8)))));
    assert_eq!(t.state(), TokenizerState::ExpectInstructionClose);
    while t.next().is_some() {}
    assert_eq!(t.state(), TokenizerState::ExpectDefered);
    assert_eq!(t.pos_zero(), 11);
}
