use snailplate_parser::include_resolver::{FilePathError, IncludeResolver};
use snailplate_parser::parse_error::{Component, ParseError, Source};
use snailplate_parser::span::Span;
use snailplate_parser::token::Token;
use snailplate_parser::tokenbody::TokenBody;

// The template files of these tests, by name.
fn resolver_fixture(name: &str) -> Option<Vec<u8>> {
    let text = match name {
        "x_newline_y.html" => "X\nY",
        "include_contains_xxx.html" => "@include(xxx.html)",
        "include_contains_xxx_bad_whitespace.html" => "@include (xxx.html)",
        "include_between.html" => "before@include(file.html)after",
        "include_missing.html" => "@include(nowhere.html)Z",
        "include_empty.html" => "@include()Z",
        "include_not_open.html" => "@include\n(x)",
        "include_climbs.html" => "@include(../xxx.html)Z",
        "include_nothing.html" => "a@include(nothing.html)b",
        "include_twice.html" => "@include(xxx.html)-@include(file.html)\n@include(xxx.html)",
        "include_nested.html" => "<@include(inner.html)>",
        "inner.html" => "[@include(xxx.html)]@include(file.html)",
        "nothing.html" => "",
        "xxx.html" => "XXX",
        "file.html" => "INC",
        _ => return None,
    };
    Some(text.as_bytes().to_vec())
}

// Pulls one token, and answers the resolver where it asks for a file.
fn resolver_pull(r: &mut IncludeResolver) -> Option<Token> {
    if r.include_request().is_none() {
        return r.next();
    }
    let name = r.include_filename().map(str::to_owned);
    let contents = name.and_then(|name| {
        if r.file_path(&name).is_err() {
            return None;
        }
        resolver_fixture(name.rsplit('/').next().unwrap_or(""))
    });
    r.include_answer(contents)
}

fn resolver_same_token(got: &Token, expect: &Token) -> bool {
    match (got, expect) {
        (Token::Error(p1), Token::Error(p2))
        | (Token::Fatal(p1), Token::Fatal(p2))
        | (Token::Warning(p1), Token::Warning(p2)) => match (p1.source_clone(), p2.source_clone()) {
            (Some(s1), Some(s2)) => {
                std::mem::discriminant(p1) == std::mem::discriminant(p2)
                    && s1.pos_zero == s2.pos_zero
                    && s1.component == s2.component
                    && s1.code == s2.code
            }
            _ => p1 == p2,
        },
        _ => got == expect,
    }
}

fn resolver_run(template: &str, list: Vec<Token>) {
    let mut r = IncludeResolver::new();
    r.template_root_dir_set("templates");
    assert_eq!(r.file_path(template), Ok(format!("templates/{}", template)));
    let contents = resolver_fixture(template).expect("no such fixture");
    if let Err(token) = r.file_contents_push(template, contents) {
        panic!("Resolver failed with file reading. Return token: {:?}", token);
    }
    let mut idx = 0;
    while let Some(token) = resolver_pull(&mut r) {
        if let Token::StateChange = token {
            continue;
        }
        match list.get(idx) {
            Some(expect) => {
                if !resolver_same_token(&token, expect) {
                    panic!(
                        "Token mismatch at index: {}. Expect: {:?} vs got: {:?}",
                        idx, expect, token
                    );
                }
            }
            None => panic!("Token mismatch at index: {}. Expect: None vs got: {:?}", idx, token),
        }
        idx += 1;
    }
    if let Some(expect) = list.get(idx) {
        panic!("Token mismatch at index: {}. Expect: {:?} vs got: None", idx, expect);
    }
}

fn resolver_span(index: usize, line: usize, pos_line: usize, pos_region: usize, pos_zero: usize, length: usize) -> Span {
    Span { index, line, pos_line, pos_region, pos_zero, length }
}

fn resolver_source(pos_zero: usize, component: Component, code: u16) -> Source {
    Source { pos_zero, component, line: 0, code }
}

#[test]
fn resolver_passthrough_test_01() {
    resolver_run(
        "x_newline_y.html",
        vec![
            Token::Real(TokenBody::Defered(resolver_span(0, 0, 0, 0, 0, 1))),
            Token::Real(TokenBody::Newline(resolver_span(0, 0, 1, 1, 1, 1))),
            Token::Real(TokenBody::Defered(resolver_span(0, 1, 0, 2, 2, 1))),
        ],
    );
}

#[test]
fn resolver_include_test_01() {
    resolver_run(
        "include_contains_xxx.html",
        vec![
            Token::Phantom(TokenBody::Include(resolver_span(0, 0, 0, 0, 0, 8))),
            Token::Phantom(TokenBody::OpenParen(resolver_span(0, 0, 8, 8, 8, 1))),
            Token::Phantom(TokenBody::Defered(resolver_span(0, 0, 9, 9, 9, 8))),
            Token::Phantom(TokenBody::CloseParen(resolver_span(0, 0, 17, 17, 17, 1))),
            Token::Real(TokenBody::Defered(resolver_span(1, 0, 0, 0, 18, 3))),
        ],
    );
}

#[test]
fn resolver_include_test_02() {
    resolver_run(
        "include_contains_xxx_bad_whitespace.html",
        vec![
            Token::Phantom(TokenBody::Include(resolver_span(0, 0, 0, 0, 0, 8))),
            Token::Phantom(TokenBody::WhiteSpace(resolver_span(0, 0, 8, 8, 8, 1))),
            Token::Warning(ParseError::UnwantedWhiteSpace(resolver_source(
                8,
                Component::Tokenizer,
                2,
            ))),
            Token::Phantom(TokenBody::OpenParen(resolver_span(0, 0, 9, 9, 9, 1))),
            Token::Phantom(TokenBody::Defered(resolver_span(0, 0, 10, 10, 10, 8))),
            Token::Phantom(TokenBody::CloseParen(resolver_span(0, 0, 18, 18, 18, 1))),
            Token::Real(TokenBody::Defered(resolver_span(1, 0, 0, 0, 19, 3))),
        ],
    );
}

// An include between two runs: the file is scanned in the place of the
// instruction.
#[test]
fn resolver_include_between_runs() {
    resolver_run(
        "include_between.html",
        vec![
            Token::Real(TokenBody::Defered(resolver_span(0, 0, 0, 0, 0, 6))),
            Token::Phantom(TokenBody::Include(resolver_span(0, 0, 6, 6, 6, 8))),
            Token::Phantom(TokenBody::OpenParen(resolver_span(0, 0, 14, 14, 14, 1))),
            Token::Phantom(TokenBody::Defered(resolver_span(0, 0, 15, 15, 15, 9))),
            Token::Phantom(TokenBody::CloseParen(resolver_span(0, 0, 24, 24, 24, 1))),
            Token::Real(TokenBody::Defered(resolver_span(1, 0, 0, 0, 25, 3))),
            Token::Real(TokenBody::Defered(resolver_span(0, 0, 25, 25, 28, 5))),
        ],
    );
}

// A file that cannot be had: the tokens of the instruction come as they
// were collected, and an error behind them.
#[test]
fn resolver_include_file_missing() {
    resolver_run(
        "include_missing.html",
        vec![
            Token::Phantom(TokenBody::Include(resolver_span(0, 0, 0, 0, 0, 8))),
            Token::Real(TokenBody::OpenParen(resolver_span(0, 0, 8, 8, 8, 1))),
            Token::Real(TokenBody::Defered(resolver_span(0, 0, 9, 9, 9, 12))),
            Token::Real(TokenBody::CloseParen(resolver_span(0, 0, 21, 21, 21, 1))),
            Token::Error(ParseError::InstructionError(resolver_source(
                0,
                Component::IncludeResolver,
                8,
            ))),
            Token::Real(TokenBody::Defered(resolver_span(0, 0, 22, 22, 22, 1))),
        ],
    );
}

// An include without a path.
#[test]
fn resolver_include_without_path() {
    resolver_run(
        "include_empty.html",
        vec![
            Token::Phantom(TokenBody::Include(resolver_span(0, 0, 0, 0, 0, 8))),
            Token::Real(TokenBody::OpenParen(resolver_span(0, 0, 8, 8, 8, 1))),
            Token::Real(TokenBody::CloseParen(resolver_span(0, 0, 9, 9, 9, 1))),
            Token::Error(ParseError::InstructionMissingArgs(resolver_source(
                0,
                Component::IncludeResolver,
                5,
            ))),
            Token::Real(TokenBody::Defered(resolver_span(0, 0, 10, 10, 10, 1))),
        ],
    );
}

// A newline between the instruction and its parenthesis ends the
// collecting.
#[test]
fn resolver_include_not_open() {
    resolver_run(
        "include_not_open.html",
        vec![
            Token::Phantom(TokenBody::Include(resolver_span(0, 0, 0, 0, 0, 8))),
            Token::Real(TokenBody::Newline(resolver_span(0, 0, 8, 8, 8, 1))),
            Token::Error(ParseError::InstructionNotOpen(resolver_source(
                0,
                Component::IncludeResolver,
                1,
            ))),
            Token::Warning(ParseError::UnwantedWhiteSpace(resolver_source(
                8,
                Component::Tokenizer,
                2,
            ))),
            Token::Real(TokenBody::OpenParen(resolver_span(0, 1, 0, 9, 9, 1))),
            Token::Real(TokenBody::Defered(resolver_span(0, 1, 1, 10, 10, 1))),
            Token::Real(TokenBody::CloseParen(resolver_span(0, 1, 2, 11, 11, 1))),
        ],
    );
}

// A file whose name leads out of the root directory is not read: the
// instruction stays as it was written, with an error behind it.
#[test]
fn resolver_include_of_a_climbing_path() {
    resolver_run(
        "include_climbs.html",
        vec![
            Token::Phantom(TokenBody::Include(resolver_span(0, 0, 0, 0, 0, 8))),
            Token::Real(TokenBody::OpenParen(resolver_span(0, 0, 8, 8, 8, 1))),
            Token::Real(TokenBody::Defered(resolver_span(0, 0, 9, 9, 9, 11))),
            Token::Real(TokenBody::CloseParen(resolver_span(0, 0, 20, 20, 20, 1))),
            Token::Error(ParseError::InstructionError(resolver_source(
                0,
                Component::IncludeResolver,
                8,
            ))),
            Token::Real(TokenBody::Defered(resolver_span(0, 0, 21, 21, 21, 1))),
        ],
    );
}

// A file without bytes: the instruction is consumed and the scan goes on
// behind it.
#[test]
fn resolver_include_of_an_empty_file() {
    resolver_run(
        "include_nothing.html",
        vec![
            Token::Real(TokenBody::Defered(resolver_span(0, 0, 0, 0, 0, 1))),
            Token::Phantom(TokenBody::Include(resolver_span(0, 0, 1, 1, 1, 8))),
            Token::Phantom(TokenBody::OpenParen(resolver_span(0, 0, 9, 9, 9, 1))),
            Token::Phantom(TokenBody::Defered(resolver_span(0, 0, 10, 10, 10, 12))),
            Token::Phantom(TokenBody::CloseParen(resolver_span(0, 0, 22, 22, 22, 1))),
            Token::Real(TokenBody::Defered(resolver_span(0, 0, 23, 23, 23, 1))),
        ],
    );
}

// Several instructions in one file: each file is scanned in the place of
// its instruction, and the scan returns to the file that holds them.
#[test]
fn resolver_includes_one_after_the_other() {
    resolver_run(
        "include_twice.html",
        vec![
            Token::Phantom(TokenBody::Include(resolver_span(0, 0, 0, 0, 0, 8))),
            Token::Phantom(TokenBody::OpenParen(resolver_span(0, 0, 8, 8, 8, 1))),
            Token::Phantom(TokenBody::Defered(resolver_span(0, 0, 9, 9, 9, 8))),
            Token::Phantom(TokenBody::CloseParen(resolver_span(0, 0, 17, 17, 17, 1))),
            Token::Real(TokenBody::Defered(resolver_span(1, 0, 0, 0, 18, 3))),
            Token::Real(TokenBody::Defered(resolver_span(0, 0, 18, 18, 21, 1))),
            Token::Phantom(TokenBody::Include(resolver_span(0, 0, 19, 19, 22, 8))),
            Token::Phantom(TokenBody::OpenParen(resolver_span(0, 0, 27, 27, 30, 1))),
            Token::Phantom(TokenBody::Defered(resolver_span(0, 0, 28, 28, 31, 9))),
            Token::Phantom(TokenBody::CloseParen(resolver_span(0, 0, 37, 37, 40, 1))),
            Token::Real(TokenBody::Defered(resolver_span(2, 0, 0, 0, 41, 3))),
            Token::Real(TokenBody::Newline(resolver_span(0, 0, 38, 38, 44, 1))),
            Token::Phantom(TokenBody::Include(resolver_span(0, 1, 0, 39, 45, 8))),
            Token::Phantom(TokenBody::OpenParen(resolver_span(0, 1, 8, 47, 53, 1))),
            Token::Phantom(TokenBody::Defered(resolver_span(0, 1, 9, 48, 54, 8))),
            Token::Phantom(TokenBody::CloseParen(resolver_span(0, 1, 17, 56, 62, 1))),
            Token::Real(TokenBody::Defered(resolver_span(3, 0, 0, 0, 63, 3))),
        ],
    );
}

// A file that is included includes files itself.
#[test]
fn resolver_includes_inside_an_include() {
    resolver_run(
        "include_nested.html",
        vec![
            Token::Real(TokenBody::Defered(resolver_span(0, 0, 0, 0, 0, 1))),
            Token::Phantom(TokenBody::Include(resolver_span(0, 0, 1, 1, 1, 8))),
            Token::Phantom(TokenBody::OpenParen(resolver_span(0, 0, 9, 9, 9, 1))),
            Token::Phantom(TokenBody::Defered(resolver_span(0, 0, 10, 10, 10, 10))),
            Token::Phantom(TokenBody::CloseParen(resolver_span(0, 0, 20, 20, 20, 1))),
            // inner.html
            Token::Real(TokenBody::Defered(resolver_span(1, 0, 0, 0, 21, 1))),
            Token::Phantom(TokenBody::Include(resolver_span(1, 0, 1, 1, 22, 8))),
            Token::Phantom(TokenBody::OpenParen(resolver_span(1, 0, 9, 9, 30, 1))),
            Token::Phantom(TokenBody::Defered(resolver_span(1, 0, 10, 10, 31, 8))),
            Token::Phantom(TokenBody::CloseParen(resolver_span(1, 0, 18, 18, 39, 1))),
            Token::Real(TokenBody::Defered(resolver_span(2, 0, 0, 0, 40, 3))),
            Token::Real(TokenBody::Defered(resolver_span(1, 0, 19, 19, 43, 1))),
            Token::Phantom(TokenBody::Include(resolver_span(1, 0, 20, 20, 44, 8))),
            Token::Phantom(TokenBody::OpenParen(resolver_span(1, 0, 28, 28, 52, 1))),
            Token::Phantom(TokenBody::Defered(resolver_span(1, 0, 29, 29, 53, 9))),
            Token::Phantom(TokenBody::CloseParen(resolver_span(1, 0, 38, 38, 62, 1))),
            // file.html, pushed when inner.html was read to its end
            Token::Real(TokenBody::Defered(resolver_span(3, 0, 0, 0, 63, 3))),
            Token::Real(TokenBody::Defered(resolver_span(0, 0, 21, 21, 66, 1))),
        ],
    );
}

#[test]
fn resolver_without_root_dir_has_no_path() {
    let r = IncludeResolver::new();
    assert_eq!(r.file_path("a.html"), Err(FilePathError::NoRootDir));
}

#[test]
fn resolver_refuses_names_that_climb() {
    let mut r = IncludeResolver::new();
    r.template_root_dir_set("/srv/templates");
    assert_eq!(r.file_path("a.html"), Ok("/srv/templates/a.html".to_string()));
    assert_eq!(r.file_path("sub/a.html"), Ok("/srv/templates/sub/a.html".to_string()));
    assert_eq!(r.file_path("a..html"), Ok("/srv/templates/a..html".to_string()));
    assert_eq!(r.file_path("..a/b.."), Ok("/srv/templates/..a/b..".to_string()));
    assert_eq!(r.file_path(".../a"), Ok("/srv/templates/.../a".to_string()));
    assert_eq!(r.file_path(""), Ok("/srv/templates/".to_string()));
    for name in ["..", "../a.html", "sub/../a.html", "sub/..", "/..", "../", "a/../../b"] {
        assert_eq!(r.file_path(name), Err(FilePathError::Climbs), "for {:?}", name);
    }
}

// Pulls until the resolver waits for the file of an instruction.
fn resolver_collect(template: &str) -> IncludeResolver {
    let mut r = IncludeResolver::new();
    r.template_root_dir_set("templates");
    r.file_contents_push(template, resolver_fixture(template).expect("no such fixture"))
        .expect("push failed");
    for _ in 0..100 {
        if r.include_request().is_some() {
            return r;
        }
        assert_eq!(r.next(), Some(Token::StateChange));
    }
    panic!("the resolver asks for no file");
}

// Without room for the tokens of a finished instruction the resolver
// fails.
#[test]
fn resolver_finalize_without_room() {
    let mut r = resolver_collect("include_contains_xxx.html");
    assert_eq!(r.include_request(), Some("xxx.html".as_bytes()));
    match r.finalize_with_room(false) {
        Some(Token::Fatal(ParseError::NoMemory(source))) => {
            assert_eq!((source.component, source.code), (Component::TokenBuf, 3));
        }
        other => panic!("Received unexpected token: {:?}", other),
    }
    assert_eq!(r.next(), None);
    assert_eq!(r.next(), None);
}

#[test]
fn resolver_finalize_with_room() {
    let mut r = resolver_collect("include_contains_xxx.html");
    assert_eq!(
        r.finalize_with_room(true),
        Some(Token::Phantom(TokenBody::Include(resolver_span(0, 0, 0, 0, 0, 8))))
    );
    assert_eq!(r.include_request(), None);
    assert_eq!(
        r.next(),
        Some(Token::Phantom(TokenBody::OpenParen(resolver_span(0, 0, 8, 8, 8, 1))))
    );
    assert_eq!(
        r.next(),
        Some(Token::Phantom(TokenBody::Defered(resolver_span(0, 0, 9, 9, 9, 8))))
    );
    assert_eq!(
        r.next(),
        Some(Token::Phantom(TokenBody::CloseParen(resolver_span(0, 0, 17, 17, 17, 1))))
    );
    assert_eq!(r.next(), None);
}

// Nothing was collected: there is nothing to finish.
#[test]
fn resolver_finalize_of_nothing() {
    let mut r = IncludeResolver::new();
    for room in [true, false] {
        match r.finalize_with_room(room) {
            Some(Token::Fatal(ParseError::InternalError(source))) => {
                assert_eq!(
                    (source.pos_zero, source.component, source.code),
                    (0, Component::IncludeResolver, 7)
                );
            }
            other => panic!("Received unexpected token: {:?}", other),
        }
    }
    assert_eq!(r.next(), None);
}

#[test]
fn resolver_surface_with_and_without_room() {
    let error = Token::Error(ParseError::InstructionError(resolver_source(
        0,
        Component::IncludeResolver,
        8,
    )));
    let mut r = resolver_collect("include_contains_xxx.html");
    match r.surface_with_room(error, None, false) {
        Some(Token::Fatal(ParseError::NoMemory(source))) => {
            assert_eq!((source.component, source.code), (Component::TokenBuf, 3));
        }
        other => panic!("Received unexpected token: {:?}", other),
    }
    assert_eq!(r.next(), None);

    let mut r = resolver_collect("include_contains_xxx.html");
    assert_eq!(
        r.surface_with_room(error, Some(Token::StateChange), true),
        Some(Token::Phantom(TokenBody::Include(resolver_span(0, 0, 0, 0, 0, 8))))
    );
    assert_eq!(
        r.next(),
        Some(Token::Real(TokenBody::OpenParen(resolver_span(0, 0, 8, 8, 8, 1))))
    );
    assert_eq!(
        r.next(),
        Some(Token::Real(TokenBody::Defered(resolver_span(0, 0, 9, 9, 9, 8))))
    );
    assert_eq!(
        r.next(),
        Some(Token::Real(TokenBody::CloseParen(resolver_span(0, 0, 17, 17, 17, 1))))
    );
    assert_eq!(r.next(), Some(error));
    assert_eq!(r.next(), Some(Token::StateChange));
    assert_eq!(r.next(), None);
}

// The file of an instruction goes by the text of its path.
#[test]
fn resolver_names_the_file_it_waits_for() {
    let mut r = IncludeResolver::new();
    assert_eq!(r.include_filename(), None);
    let mut r = resolver_collect("include_contains_xxx.html");
    assert_eq!(r.include_filename(), Some("xxx.html"));
    assert_eq!(
        r.include_answer(Some("XXX".into())),
        Some(Token::Phantom(TokenBody::Include(resolver_span(0, 0, 0, 0, 0, 8))))
    );
    assert_eq!(r.include_filename(), None);
    assert_eq!(r.tokenizer().num_regions(), 2);
    assert_eq!(r.tokenizer().region_filename(1), Some("xxx.html"));
}

// A file that was not found is answered with nothing: the tokens of the
// instruction come as they were collected, and an error behind them.
#[test]
fn resolver_answer_without_contents_rejects() {
    let mut r = resolver_collect("include_missing.html");
    assert_eq!(r.include_filename(), Some("nowhere.html"));
    assert_eq!(
        r.include_answer(None),
        Some(Token::Phantom(TokenBody::Include(resolver_span(0, 0, 0, 0, 0, 8))))
    );
    assert_eq!(r.tokenizer().num_regions(), 1);
    assert_eq!(r.next(), Some(Token::Real(TokenBody::OpenParen(resolver_span(0, 0, 8, 8, 8, 1)))));
    assert_eq!(r.next(), Some(Token::Real(TokenBody::Defered(resolver_span(0, 0, 9, 9, 9, 12)))));
    assert_eq!(
        r.next(),
        Some(Token::Real(TokenBody::CloseParen(resolver_span(0, 0, 21, 21, 21, 1))))
    );
    match r.next() {
        Some(Token::Error(ParseError::InstructionError(source))) => {
            assert_eq!(
                (source.pos_zero, source.component, source.code),
                (0, Component::IncludeResolver, 8)
            );
        }
        other => panic!("Received unexpected token: {:?}", other),
    }
    assert_eq!(r.next(), Some(Token::Real(TokenBody::Defered(resolver_span(0, 0, 22, 22, 22, 1)))));
    assert_eq!(r.next(), None);
}

// A path that is no text names no file: whatever is handed over, the file
// cannot be had.
#[test]
fn resolver_path_that_is_no_text_rejects() {
    let mut r = IncludeResolver::new();
    r.template_root_dir_set("templates");
    r.file_contents_push("bad.html", vec![b'@', b'i', b'n', b'c', b'l', b'u', b'd', b'e', b'(', 0xff, 0xfe, b')', b'Z'])
        .expect("push failed");
    for _ in 0..100 {
        if r.include_request().is_some() {
            break;
        }
        assert_eq!(r.next(), Some(Token::StateChange));
    }
    assert_eq!(r.include_request(), Some(&[0xffu8, 0xfe][..]));
    assert_eq!(r.include_filename(), None);
    assert_eq!(
        r.include_answer(Some("XXX".into())),
        Some(Token::Phantom(TokenBody::Include(resolver_span(0, 0, 0, 0, 0, 8))))
    );
    assert_eq!(r.tokenizer().num_regions(), 1);
    assert_eq!(r.next(), Some(Token::Real(TokenBody::OpenParen(resolver_span(0, 0, 8, 8, 8, 1)))));
    assert_eq!(r.next(), Some(Token::Real(TokenBody::Defered(resolver_span(0, 0, 9, 9, 9, 2)))));
    assert_eq!(
        r.next(),
        Some(Token::Real(TokenBody::CloseParen(resolver_span(0, 0, 11, 11, 11, 1))))
    );
    match r.next() {
        Some(Token::Error(ParseError::InstructionError(source))) => {
            assert_eq!(
                (source.pos_zero, source.component, source.code),
                (0, Component::IncludeResolver, 8)
            );
        }
        other => panic!("Received unexpected token: {:?}", other),
    }
    assert_eq!(r.next(), Some(Token::Real(TokenBody::Defered(resolver_span(0, 0, 12, 12, 12, 1)))));
    assert_eq!(r.next(), None);
}

// A file without bytes is pushed like any other, and left with the next
// pull.
#[test]
fn resolver_pushes_a_file_without_bytes() {
    let mut r = IncludeResolver::new();
    r.template_root_dir_set("templates");
    r.file_contents_push("include_nothing.html", "a@include(nothing.html)b".into())
        .expect("push failed");
    assert_eq!(r.next(), Some(Token::Real(TokenBody::Defered(resolver_span(0, 0, 0, 0, 0, 1)))));
    for _ in 0..100 {
        if r.include_request().is_some() {
            break;
        }
        assert_eq!(r.next(), Some(Token::StateChange));
    }
    assert_eq!(r.include_filename(), Some("nothing.html"));
    assert_eq!(
        r.include_answer(Some(Vec::new())),
        Some(Token::Phantom(TokenBody::Include(resolver_span(0, 0, 1, 1, 1, 8))))
    );
    assert_eq!(r.tokenizer().num_regions(), 2);
    assert_eq!(r.tokenizer().index(), 1);
    assert_eq!(
        r.next(),
        Some(Token::Phantom(TokenBody::OpenParen(resolver_span(0, 0, 9, 9, 9, 1))))
    );
    assert_eq!(
        r.next(),
        Some(Token::Phantom(TokenBody::Defered(resolver_span(0, 0, 10, 10, 10, 12))))
    );
    assert_eq!(
        r.next(),
        Some(Token::Phantom(TokenBody::CloseParen(resolver_span(0, 0, 22, 22, 22, 1))))
    );
    assert_eq!(r.next(), Some(Token::Real(TokenBody::Defered(resolver_span(0, 0, 23, 23, 23, 1)))));
    assert_eq!(r.tokenizer().index(), 0);
    assert_eq!(r.next(), None);
}

// Without room for the tokens of an instruction the resolver gives up the
// tokens that waited to be handed out, as a queue does when an append
// fails.
#[test]
fn resolver_without_room_gives_up_what_waited() {
    let error = Token::Error(ParseError::InstructionError(resolver_source(
        0,
        Component::IncludeResolver,
        8,
    )));
    let mut r = resolver_collect("include_contains_xxx.html");
    // Four tokens wait behind the one that leaves.
    assert_eq!(
        r.surface_with_room(error, None, true),
        Some(Token::Phantom(TokenBody::Include(resolver_span(0, 0, 0, 0, 0, 8))))
    );
    match r.surface_with_room(error, None, false) {
        Some(Token::Fatal(ParseError::NoMemory(source))) => {
            assert_eq!((source.component, source.code), (Component::TokenBuf, 3));
        }
        other => panic!("Received unexpected token: {:?}", other),
    }
    assert_eq!(r.next(), None);
    assert_eq!(r.next(), None);
}

// An instruction is collected within one pull: the caller is told to come
// again once for the instruction itself, and once more when the resolver
// waits for the file.
#[test]
fn resolver_collects_an_instruction_in_one_pull() {
    let mut r = IncludeResolver::new();
    r.template_root_dir_set("templates");
    r.file_contents_push("t.html", "a@include  (x.html)b".into()).expect("push failed");
    assert_eq!(r.next(), Some(Token::Real(TokenBody::Defered(resolver_span(0, 0, 0, 0, 0, 1)))));
    assert_eq!(r.include_request(), None);
    assert_eq!(r.next(), Some(Token::StateChange));
    assert_eq!(r.include_request(), None);
    assert_eq!(r.next(), Some(Token::StateChange));
    assert_eq!(r.include_request(), Some("x.html".as_bytes()));
    assert_eq!(r.tokenizer().pos_zero(), 19);
}

// A collecting that fails ends within one pull too: the tokens come as they
// were collected, with the error behind them.
#[test]
fn resolver_ends_a_failed_collecting_in_one_pull() {
    let mut r = IncludeResolver::new();
    r.file_contents_push("t.html", "@include(a\nb)".into()).expect("push failed");
    assert_eq!(r.next(), Some(Token::StateChange));
    assert_eq!(
        r.next(),
        Some(Token::Phantom(TokenBody::Include(resolver_span(0, 0, 0, 0, 0, 8))))
    );
    assert_eq!(r.include_request(), None);
    let mut rest = Vec::new();
    while let Some(token) = r.next() {
        rest.push(token);
        assert!(rest.len() < 100);
    }
    assert!(rest.iter().all(|token| !matches!(token, Token::Phantom(_))));
    assert!(rest.iter().any(|token| matches!(token, Token::Error(_))));
}

// A file is pushed only where the scanner can take it: while tokens wait in
// the queue of the scanner the file is refused, and the resolver fails.
#[test]
fn resolver_refuses_a_file_the_scanner_cannot_take() {
    let mut r = IncludeResolver::new();
    r.file_contents_push("t.html", "ab\ncd".into()).expect("push failed");
    assert_eq!(r.next(), Some(Token::Real(TokenBody::Defered(resolver_span(0, 0, 0, 0, 0, 2)))));
    assert_eq!(r.tokenizer().tokenbuf().num_tokens(), 1);
    match r.file_contents_push("u.html", "XYZ".into()) {
        Err(Token::Fatal(ParseError::InternalError(source))) => {
            assert_eq!((source.component, source.code), (Component::IncludeResolver, 9));
        }
        other => panic!("Received unexpected result: {:?}", other),
    }
    assert_eq!(r.tokenizer().num_regions(), 1);
    assert_eq!(r.tokenizer().tokenbuf().num_tokens(), 1);
    assert_eq!(r.next(), None);

    // With nothing in the queue of the scanner the file is taken.
    let mut r = IncludeResolver::new();
    r.file_contents_push("t.html", "ab\ncd".into()).expect("push failed");
    assert_eq!(r.next(), Some(Token::Real(TokenBody::Defered(resolver_span(0, 0, 0, 0, 0, 2)))));
    assert_eq!(r.next(), Some(Token::Real(TokenBody::Newline(resolver_span(0, 0, 2, 2, 2, 1)))));
    r.file_contents_push("u.html", "XYZ".into()).expect("push failed");
    assert_eq!(r.tokenizer().num_regions(), 2);
    assert_eq!(r.next(), Some(Token::Real(TokenBody::Defered(resolver_span(1, 0, 0, 0, 3, 3)))));
    assert_eq!(r.next(), Some(Token::Real(TokenBody::Defered(resolver_span(0, 1, 0, 3, 6, 2)))));
    assert_eq!(r.next(), None);
}
