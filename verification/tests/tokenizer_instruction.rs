use snailplate_parser::parse_error::{Component, ParseError, Source};
use snailplate_parser::span::Span;
use snailplate_parser::token::Token;
use snailplate_parser::tokenbody::TokenBody;
use snailplate_parser::tokenizer::Tokenizer;

fn instr_same_source(a: &Source, b: &Source) -> bool {
    a.pos_zero == b.pos_zero && a.component == b.component && a.code == b.code
}

// Diagnostics are compared on everything but the tag of the emitting site.
fn instr_same_token(got: &Token, expect: &Token) -> bool {
    match (got, expect) {
        (Token::Error(p1), Token::Error(p2))
        | (Token::Fatal(p1), Token::Fatal(p2))
        | (Token::Warning(p1), Token::Warning(p2)) => match (p1, p2) {
            (ParseError::NoMemory(s1), ParseError::NoMemory(s2))
            | (ParseError::InternalError(s1), ParseError::InternalError(s2))
            | (ParseError::OpenInstruction(s1), ParseError::OpenInstruction(s2))
            | (ParseError::InstructionError(s1), ParseError::InstructionError(s2))
            | (ParseError::InstructionNotOpen(s1), ParseError::InstructionNotOpen(s2))
            | (ParseError::InstructionMissingArgs(s1), ParseError::InstructionMissingArgs(s2))
            | (ParseError::UnwantedWhiteSpace(s1), ParseError::UnwantedWhiteSpace(s2))
            | (ParseError::NoInput(s1), ParseError::NoInput(s2)) => instr_same_source(s1, s2),
            _ => p1 == p2,
        },
        _ => got == expect,
    }
}

fn instr_match_or_fail(
    t: &mut Tokenizer,
    list: &[Token],
) -> Result<(), (Option<Token>, Option<Token>)> {
    let mut idx = 0;
    while let Some(token) = t.next() {
        if let Token::StateChange = token {
            continue;
        }
        match list.get(idx) {
            Some(expect) => {
                if !instr_same_token(&token, expect) {
                    return Err((Some(*expect), Some(token)));
                }
            }
            None => return Err((None, Some(token))),
        }
        idx += 1;
    }
    if let Some(expect) = list.get(idx) {
        return Err((Some(*expect), None));
    }
    Ok(())
}

fn instr_source(pos_zero: usize, code: u16) -> Source {
    Source { pos_zero, component: Component::Tokenizer, line: 0, code }
}

fn instr_run(src: &str, list: Vec<Token>) {
    let mut t = Tokenizer::new();
    t.src_push(None, src.into()).expect("push failed");
    if let Err((expect, got)) = instr_match_or_fail(&mut t, &list) {
        panic!("Token mismatch. Expect: {:?} vs got: {:?}", expect, got);
    }
}

#[test]
fn tokenizer_instruction_include_test_01() {
    instr_run(
        "@include(",
        vec![
            Token::Real(TokenBody::Include(Span {
                index: 0, line: 0, pos_line: 0, pos_region: 0, pos_zero: 0, length: 8,
            })),
            Token::Real(TokenBody::OpenParen(Span {
                index: 0, line: 0, pos_line: 8, pos_region: 8, pos_zero: 8, length: 1,
            })),
            Token::Error(ParseError::OpenInstruction(instr_source(0, 0))),
        ],
    );
}

#[test]
fn tokenizer_instruction_include_test_02() {
    instr_run(
        "@include \t\n  \n\n    (",
        vec![
            Token::Real(TokenBody::Include(Span {
                index: 0, line: 0, pos_line: 0, pos_region: 0, pos_zero: 0, length: 8,
            })),
            Token::Real(TokenBody::WhiteSpaceTr(Span {
                index: 0, line: 0, pos_line: 8, pos_region: 8, pos_zero: 8, length: 2,
            })),
            Token::Real(TokenBody::Newline(Span {
                index: 0, line: 0, pos_line: 10, pos_region: 10, pos_zero: 10, length: 1,
            })),
            Token::Real(TokenBody::WhiteSpaceWhole(Span {
                index: 0, line: 1, pos_line: 0, pos_region: 11, pos_zero: 11, length: 2,
            })),
            Token::Real(TokenBody::Newline(Span {
                index: 0, line: 1, pos_line: 2, pos_region: 13, pos_zero: 13, length: 1,
            })),
            Token::Real(TokenBody::Newline(Span {
                index: 0, line: 2, pos_line: 0, pos_region: 14, pos_zero: 14, length: 1,
            })),
            Token::Real(TokenBody::WhiteSpaceLd(Span {
                index: 0, line: 3, pos_line: 0, pos_region: 15, pos_zero: 15, length: 4,
            })),
            Token::Warning(ParseError::UnwantedWhiteSpace(instr_source(8, 2))),
            Token::Real(TokenBody::OpenParen(Span {
                index: 0, line: 3, pos_line: 4, pos_region: 19, pos_zero: 19, length: 1,
            })),
            Token::Error(ParseError::OpenInstruction(instr_source(0, 0))),
        ],
    );
}

#[test]
fn tokenizer_instruction_include_test_03() {
    instr_run(
        "X Y@include(",
        vec![
            Token::Real(TokenBody::Defered(Span {
                index: 0, line: 0, pos_line: 0, pos_region: 0, pos_zero: 0, length: 3,
            })),
            Token::Real(TokenBody::Include(Span {
                index: 0, line: 0, pos_line: 3, pos_region: 3, pos_zero: 3, length: 8,
            })),
            Token::Real(TokenBody::OpenParen(Span {
                index: 0, line: 0, pos_line: 11, pos_region: 11, pos_zero: 11, length: 1,
            })),
            Token::Error(ParseError::OpenInstruction(instr_source(3, 0))),
        ],
    );
}

#[test]
fn tokenizer_instruction_include_test_04() {
    instr_run(
        "@inclu",
        vec![Token::Real(TokenBody::Defered(Span {
            index: 0, line: 0, pos_line: 0, pos_region: 0, pos_zero: 0, length: 6,
        }))],
    );
}

#[test]
fn tokenizer_instruction_include_test_05() {
    instr_run(
        "@ include(",
        vec![
            Token::Real(TokenBody::UnescapedAt(Span {
                index: 0, line: 0, pos_line: 0, pos_region: 0, pos_zero: 0, length: 1,
            })),
            Token::Real(TokenBody::Defered(Span {
                index: 0, line: 0, pos_line: 1, pos_region: 1, pos_zero: 1, length: 9,
            })),
        ],
    );
}

#[test]
fn tokenizer_instruction_include_test_06() {
    instr_run(
        "@ include)(",
        vec![
            Token::Real(TokenBody::UnescapedAt(Span {
                index: 0, line: 0, pos_line: 0, pos_region: 0, pos_zero: 0, length: 1,
            })),
            Token::Error(ParseError::InstructionError(instr_source(0, 0))),
            Token::Real(TokenBody::Defered(Span {
                index: 0, line: 0, pos_line: 1, pos_region: 1, pos_zero: 1, length: 10,
            })),
        ],
    );
}

#[test]
fn tokenizer_instruction_include_test_07() {
    instr_run(
        "@include()",
        vec![
            Token::Real(TokenBody::Include(Span {
                index: 0, line: 0, pos_line: 0, pos_region: 0, pos_zero: 0, length: 8,
            })),
            Token::Real(TokenBody::OpenParen(Span {
                index: 0, line: 0, pos_line: 8, pos_region: 8, pos_zero: 8, length: 1,
            })),
            Token::Real(TokenBody::CloseParen(Span {
                index: 0, line: 0, pos_line: 9, pos_region: 9, pos_zero: 9, length: 1,
            })),
        ],
    );
}

#[test]
fn tokenizer_instruction_include_test_08() {
    instr_run(
        "@include(def(er)ed)",
        vec![
            Token::Real(TokenBody::Include(Span {
                index: 0, line: 0, pos_line: 0, pos_region: 0, pos_zero: 0, length: 8,
            })),
            Token::Real(TokenBody::OpenParen(Span {
                index: 0, line: 0, pos_line: 8, pos_region: 8, pos_zero: 8, length: 1,
            })),
            Token::Real(TokenBody::Defered(Span {
                index: 0, line: 0, pos_line: 9, pos_region: 9, pos_zero: 9, length: 9,
            })),
            Token::Real(TokenBody::CloseParen(Span {
                index: 0, line: 0, pos_line: 18, pos_region: 18, pos_zero: 18, length: 1,
            })),
        ],
    );
}

#[test]
fn tokenizer_instruction_include_test_09() {
    instr_run(
        "@include(defered)",
        vec![
            Token::Real(TokenBody::Include(Span {
                index: 0, line: 0, pos_line: 0, pos_region: 0, pos_zero: 0, length: 8,
            })),
            Token::Real(TokenBody::OpenParen(Span {
                index: 0, line: 0, pos_line: 8, pos_region: 8, pos_zero: 8, length: 1,
            })),
            Token::Real(TokenBody::Defered(Span {
                index: 0, line: 0, pos_line: 9, pos_region: 9, pos_zero: 9, length: 7,
            })),
            Token::Real(TokenBody::CloseParen(Span {
                index: 0, line: 0, pos_line: 16, pos_region: 16, pos_zero: 16, length: 1,
            })),
        ],
    );
}

#[test]
fn tokenizer_instruction_include_test_10() {
    instr_run(
        "@include(def\ne@red)",
        vec![
            Token::Real(TokenBody::Include(Span {
                index: 0, line: 0, pos_line: 0, pos_region: 0, pos_zero: 0, length: 8,
            })),
            Token::Real(TokenBody::OpenParen(Span {
                index: 0, line: 0, pos_line: 8, pos_region: 8, pos_zero: 8, length: 1,
            })),
            Token::Real(TokenBody::Defered(Span {
                index: 0, line: 0, pos_line: 9, pos_region: 9, pos_zero: 9, length: 3,
            })),
            Token::Real(TokenBody::Newline(Span {
                index: 0, line: 0, pos_line: 12, pos_region: 12, pos_zero: 12, length: 1,
            })),
            Token::Real(TokenBody::Defered(Span {
                index: 0, line: 1, pos_line: 0, pos_region: 13, pos_zero: 13, length: 5,
            })),
            Token::Real(TokenBody::CloseParen(Span {
                index: 0, line: 1, pos_line: 5, pos_region: 18, pos_zero: 18, length: 1,
            })),
        ],
    );
}

#[test]
fn tokenizer_instruction_include_test_11() {
    instr_run(
        "X Y@include(xxx",
        vec![
            Token::Real(TokenBody::Defered(Span {
                index: 0, line: 0, pos_line: 0, pos_region: 0, pos_zero: 0, length: 3,
            })),
            Token::Real(TokenBody::Include(Span {
                index: 0, line: 0, pos_line: 3, pos_region: 3, pos_zero: 3, length: 8,
            })),
            Token::Real(TokenBody::OpenParen(Span {
                index: 0, line: 0, pos_line: 11, pos_region: 11, pos_zero: 11, length: 1,
            })),
            Token::Real(TokenBody::Defered(Span {
                index: 0, line: 0, pos_line: 12, pos_region: 12, pos_zero: 12, length: 3,
            })),
            Token::Error(ParseError::OpenInstruction(instr_source(3, 0))),
        ],
    );
}

#[test]
fn test_instruction_tokenizer_instruction_include_test_101() {
    instr_run(
        "@include(xxx)",
        vec![
            Token::Real(TokenBody::Include(Span {
                index: 0, line: 0, pos_line: 0, pos_region: 0, pos_zero: 0, length: 8,
            })),
            Token::Real(TokenBody::OpenParen(Span {
                index: 0, line: 0, pos_line: 8, pos_region: 8, pos_zero: 8, length: 1,
            })),
            Token::Real(TokenBody::Defered(Span {
                index: 0, line: 0, pos_line: 9, pos_region: 9, pos_zero: 9, length: 3,
            })),
            Token::Real(TokenBody::CloseParen(Span {
                index: 0, line: 0, pos_line: 12, pos_region: 12, pos_zero: 12, length: 1,
            })),
        ],
    );
}
