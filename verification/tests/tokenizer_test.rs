use snailplate_parser::span::Span;
use snailplate_parser::token::Token;
use snailplate_parser::tokenbody::TokenBody;
use snailplate_parser::tokenizer::Tokenizer;

// The template files of these tests, by name.
fn stream_fixture(name: &str) -> Vec<u8> {
    let text = match name {
        "x_newline_y" => "X\nY",
        "include_complete_defered" => "@include(defered)",
        _ => panic!("no such fixture: {}", name),
    };
    text.as_bytes().to_vec()
}

fn stream_run(names: &[&str], list: Vec<Token>) {
    let mut t = Tokenizer::new();
    for name in names.iter() {
        t.src_push(Some(name), stream_fixture(name)).expect("Could not push contents into Tokenizer.");
    }
    let mut idx = 0;
    while let Some(token) = t.next() {
        if let Token::StateChange = token {
            continue;
        }
        match list.get(idx) {
            Some(expect) => {
                if token != *expect {
                    panic!(
                        "Token mismatch at index: {}. Expect: {:?} vs got: {:?}",
                        idx, expect, token
                    );
                }
            }
            None => panic!("Token mismatch at index: {}. Expect: None vs got: {:?}", idx, token),
        }
        idx += 1;
    }
    if let Some(expect) = list.get(idx) {
        panic!("Token mismatch at index: {}. Expect: {:?} vs got: None", idx, expect);
    }
}

#[test]
fn tokenizer_defered_newlines_test_01() {
    stream_run(
        &["x_newline_y"],
        vec![
            Token::Real(TokenBody::Defered(Span {
                index: 0, line: 0, pos_line: 0, pos_region: 0, pos_zero: 0, length: 1,
            })),
            Token::Real(TokenBody::Newline(Span {
                index: 0, line: 0, pos_line: 1, pos_region: 1, pos_zero: 1, length: 1,
            })),
            Token::Real(TokenBody::Defered(Span {
                index: 0, line: 1, pos_line: 0, pos_region: 2, pos_zero: 2, length: 1,
            })),
        ],
    );
}

#[test]
fn tokenizer_test_tokenizer_instruction_include_test_101() {
    stream_run(
        &["include_complete_defered"],
        vec![
            Token::Real(TokenBody::Include(Span {
                index: 0, line: 0, pos_line: 0, pos_region: 0, pos_zero: 0, length: 8,
            })),
            Token::Real(TokenBody::OpenParen(Span {
                index: 0, line: 0, pos_line: 8, pos_region: 8, pos_zero: 8, length: 1,
            })),
            Token::Real(TokenBody::Defered(Span {
                index: 0, line: 0, pos_line: 9, pos_region: 9, pos_zero: 9, length: 7,
            })),
            Token::Real(TokenBody::CloseParen(Span {
                index: 0, line: 0, pos_line: 16, pos_region: 16, pos_zero: 16, length: 1,
            })),
        ],
    );
}
