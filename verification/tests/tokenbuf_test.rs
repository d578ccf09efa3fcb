use snailplate_parser::parse_error::{Component, ParseError};
use snailplate_parser::reserve::{is_full, reserve_step};
use snailplate_parser::span::Span;
use snailplate_parser::token::Token;
use snailplate_parser::tokenbody::TokenBody;
use snailplate_parser::tokenbuf::TokenBuf;
use snailplate_parser::tokenizer::model::TokenizerState;
use snailplate_parser::tokenizer::Tokenizer;

fn buf_token(i: usize) -> Token {
    Token::Real(TokenBody::Defered(Span {
        index: 0,
        pos_region: i,
        pos_line: i,
        pos_zero: i,
        line: 0,
        length: 1,
    }))
}

// A guarded queue refuses a token while it is partially drained.
#[test]
fn tokenizer_test_buf_mixed_in_out() {
    let mut t = Tokenizer::with_guard(true);
    if t.tokenbuf_push(buf_token(0)).is_err() {
        panic!("could not push token into tokenbuf!");
    }
    if t.tokenbuf_push(buf_token(1)).is_err() {
        panic!("could not push second token into tokenbuf!");
    }
    match t.tokenbuf_consume() {
        Ok(Some(..)) => {}
        Ok(None) => panic!("Received none, although expected one token."),
        Err(etok) => panic!("Could not get token out: Error: {:?}", etok),
    }
    match t.tokenbuf_push(buf_token(1)) {
        Ok(()) => panic!("Tokenbuf allowed to do push when not being fully consumed before!"),
        Err(Token::Fatal(ParseError::InternalError(source))) => {
            assert_eq!(source.component, Component::TokenBuf);
            assert_eq!(source.code, 3);
            assert_eq!(source.pos_zero, 0);
        }
        Err(other) => panic!("Received unexpected token: {:?}", other),
    }
    assert_eq!(t.state(), TokenizerState::Failed);
}

// Without the guard the same use only keeps the consumed slot alive.
#[test]
fn tokenbuf_mixed_in_out_is_let_through_without_guard() {
    let mut q = TokenBuf::new();
    assert_eq!(q.append(buf_token(0)), Ok(()));
    assert_eq!(q.append(buf_token(1)), Ok(()));
    assert_eq!(q.popleft(), Ok(Some(buf_token(0))));
    assert_eq!(q.num_tokens(), 1);
    assert_eq!(q.buf_len(), 2);
    assert_eq!(q.append(buf_token(2)), Ok(()));
    assert_eq!(q.num_tokens(), 2);
    assert_eq!(q.buf_len(), 3);
    assert_eq!(q.popleft(), Ok(Some(buf_token(1))));
    assert_eq!(q.popleft(), Ok(Some(buf_token(2))));
    assert_eq!(q.num_tokens(), 0);
    assert_eq!(q.buf_len(), 0);
    assert_eq!(q.popleft(), Ok(None));
}

#[test]
fn tokenbuf_guard_refuses_and_empties_the_queue() {
    let mut q = TokenBuf::with_guard(true);
    assert_eq!(q.append(buf_token(0)), Ok(()));
    assert_eq!(q.append(buf_token(1)), Ok(()));
    assert_eq!(q.popleft(), Ok(Some(buf_token(0))));
    match q.append(buf_token(2)) {
        Err(Token::Fatal(ParseError::InternalError(source))) => {
            assert_eq!(source.component, Component::TokenBuf);
            assert_eq!(source.code, 3);
        }
        other => panic!("Received unexpected result: {:?}", other),
    }
    // The refusal drops what waited and releases the storage.
    assert_eq!(q.num_tokens(), 0);
    assert_eq!(q.buf_len(), 0);
    assert_eq!(q.popleft(), Ok(None));
    // The empty queue takes tokens again.
    assert_eq!(q.append(buf_token(3)), Ok(()));
    assert_eq!(q.num_tokens(), 1);
    assert_eq!(q.popleft(), Ok(Some(buf_token(3))));
}

// Tokens come out in the order they went in, and the storage is released
// with the last of them.
#[test]
fn tokenbuf_fill_then_drain_keeps_order() {
    for n in [1usize, 2, 15, 16, 17, 40] {
        let mut q = TokenBuf::new();
        for i in 0..n {
            assert_eq!(q.append(buf_token(i)), Ok(()));
            assert_eq!(q.num_tokens(), i + 1);
            assert_eq!(q.buf_len(), i + 1);
        }
        for i in 0..n {
            assert_eq!(q.buf_len(), n);
            assert_eq!(q.popleft(), Ok(Some(buf_token(i))));
            assert_eq!(q.num_tokens(), n - i - 1);
        }
        assert_eq!(q.buf_len(), 0);
        assert_eq!(q.popleft(), Ok(None));
        assert_eq!(q.buf_len(), 0);
    }
}

#[test]
fn tokenbuf_without_room_returns_no_memory() {
    let mut q = TokenBuf::new();
    assert_eq!(q.append_with_room(buf_token(0), true), Ok(()));
    match q.append_with_room(buf_token(1), false) {
        Err(Token::Fatal(ParseError::NoMemory(source))) => {
            assert_eq!(source.component, Component::TokenBuf);
            assert_eq!(source.code, 3);
            assert_eq!(source.pos_zero, 0);
        }
        other => panic!("Received unexpected result: {:?}", other),
    }
    // The failure drops what waited and releases the storage.
    assert_eq!(q.num_tokens(), 0);
    assert_eq!(q.buf_len(), 0);
    assert_eq!(q.popleft(), Ok(None));
    assert_eq!(Err(TokenBuf::no_memory()), q.append_with_room(buf_token(1), false));
    assert_eq!(q.num_tokens(), 0);
    assert!(q.reserve(100));
    assert_eq!(q.num_tokens(), 0);
    assert_eq!(q.append_with_room(buf_token(2), true), Ok(()));
    assert_eq!(q.popleft(), Ok(Some(buf_token(2))));
}

#[test]
fn tokenbuf_new_is_empty() {
    let mut q = TokenBuf::new();
    assert_eq!(q.num_tokens(), 0);
    assert_eq!(q.buf_len(), 0);
    assert_eq!(q.popleft(), Ok(None));
}

#[test]
fn storage_is_full_without_a_free_slot() {
    assert!(is_full(0, 0));
    assert!(is_full(16, 16));
    assert!(is_full(3, 4));
    assert!(!is_full(16, 15));
    assert!(!is_full(1, 0));
    // Growing leaves what is held as it is.
    let mut v: Vec<u8> = Vec::new();
    assert!(reserve_step(&mut v, 16));
    assert!(v.capacity() >= 16);
    assert!(v.is_empty());
    v.extend_from_slice(&[1, 2, 3]);
    let cap = v.capacity();
    assert!(reserve_step(&mut v, 16));
    assert_eq!(v.capacity(), cap);
    assert_eq!(v, vec![1, 2, 3]);
}
