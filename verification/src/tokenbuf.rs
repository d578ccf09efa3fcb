//! A queue of tokens between recognition, which may find several tokens in
//! one advance, and delivery, which hands out one token at a time.
//!
//! The queue is meant to be filled, then drained to empty, then filled again.
//! Tokens come out in the order they went in whatever the caller does; a
//! caller that appends between two removals only keeps the consumed slots
//! alive for longer. A guarded queue refuses such an append.

use vstd::prelude::*;
use crate::parse_error::{Component, ParseError, Source};
use crate::reserve::reserve_step;
use crate::token::Token;

verus! {

/// Number of slots by which the storage of a queue grows.
pub const GROW_STEP: usize = 16;

/// Line of this file at which `append_with_room` reports that no memory
/// could be reserved.
pub const LINE_APPEND_NO_MEMORY: u32 = 269;

/// Line of this file at which `append_with_room` reports the refusal of a
/// guarded queue.
pub const LINE_APPEND_GUARD: u32 = 284;

/// What a queue holds, as contracts see it.
pub struct QueueView {
    /// The tokens not yet handed out, oldest first.
    pub pending: Seq<Token>,
    /// The number of slots in use, consumed ones included.
    pub backing: nat,
    /// Whether the queue refuses an append while partially drained.
    pub guard: bool,
}

impl QueueView {
    /// Whether no slot is held by a token that was handed out already.
    pub open spec fn coherent(self) -> bool {
        self.backing == self.pending.len()
    }

    /// Whether an append is let through.
    pub open spec fn accepts(self) -> bool {
        !self.guard || self.coherent()
    }

    /// The queue after `token` went in.
    pub open spec fn pushed(self, token: Token) -> QueueView {
        QueueView {
            pending: self.pending.push(token),
            backing: self.backing + 1,
            guard: self.guard,
        }
    }

    /// The queue after its oldest token came out. Taking the last token
    /// releases every slot.
    pub open spec fn popped(self) -> QueueView {
        if self.pending.len() == 0 {
            self
        } else {
            QueueView {
                pending: self.pending.drop_first(),
                backing: if self.pending.len() == 1 { 0 } else { self.backing },
                guard: self.guard,
            }
        }
    }

    /// The token that comes out next.
    pub open spec fn front(self) -> Option<Token> {
        if self.pending.len() == 0 {
            None
        } else {
            Some(self.pending[0])
        }
    }

    /// The queue after all of `tokens` went in, in order.
    pub open spec fn filled(self, tokens: Seq<Token>) -> QueueView
        decreases tokens.len(),
    {
        if tokens.len() == 0 {
            self
        } else {
            self.filled(tokens.drop_last()).pushed(tokens.last())
        }
    }

    /// The queue after `n` removals.
    pub open spec fn drained(self, n: nat) -> QueueView
        decreases n,
    {
        if n == 0 {
            self
        } else {
            self.popped().drained((n - 1) as nat)
        }
    }

    /// The tokens that `n` removals hand out, in order. A removal from an
    /// empty queue hands out nothing.
    pub open spec fn taken(self, n: nat) -> Seq<Token>
        decreases n,
    {
        if n == 0 {
            Seq::empty()
        } else {
            match self.front() {
                Some(token) => seq![token] + self.popped().taken((n - 1) as nat),
                None => self.popped().taken((n - 1) as nat),
            }
        }
    }

    /// A queue that holds nothing.
    pub open spec fn empty(guard: bool) -> QueueView {
        QueueView { pending: Seq::empty(), backing: 0, guard }
    }
}

/// The token an append returns when no memory could be reserved.
pub open spec fn no_memory_token() -> Token {
    Token::Fatal(
        ParseError::NoMemory(
            Source {
                pos_zero: 0,
                component: Component::TokenBuf,
                line: LINE_APPEND_NO_MEMORY,
                code: 3,
            },
        ),
    )
}

/// The token a guarded queue returns for an append while partially drained.
pub open spec fn push_guard_token() -> Token {
    Token::Fatal(
        ParseError::InternalError(
            Source {
                pos_zero: 0,
                component: Component::TokenBuf,
                line: LINE_APPEND_GUARD,
                code: 3,
            },
        ),
    )
}

/// What `append` returns and leaves behind, given whether a slot could be
/// reserved. An append that returns an error leaves an empty queue: what
/// was pending is given up, so that nothing is handed out of a queue that
/// is out of order.
pub open spec fn append_outcome(q: QueueView, token: Token, room: bool) -> (
    QueueView,
    Result<(), Token>,
) {
    if !room {
        (QueueView::empty(q.guard), Err(no_memory_token()))
    } else if !q.accepts() {
        (QueueView::empty(q.guard), Err(push_guard_token()))
    } else {
        (q.pushed(token), Ok(()))
    }
}

/// A first-in, first-out queue of tokens over one growable buffer.
#[derive(Debug)]
pub struct TokenBuf {
    // Tokens not yet handed out; they are the last `num_tokens` of `buf`.
    num_tokens: usize,
    buf: Vec<Token>,
    guard: bool,
}

impl View for TokenBuf {
    type V = QueueView;

    closed spec fn view(&self) -> QueueView {
        QueueView {
            pending: self.buf@.subrange(self.buf@.len() - self.num_tokens, self.buf@.len() as int),
            backing: self.buf@.len(),
            guard: self.guard,
        }
    }
}

impl TokenBuf {
    /// The counters agree with the storage, and an empty queue holds no
    /// storage.
    pub closed spec fn wf(&self) -> bool {
        &&& self.num_tokens <= self.buf@.len()
        &&& self.num_tokens == 0 ==> self.buf@.len() == 0
    }

    /// In a well-formed queue the pending tokens never outnumber the slots,
    /// and there are slots only while tokens are pending.
    pub proof fn lemma_wf_view(&self)
        requires
            self.wf(),
        ensures
            self@.pending.len() <= self@.backing,
            self@.pending.len() == 0 <==> self@.backing == 0,
            self@.backing <= usize::MAX,
    {
        assert(self.buf@.len() == self.buf.len());
    }

    /// An empty queue that lets every append through.
    pub fn new() -> (q: Self)
        ensures
            q.wf(),
            q@ == QueueView::empty(false),
    {
        Self::with_guard(false)
    }

    /// An empty queue. With `guard` set it refuses an append while it is
    /// partially drained.
    pub fn with_guard(guard: bool) -> (q: Self)
        ensures
            q.wf(),
            q@ == QueueView::empty(guard),
    {
        let q = TokenBuf { num_tokens: 0, buf: Vec::with_capacity(GROW_STEP), guard };
        assert(q@.pending =~= Seq::empty());
        q
    }

    /// Appends `token` to the end of the queue.
    ///
    /// The storage grows by `GROW_STEP` slots when it is full. Whether memory
    /// is there is not for this function to decide: where it is not, the
    /// queue is emptied and the `Fatal(NoMemory)` token comes back.
    /// `append_with_room` states the outcome for either case.
    pub fn append(&mut self, token: Token) -> (r: Result<(), Token>)
        requires
            old(self).wf(),
        ensures
            final(self).wf(),
            (final(self)@, r) == append_outcome(old(self)@, token, true) || (final(self)@, r)
                == append_outcome(old(self)@, token, false),
            r is Err ==> final(self)@ == QueueView::empty(old(self)@.guard),
    {
        let room = reserve_step(&mut self.buf, GROW_STEP);
        self.append_with_room(token, room)
    }

    /// The second half of `append`: `room` says whether a slot could be
    /// reserved for the token. Without room, and where a guarded queue
    /// refuses the token, the queue is emptied and the error comes back.
    pub fn append_with_room(&mut self, token: Token, room: bool) -> (r: Result<(), Token>)
        requires
            old(self).wf(),
        ensures
            final(self).wf(),
            (final(self)@, r) == append_outcome(old(self)@, token, room),
            r is Err ==> final(self)@ == QueueView::empty(old(self)@.guard),
    {
        if !room {
            self.reset();
            return Err(
                Token::Fatal(
                    ParseError::NoMemory(
                        Source {
                            pos_zero: 0,
                            component: Component::TokenBuf,
                            line: LINE_APPEND_NO_MEMORY,
                            code: 3,
                        },
                    ),
                ),
            );
        }
        if self.guard && self.buf.len() != self.num_tokens {
            self.reset();
            return Err(
                Token::Fatal(
                    ParseError::InternalError(
                        Source {
                            pos_zero: 0,
                            component: Component::TokenBuf,
                            line: LINE_APPEND_GUARD,
                            code: 3,
                        },
                    ),
                ),
            );
        }
        self.buf.push(token);
        assert(self.buf@.len() == self.buf.len());
        self.num_tokens = self.num_tokens + 1;
        assert(self@.pending =~= old(self)@.pending.push(token));
        Ok(())
    }

    /// Gives up what is pending and releases every slot, as an `append`
    /// that fails does.
    pub(crate) fn reset(&mut self)
        ensures
            final(self).wf(),
            final(self)@ == QueueView::empty(old(self)@.guard),
    {
        self.num_tokens = 0;
        self.buf.clear();
        assert(self@.pending =~= Seq::empty());
    }

    /// Returns the token that reports that no memory could be reserved for
    /// a queue.
    pub fn no_memory() -> (token: Token)
        ensures
            token == no_memory_token(),
    {
        Token::Fatal(
            ParseError::NoMemory(
                Source {
                    pos_zero: 0,
                    component: Component::TokenBuf,
                    line: LINE_APPEND_NO_MEMORY,
                    code: 3,
                },
            ),
        )
    }

    /// Tries to make room for `additional` tokens more. Returns whether the
    /// room is there, which is for the allocator to decide; the queue holds
    /// what it held either way. With the room there, as many calls of
    /// `append_with_room` go through without a reservation of their own.
    pub fn reserve(&mut self, additional: usize) -> (room: bool)
        requires
            old(self).wf(),
        ensures
            final(self).wf(),
            final(self)@ == old(self)@,
    {
        match self.buf.try_reserve(additional) {
            Ok(_) => true,
            Err(_) => false,
        }
    }

    /// Removes the oldest token and returns it, or returns `None` from an
    /// empty queue. Taking the last token releases the storage, so that the
    /// next append starts from slot zero.
    pub fn popleft(&mut self) -> (r: Result<Option<Token>, Token>)
        requires
            old(self).wf(),
        ensures
            final(self).wf(),
            final(self)@ == old(self)@.popped(),
            r == Ok::<Option<Token>, Token>(old(self)@.front()),
    {
        if self.num_tokens < 1 {
            return Ok(None);
        }
        let idx_item = self.buf.len() - self.num_tokens;
        let token = self.buf[idx_item];
        self.num_tokens = self.num_tokens - 1;
        if self.num_tokens < 1 {
            self.buf.clear();
        }
        assert(self@.pending =~= old(self)@.pending.drop_first());
        Ok(Some(token))
    }

    /// Returns the number of slots in use. It exceeds the number of pending
    /// tokens while the queue is partially drained.
    pub fn buf_len(&self) -> (n: usize)
        ensures
            n == self@.backing,
    {
        self.buf.len()
    }

    /// Returns the number of tokens that wait to be handed out.
    pub fn num_tokens(&self) -> (n: usize)
        requires
            self.wf(),
        ensures
            n == self@.pending.len(),
    {
        self.num_tokens
    }
}

/// Tokens leave a queue in the order they entered it: a queue that is empty,
/// then takes `tokens`, then is drained by as many removals, hands out
/// exactly `tokens` and holds no slot afterwards.
pub proof fn lemma_fill_then_drain(guard: bool, tokens: Seq<Token>)
    ensures
        QueueView::empty(guard).filled(tokens).taken(tokens.len()) == tokens,
        QueueView::empty(guard).filled(tokens).drained(tokens.len()) == QueueView::empty(guard),
{
    let q = QueueView::empty(guard);
    lemma_filled(q, tokens);
    lemma_drain_coherent(q.filled(tokens));
    assert(tokens.len() == 0 ==> q.filled(tokens) == q);
}

/// Filling appends to the pending tokens and takes one slot per token.
pub proof fn lemma_filled(q: QueueView, tokens: Seq<Token>)
    ensures
        q.filled(tokens).pending == q.pending + tokens,
        q.filled(tokens).backing == q.backing + tokens.len(),
        q.filled(tokens).guard == q.guard,
    decreases tokens.len(),
{
    if tokens.len() == 0 {
        assert(q.pending + tokens =~= q.pending);
    } else {
        lemma_filled(q, tokens.drop_last());
        assert(q.pending + tokens =~= (q.pending + tokens.drop_last()).push(tokens.last()));
    }
}

/// As many removals as there are pending tokens hand them out in order and,
/// if there was any, release every slot.
pub proof fn lemma_drain_coherent(q: QueueView)
    ensures
        q.taken(q.pending.len()) == q.pending,
        q.drained(q.pending.len()).pending == Seq::<Token>::empty(),
        q.drained(q.pending.len()).guard == q.guard,
        q.pending.len() > 0 ==> q.drained(q.pending.len()).backing == 0,
    decreases q.pending.len(),
{
    if q.pending.len() == 0 {
        assert(q.pending =~= Seq::empty());
    } else {
        lemma_drain_coherent(q.popped());
        assert(q.pending =~= seq![q.pending[0]] + q.pending.drop_first());
        if q.pending.len() == 1 {
            assert(q.popped().pending.len() == 0);
        }
    }
}

/// Filling a queue with one token more is filling it and then pushing the
/// token.
pub proof fn lemma_filled_push(q: QueueView, tokens: Seq<Token>, token: Token)
    ensures
        q.filled(tokens.push(token)) == q.filled(tokens).pushed(token),
{
    assert(tokens.push(token).drop_last() =~= tokens);
}

/// Filling a queue with nothing leaves it as it is.
pub proof fn lemma_filled_empty(q: QueueView)
    ensures
        q.filled(Seq::empty()) == q,
{
}


/// Filling a queue with two runs of tokens, one after the other, is filling
/// it with both.
pub proof fn lemma_filled_concat(q: QueueView, a: Seq<Token>, b: Seq<Token>)
    ensures
        q.filled(a + b) == q.filled(a).filled(b),
    decreases b.len(),
{
    if b.len() == 0 {
        assert(a + b =~= a);
    } else {
        lemma_filled_concat(q, a, b.drop_last());
        assert((a + b).drop_last() =~= a + b.drop_last());
        assert((a + b).last() == b.last());
    }
}

/// A queue that lets an append through still does so after it.
pub proof fn lemma_filled_accepts(q: QueueView, tokens: Seq<Token>)
    requires
        q.accepts(),
    ensures
        q.filled(tokens).accepts(),
        q.filled(tokens).guard == q.guard,
        q.filled(tokens).pending == q.pending + tokens,
        q.filled(tokens).backing == q.backing + tokens.len(),
    decreases tokens.len(),
{
    if tokens.len() == 0 {
        assert(q.pending + tokens =~= q.pending);
    } else {
        lemma_filled_accepts(q, tokens.drop_last());
        assert(q.pending + tokens =~= (q.pending + tokens.drop_last()).push(tokens.last()));
    }
}

} // verus!
