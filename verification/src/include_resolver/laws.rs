//! A resolver keeps its scanner in order: it pushes a file only when the
//! queue of the scanner is empty, so that the tokens of the file leave in
//! the place of the instruction and the scan returns behind it. And its
//! stream ends: every pull that gives something takes it closer to the end.

use vstd::prelude::*;
use crate::include_resolver::model::{IncludeResult, ResolverView};
use crate::token::Token;
use crate::tokenbuf::{lemma_filled, no_memory_token};
use crate::tokenizer::ending::lemma_pull_never_ascends;
use crate::tokenizer::model::ScannerView;
use crate::tokenizer::sound::{lemma_failed_is_sound, lemma_pull_is_sound, lemma_push_is_sound};
use crate::tokenizer::tidy::{closes, lemma_pull_tidy, tidy};

verus! {

impl ResolverView {
    /// Whether the resolver is in order: its scanner is in order, nothing
    /// stands behind a closing parenthesis in the queue of the scanner, and
    /// that queue is empty while the resolver waits for a file.
    pub open spec fn settled(self) -> bool {
        &&& self.scanner.sound()
        &&& tidy(self.scanner.queue.pending)
        &&& self.awaits_source() ==> self.scanner.queue.pending.len() == 0
    }
}

/// A resolver that hands tokens on stays in order.
pub proof fn lemma_passthrough_settled(
    v: ResolverView,
    scanner: ScannerView,
    pulled: Option<Token>,
    after: ResolverView,
    out: Option<Token>,
)
    requires
        v.settled(),
        v.state is Passthrough,
        v.passthrough_follows(scanner, pulled, after, out),
    ensures
        after.settled(),
        after.scanner == scanner,
{
    lemma_pull_is_sound(v.scanner, scanner, pulled);
    lemma_pull_tidy(v.scanner, scanner, pulled);
}

/// A resolver that collects an instruction stays in order: where the
/// instruction is complete, the queue of the scanner is empty.
pub proof fn lemma_collect_settled(
    v: ResolverView,
    scanner: ScannerView,
    pulled: Option<Token>,
    after: ResolverView,
    out: Option<Token>,
)
    requires
        v.settled(),
        v.state is ResolveInclude,
        !v.awaits_source(),
        v.collect_follows(scanner, pulled, after, out),
    ensures
        after.settled(),
        after.scanner == scanner,
        after.awaits_source() ==> pulled is Some && closes(pulled->0),
{
    lemma_pull_is_sound(v.scanner, scanner, pulled);
    lemma_pull_tidy(v.scanner, scanner, pulled);
}

/// A resolver that is handed the file it waits for stays in order: it
/// pushes the file only where its scanner takes it.
pub proof fn lemma_supply_settled(
    v: ResolverView,
    filename: Seq<char>,
    bytes: Seq<u8>,
    room_push: bool,
    room: bool,
)
    requires
        v.settled(),
        v.awaits_source(),
    ensures
        v.supplied(filename, bytes, room_push, room).0.settled(),
        !v.supplied(filename, bytes, room_push, room).0.awaits_source(),
{
    if v.scanner.takes(bytes) {
        lemma_push_is_sound(v.scanner, Some(filename), bytes);
        lemma_failed_is_sound(v.scanner);
    }
}

/// A resolver that is handed what was found under the name of the file it
/// waits for stays in order.
pub proof fn lemma_answer_settled(
    v: ResolverView,
    contents: Option<Seq<u8>>,
    room_push: bool,
    room: bool,
)
    requires
        v.settled(),
        v.awaits_source(),
    ensures
        v.answered(contents, room_push, room).0.settled(),
        !v.answered(contents, room_push, room).0.awaits_source(),
{
    match (v.filename(), contents) {
        (Some(name), Some(bytes)) => {
            lemma_supply_settled(v, name, bytes, room_push, room);
        },
        _ => {
            lemma_reject_settled(v, room);
        },
    }
}

/// A resolver that is told that the file it waits for cannot be had stays
/// in order.
pub proof fn lemma_reject_settled(v: ResolverView, room: bool)
    requires
        v.settled(),
    ensures
        v.rejected(room).0.settled(),
        v.rejected(room).0.scanner == v.scanner,
{
}

impl ResolverView {
    /// How far the resolver is from the end of its stream, at most, as
    /// long as no file is handed to it: a number that goes down with every
    /// pull that gives something, also where it tells the caller to come
    /// again. The distance of the scanner counts most, then the tokens that
    /// were collected, then the collecting itself, then the tokens that
    /// wait to be handed out.
    pub open spec fn distance(self) -> int {
        6 * self.scanner.distance() + 2 * self.batch.pending.len() + self.queue.pending.len()
            + if self.state is ResolveInclude {
            3int
        } else {
            0int
        }
    }
}

/// Handing out a token that waited takes the resolver closer to the end of
/// its stream.
pub proof fn lemma_handing_out_descends(v: ResolverView, after: ResolverView, out: Option<Token>)
    requires
        v.queue.pending.len() > 0,
        v.next_follows(after, out),
    ensures
        out == Some(v.queue.pending[0]),
        after.distance() == v.distance() - 1,
{
}

/// A pull from a resolver that hands tokens on takes it closer to the end
/// of its stream if it gives something, unless memory ran out.
pub proof fn lemma_passthrough_descends(
    v: ResolverView,
    scanner: ScannerView,
    pulled: Option<Token>,
    after: ResolverView,
    out: Option<Token>,
)
    requires
        v.settled(),
        v.state is Passthrough,
        v.passthrough_follows(scanner, pulled, after, out),
        out is Some,
        out != Some(no_memory_token()),
    ensures
        after.distance() < v.distance(),
{
    lemma_pull_never_ascends(v.scanner, scanner, pulled);
}

/// A step of a resolver that collects an instruction takes it closer to
/// the end of its stream, also where it gives the marker for coming again,
/// unless memory ran out.
pub proof fn lemma_collect_descends(
    v: ResolverView,
    scanner: ScannerView,
    pulled: Option<Token>,
    after: ResolverView,
    out: Option<Token>,
)
    requires
        v.settled(),
        v.state is ResolveInclude,
        !v.awaits_source(),
        v.collect_follows(scanner, pulled, after, out),
        out != Some(no_memory_token()),
    ensures
        out is Some,
        after.distance() < v.distance(),
{
    lemma_pull_never_ascends(v.scanner, scanner, pulled);
    let w = v.with_scanner(scanner);
    let (stepped, result) = w.substate_step(pulled);
    assert(stepped.batch == v.batch && stepped.queue == v.queue && stepped.scanner == scanner
        && stepped.state == v.state);
    match result {
        IncludeResult::Progress(token) | IncludeResult::Finalized(token) => {},
        IncludeResult::Failed(token) => {
            lemma_filled(stepped.queue, stepped.batch.pending + seq![token]);
        },
        IncludeResult::FailedWith(token, error) => {
            lemma_filled(stepped.queue, stepped.batch.pending + seq![token, error]);
        },
    }
}

/// Telling the resolver that the file it waits for cannot be had takes it
/// closer to the end of its stream, unless memory ran out.
pub proof fn lemma_reject_descends(v: ResolverView, room: bool)
    requires
        v.awaits_source(),
        v.rejected(room).1 != Some(no_memory_token()),
    ensures
        v.rejected(room).1 is Some,
        v.rejected(room).0.distance() < v.distance(),
{
    lemma_filled(v.queue, v.batch.pending + seq![v.file_missing()]);
}

/// A token that belongs to the instruction being collected takes the
/// resolver closer to the end of its stream.
pub proof fn lemma_going_on_descends(
    v: ResolverView,
    scanner: ScannerView,
    pulled: Option<Token>,
    after: ResolverView,
    out: Option<Token>,
)
    requires
        v.scanner.ready(),
        v.collect_follows(scanner, pulled, after, out),
        after.goes_on(out),
    ensures
        0 <= after.distance() < v.distance(),
{
    lemma_pull_never_ascends(v.scanner, scanner, pulled);
}

/// A resolver that collects an instruction stays in order through all the
/// pulls it makes for it.
pub proof fn lemma_collect_run_settled(
    v: ResolverView,
    n: nat,
    after: ResolverView,
    out: Option<Token>,
)
    requires
        v.settled(),
        v.state is ResolveInclude,
        !v.awaits_source(),
        v.collect_run(n, after, out),
    ensures
        after.settled(),
    decreases n,
{
    let (pulled, mid, given) = choose|
        pulled: Option<Token>,
        mid: ResolverView,
        given: Option<Token>,
    |
        #[trigger] v.collect_follows(mid.scanner, pulled, mid, given) && if n == 0 {
            mid == after && given == out && !mid.goes_on(given)
        } else {
            mid.goes_on(given) && mid.collect_run((n - 1) as nat, after, out)
        };
    lemma_collect_settled(v, mid.scanner, pulled, mid, given);
    if n > 0 {
        lemma_collect_run_settled(mid, (n - 1) as nat, after, out);
    }
}

/// The pulls that a resolver makes for the instruction it collects take it
/// closer to the end of its stream, unless memory ran out.
pub proof fn lemma_collect_run_descends(
    v: ResolverView,
    n: nat,
    after: ResolverView,
    out: Option<Token>,
)
    requires
        v.settled(),
        v.state is ResolveInclude,
        !v.awaits_source(),
        v.collect_run(n, after, out),
        out != Some(no_memory_token()),
    ensures
        out is Some,
        after.distance() < v.distance(),
    decreases n,
{
    let (pulled, mid, given) = choose|
        pulled: Option<Token>,
        mid: ResolverView,
        given: Option<Token>,
    |
        #[trigger] v.collect_follows(mid.scanner, pulled, mid, given) && if n == 0 {
            mid == after && given == out && !mid.goes_on(given)
        } else {
            mid.goes_on(given) && mid.collect_run((n - 1) as nat, after, out)
        };
    if n == 0 {
        lemma_collect_descends(v, mid.scanner, pulled, mid, given);
    } else {
        lemma_going_on_descends(v, mid.scanner, pulled, mid, given);
        lemma_collect_settled(v, mid.scanner, pulled, mid, given);
        lemma_collect_run_descends(mid, (n - 1) as nat, after, out);
    }
}

/// Every pull that gives something takes a resolver that is in order
/// closer to the end of its stream, unless memory ran out: as long as no
/// file is handed to it, a resolver gives no more tokens, one after the
/// other, than its distance says.
pub proof fn lemma_resolver_pull_descends(v: ResolverView, after: ResolverView, out: Option<Token>)
    requires
        v.settled(),
        v.next_follows(after, out),
        out is Some,
        out != Some(no_memory_token()),
    ensures
        after.distance() < v.distance(),
{
    if v.queue.pending.len() > 0 {
        lemma_handing_out_descends(v, after, out);
    } else if v.state is Failed {
    } else if v.awaits_source() {
        if (after, out) == v.rejected(true) {
            lemma_reject_descends(v, true);
        }
    } else if v.state is Passthrough {
        let pulled = choose|pulled: Option<Token>|
            v.passthrough_follows(after.scanner, pulled, after, out);
        lemma_passthrough_descends(v, after.scanner, pulled, after, out);
    } else {
        let n = choose|n: nat| v.collect_run(n, after, out);
        lemma_collect_run_descends(v, n, after, out);
    }
}

/// Every pull leaves a resolver that is in order in order.
pub proof fn lemma_resolver_pull_settled(v: ResolverView, after: ResolverView, out: Option<Token>)
    requires
        v.settled(),
        v.next_follows(after, out),
    ensures
        after.settled(),
{
    if v.queue.pending.len() > 0 {
    } else if v.state is Failed {
    } else if v.awaits_source() {
        lemma_reject_settled(v, true);
        lemma_reject_settled(v, false);
    } else if v.state is Passthrough {
        let pulled = choose|pulled: Option<Token>|
            v.passthrough_follows(after.scanner, pulled, after, out);
        lemma_passthrough_settled(v, after.scanner, pulled, after, out);
    } else {
        let n = choose|n: nat| v.collect_run(n, after, out);
        lemma_collect_run_settled(v, n, after, out);
    }
}

} // verus!
