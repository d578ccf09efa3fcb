//! The names that may follow `@`.

use vstd::prelude::*;

verus! {

/// What a run of letters behind `@` was recognised as.
#[derive(Debug, Clone, Copy, PartialEq, Eq, Structural)]
pub enum Ident {
    /// `include`, with the offsets of its first and last byte.
    Include(usize, usize),
    /// No name of an instruction.
    Unknown,
}

/// The bytes of `include`.
pub open spec fn keyword_bytes() -> Seq<u8> {
    seq![0x69u8, 0x6Eu8, 0x63u8, 0x6Cu8, 0x75u8, 0x64u8, 0x65u8]
}

/// Whether the bytes of `s` from `start` to `end`, both included, are
/// exactly `include`.
pub open spec fn spells_include(s: Seq<u8>, start: int, end: int) -> bool {
    &&& 0 <= start
    &&& end < s.len()
    &&& end - start + 1 == 7
    &&& s.subrange(start, end + 1) == keyword_bytes()
}

/// What `ident_match` returns for the bytes of `s` from `start` to `end`.
pub open spec fn ident_of(s: Seq<u8>, start: usize, end: usize) -> Ident {
    if spells_include(s, start as int, end as int) {
        Ident::Include(start, end)
    } else {
        Ident::Unknown
    }
}

/// Matches the bytes of `src` from `start` to `end`, both included, against
/// the names of the instructions. Only `include` is one, in lower case.
pub fn ident_match(src: &[u8], start: usize, end: usize) -> (ident: Ident)
    ensures
        ident == ident_of(src@, start, end),
{
    if end < start || end >= src.len() {
        return Ident::Unknown;
    }
    let len = end - start + 1;
    if len == 7 {
        return ident_match_7(src, start, end);
    }
    Ident::Unknown
}

/// Matches the seven bytes of `src` from `start` to `end` against the names
/// of seven letters.
pub fn ident_match_7(src: &[u8], start: usize, end: usize) -> (ident: Ident)
    requires
        start <= end < src@.len(),
        end - start + 1 == 7,
    ensures
        ident == ident_of(src@, start, end),
{
    let ghost part = src@.subrange(start as int, end + 1);
    assert(forall|i: int| 0 <= i < 7 ==> part[i] == src@[start + i]);
    if src[start] == 0x69 && src[start + 1] == 0x6E && src[start + 2] == 0x63 && src[start + 3]
        == 0x6C && src[start + 4] == 0x75 && src[start + 5] == 0x64 && src[start + 6] == 0x65 {
        assert(part =~= keyword_bytes());
        Ident::Include(start, end)
    } else {
        assert(part != keyword_bytes()) by {
            if part == keyword_bytes() {
                assert(part[0] == 0x69u8 && part[1] == 0x6Eu8 && part[2] == 0x63u8 && part[3]
                    == 0x6Cu8 && part[4] == 0x75u8 && part[5] == 0x64u8 && part[6] == 0x65u8);
            }
        }
        Ident::Unknown
    }
}

} // verus!
