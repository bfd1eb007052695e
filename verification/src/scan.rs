//! What it means for a pattern to match a stretch of memory, and which
//! position a scan reports.

use crate::pattern::{elements_wf, MatchType, MemoryPattern};
use vstd::prelude::*;

verus! {

/// Whether `byte` satisfies `element`: equal to the expected byte, or equal
/// to it in the nibble that the rule compares.
pub open spec fn byte_matches(byte: u8, element: (u8, MatchType)) -> bool {
    match element.1 {
        MatchType::Both => byte == element.0,
        MatchType::Left => byte & 0xF0 == element.0,
        MatchType::Right => byte & 0x0F == element.0,
        MatchType::Neither => true,
    }
}

/// Whether the bytes of `memory` from `at` on satisfy `data`, element by
/// element, without running past the end of `memory`.
pub open spec fn matches_at(memory: Seq<u8>, data: Seq<(u8, MatchType)>, at: int) -> bool {
    &&& 0 <= at
    &&& at + data.len() <= memory.len()
    &&& forall|i: int| 0 <= i < data.len() ==> byte_matches(memory[at + i], #[trigger] data[i])
}

impl MemoryPattern {
    /// Whether the pattern matches when tried at `pos`: its elements are
    /// compared with the bytes from `pos + offset` on.
    pub open spec fn matches(&self, memory: Seq<u8>, pos: int) -> bool {
        0 <= pos && matches_at(memory, self.data@, pos + self.offset)
    }

    /// Whether `pos` is the smallest position at which the pattern matches.
    pub open spec fn first_matches(&self, memory: Seq<u8>, pos: int) -> bool {
        &&& self.matches(memory, pos)
        &&& forall|q: int| 0 <= q < pos ==> !self.matches(memory, q)
    }

    /// What a scan of `memory` reports: the smallest position at which the
    /// pattern matches, or `None` where it matches nowhere.
    pub open spec fn first_match(&self, memory: Seq<u8>) -> Option<usize> {
        if exists|pos: int| self.matches(memory, pos) {
            Some((choose|pos: int| self.first_matches(memory, pos)) as usize)
        } else {
            None
        }
    }

    /// A position at which the pattern matches and before which it does not is
    /// what `first_match` gives.
    pub proof fn lemma_first_match_is(&self, memory: Seq<u8>, pos: int)
        requires
            self.first_matches(memory, pos),
            pos <= usize::MAX,
        ensures
            self.first_match(memory) == Some(pos as usize),
    {
        let chosen = choose|p: int| self.first_matches(memory, p);
        assert(self.first_matches(memory, chosen));
        if chosen < pos {
            assert(!self.matches(memory, chosen));
        }
        if pos < chosen {
            assert(!self.matches(memory, pos));
        }
    }
}

/// The pattern that asks for exactly the bytes of `needle`.
pub open spec fn exact(needle: Seq<u8>) -> Seq<(u8, MatchType)> {
    needle.map_values(|byte: u8| (byte, MatchType::Both))
}

/// Whether the bytes of `memory` from `at` on are those of `needle`.
pub open spec fn occurs_at(memory: Seq<u8>, needle: Seq<u8>, at: int) -> bool {
    &&& 0 <= at
    &&& at + needle.len() <= memory.len()
    &&& memory.subrange(at, at + needle.len()) == needle
}

/// A pattern that does not fit into the memory behind its offset matches
/// nowhere: the scan reports nothing.
pub proof fn lemma_longer_than_memory(pattern: MemoryPattern, memory: Seq<u8>)
    requires
        pattern.offset + pattern.data@.len() > memory.len(),
    ensures
        pattern.first_match(memory) is None,
{
    assert(forall|pos: int| !pattern.matches(memory, pos));
}

/// A pattern of wildcards alone matches wherever it fits, so the scan of a
/// memory that it fits into reports position 0.
pub proof fn lemma_wildcards_match_at_start(pattern: MemoryPattern, memory: Seq<u8>)
    requires
        forall|i: int|
            0 <= i < pattern.data@.len() ==> (#[trigger] pattern.data@[i]).1 == MatchType::Neither,
        pattern.offset + pattern.data@.len() <= memory.len(),
    ensures
        pattern.first_match(memory) == Some(0usize),
{
    assert(pattern.first_matches(memory, 0));
    pattern.lemma_first_match_is(memory, 0);
}

/// An exact pattern matches at the places where its bytes stand in memory,
/// and at no others.
pub proof fn lemma_exact_matches_occurrence(memory: Seq<u8>, needle: Seq<u8>, at: int)
    ensures
        matches_at(memory, exact(needle), at) <==> occurs_at(memory, needle, at),
{
    let data = exact(needle);
    if matches_at(memory, data, at) {
        assert forall|i: int| 0 <= i < needle.len() implies memory.subrange(
            at,
            at + needle.len(),
        )[i] == needle[i] by {
            assert(byte_matches(memory[at + i], data[i]));
        }
        assert(memory.subrange(at, at + needle.len()) =~= needle);
    }
    if occurs_at(memory, needle, at) {
        assert forall|i: int| 0 <= i < data.len() implies byte_matches(
            memory[at + i],
            #[trigger] data[i],
        ) by {
            assert(memory.subrange(at, at + needle.len())[i] == needle[i]);
        }
    }
}

/// The scan for an exact pattern reports the first place where its bytes
/// stand in memory: `pos`, where they stand `offset` bytes behind `pos` and
/// nowhere between `offset` and there.
pub proof fn lemma_exact_finds_first_occurrence(
    pattern: MemoryPattern,
    needle: Seq<u8>,
    memory: Seq<u8>,
    pos: int,
)
    requires
        pattern.data@ == exact(needle),
        memory.len() <= usize::MAX,
        0 <= pos,
        occurs_at(memory, needle, pos + pattern.offset),
        forall|at: int|
            pattern.offset <= at < pos + pattern.offset ==> !occurs_at(memory, needle, at),
    ensures
        pattern.first_match(memory) == Some(pos as usize),
{
    lemma_exact_matches_occurrence(memory, needle, pos + pattern.offset);
    assert forall|q: int| 0 <= q < pos implies !pattern.matches(memory, q) by {
        lemma_exact_matches_occurrence(memory, needle, q + pattern.offset);
    }
    assert(pattern.first_matches(memory, pos));
    pattern.lemma_first_match_is(memory, pos);
}

/// Compares one byte of memory with one element of a pattern.
pub(crate) fn element_matches(byte: u8, element: (u8, MatchType)) -> (r: bool)
    ensures
        r == byte_matches(byte, element),
{
    match element.1 {
        MatchType::Both => byte == element.0,
        MatchType::Left => byte & 0xF0 == element.0,
        MatchType::Right => byte & 0x0F == element.0,
        MatchType::Neither => true,
    }
}

} // verus!
