//! The self-copy scan: how much of a program a memory image holds outside the
//! region the program was loaded into.
//!
//! The scan looks at every window of the program's length that starts at or
//! after the end of the load region and fits in memory.

use vstd::prelude::*;

verus! {

/// The number of consecutive positions, counted from `from`, at which `code`
/// agrees with the window of `memory` that starts at `offset`.
pub open spec fn agreement_from(code: Seq<i32>, memory: Seq<i32>, offset: int, from: int) -> nat
    decreases code.len() - from,
{
    if 0 <= from < code.len() && code[from] == memory[offset + from] {
        1 + agreement_from(code, memory, offset, from + 1)
    } else {
        0
    }
}

/// The length of the longest prefix of `code` that the window of `memory` at
/// `offset` starts with.
pub open spec fn match_length(code: Seq<i32>, memory: Seq<i32>, offset: int) -> nat {
    agreement_from(code, memory, offset, 0)
}

/// The window of `memory` at `offset` is an exact copy of `code`.
pub open spec fn copy_at(code: Seq<i32>, memory: Seq<i32>, offset: int) -> bool {
    memory.subrange(offset, offset + code.len()) == code
}

/// `offset` is one of the offsets that the scan visits: the window that starts
/// there lies beyond the load region and within memory.
pub open spec fn scanned(code: Seq<i32>, memory: Seq<i32>, offset: int) -> bool {
    code.len() <= offset && offset + code.len() <= memory.len()
}

/// The greatest match length over the scanned offsets below `end`; zero if
/// there is none.
pub open spec fn best_match_below(code: Seq<i32>, memory: Seq<i32>, end: int) -> nat
    decreases end - code.len(),
{
    if end <= code.len() {
        0
    } else {
        let earlier = best_match_below(code, memory, end - 1);
        let last = match_length(code, memory, end - 1);
        if last > earlier {
            last
        } else {
            earlier
        }
    }
}

/// The greatest match length over all scanned offsets; zero if there is none.
pub open spec fn best_match(code: Seq<i32>, memory: Seq<i32>) -> nat {
    best_match_below(code, memory, memory.len() - code.len() + 1)
}

/// Some scanned window is an exact copy of `code`.
pub open spec fn replicated(code: Seq<i32>, memory: Seq<i32>) -> bool {
    exists|offset: int| scanned(code, memory, offset) && #[trigger] copy_at(code, memory, offset)
}

/// The score of a program of `length` values whose best match is `best`, after
/// a run of `steps` cycles: a full match earns
/// `floor(1000 * best / (length * max(steps, 1)))`, anything less earns `best`.
pub open spec fn score(best: nat, length: nat, steps: nat) -> nat {
    if best == length {
        let cycles = if steps == 0 {
            1
        } else {
            steps
        };
        ((1000 * best) / (length * cycles)) as nat
    } else {
        best
    }
}

/// Counting from `from`, the agreement covers exactly the positions up to the
/// first disagreement, or up to the end of `code`.
pub proof fn lemma_agreement_from(code: Seq<i32>, memory: Seq<i32>, offset: int, from: int)
    requires
        0 <= from <= code.len(),
    ensures
        from + agreement_from(code, memory, offset, from) <= code.len(),
        forall|j: int|
            from <= j < from + agreement_from(code, memory, offset, from) ==> code[j]
                == #[trigger] memory[offset + j],
        from + agreement_from(code, memory, offset, from) < code.len() ==> code[from
            + agreement_from(code, memory, offset, from)] != memory[offset + from
            + agreement_from(code, memory, offset, from)],
    decreases code.len() - from,
{
    if from < code.len() && code[from] == memory[offset + from] {
        lemma_agreement_from(code, memory, offset, from + 1);
    }
}

/// The match length is the position of the first disagreement between `code`
/// and the window, or the length of `code` if they agree throughout.
pub proof fn lemma_match_length(code: Seq<i32>, memory: Seq<i32>, offset: int)
    ensures
        match_length(code, memory, offset) <= code.len(),
        forall|j: int|
            0 <= j < match_length(code, memory, offset) ==> code[j] == #[trigger] memory[offset
                + j],
        match_length(code, memory, offset) < code.len() ==> code[match_length(
            code,
            memory,
            offset,
        ) as int] != memory[offset + match_length(code, memory, offset)],
{
    lemma_agreement_from(code, memory, offset, 0);
}

/// A window that lies within memory matches in full exactly when it is an
/// exact copy.
pub proof fn lemma_full_match_is_copy(code: Seq<i32>, memory: Seq<i32>, offset: int)
    requires
        0 <= offset,
        offset + code.len() <= memory.len(),
    ensures
        match_length(code, memory, offset) == code.len() <==> copy_at(code, memory, offset),
{
    lemma_match_length(code, memory, offset);
    let window = memory.subrange(offset, offset + code.len());
    if match_length(code, memory, offset) == code.len() {
        assert forall|j: int| 0 <= j < code.len() implies window[j] == code[j] by {
            assert(code[j] == memory[offset + j]);
        }
        assert(window =~= code);
    }
    if copy_at(code, memory, offset) {
        if match_length(code, memory, offset) < code.len() {
            let k = match_length(code, memory, offset) as int;
            assert(window[k] == memory[offset + k]);
        }
    }
}

/// The best match below `end` bounds the match length at every scanned offset
/// below `end`, is at most the length of `code`, and, where an offset is
/// scanned at all, is the match length at one of them.
pub proof fn lemma_best_match_below(code: Seq<i32>, memory: Seq<i32>, end: int)
    ensures
        best_match_below(code, memory, end) <= code.len(),
        forall|offset: int|
            code.len() <= offset < end ==> #[trigger] match_length(code, memory, offset)
                <= best_match_below(code, memory, end),
        code.len() < end ==> exists|offset: int|
            code.len() <= offset < end && #[trigger] match_length(code, memory, offset)
                == best_match_below(code, memory, end),
    decreases end - code.len(),
{
    if end > code.len() {
        lemma_best_match_below(code, memory, end - 1);
        lemma_match_length(code, memory, end - 1);
        let best = best_match_below(code, memory, end);
        if match_length(code, memory, end - 1) == best {
        } else {
            let witness = choose|offset: int|
                code.len() <= offset < end - 1 && #[trigger] match_length(code, memory, offset)
                    == best_match_below(code, memory, end - 1);
            assert(match_length(code, memory, witness) == best);
        }
    }
}

/// If some scanned window is an exact copy of `code`, the best match of the
/// scan is the whole length of `code`.
pub proof fn lemma_replicated_implies_full_match(code: Seq<i32>, memory: Seq<i32>)
    requires
        replicated(code, memory),
    ensures
        best_match(code, memory) == code.len(),
{
    let offset = choose|offset: int|
        scanned(code, memory, offset) && #[trigger] copy_at(code, memory, offset);
    lemma_full_match_is_copy(code, memory, offset);
    lemma_best_match_below(code, memory, memory.len() - code.len() + 1);
    assert(match_length(code, memory, offset) <= best_match(code, memory));
}

/// For a non-empty `code`, a best match of the whole length means that some
/// scanned window is an exact copy.
pub proof fn lemma_full_match_implies_replicated(code: Seq<i32>, memory: Seq<i32>)
    requires
        0 < code.len(),
        best_match(code, memory) == code.len(),
    ensures
        replicated(code, memory),
{
    let end = memory.len() - code.len() + 1;
    lemma_best_match_below(code, memory, end);
    let offset = choose|offset: int|
        code.len() <= offset < end && #[trigger] match_length(code, memory, offset)
            == best_match_below(code, memory, end);
    lemma_full_match_is_copy(code, memory, offset);
    assert(scanned(code, memory, offset) && copy_at(code, memory, offset));
}

/// Measures how far the window of `memory` at `offset` agrees with `code`,
/// stopping at the first position where they differ.
pub fn match_length_at(code: &Vec<i32>, memory: &Vec<i32>, offset: usize) -> (result: usize)
    requires
        offset + code@.len() <= memory@.len(),
    ensures
        result == match_length(code@, memory@, offset as int),
        result <= code@.len(),
{
    let length = code.len();
    let size = memory.len();
    let mut matched: usize = 0;
    while matched < length && memory[offset + matched] == code[matched]
        invariant
            length == code@.len(),
            size == memory@.len(),
            matched <= length,
            offset + length <= size,
            match_length(code@, memory@, offset as int) == matched + agreement_from(
                code@,
                memory@,
                offset as int,
                matched as int,
            ),
        decreases length - matched,
    {
        matched += 1;
    }
    matched
}

/// Scans `memory` for the longest prefix of `code` found at any scanned
/// offset.
pub fn longest_match(code: &Vec<i32>, memory: &Vec<i32>) -> (result: usize)
    requires
        code@.len() <= memory@.len(),
    ensures
        result == best_match(code@, memory@),
        result <= code@.len(),
{
    let length = code.len();
    let last = memory.len() - length;
    if last < length {
        return 0;
    }
    let mut best: usize = 0;
    let mut offset: usize = length;
    loop
        invariant_except_break
            length <= offset <= last,
            best == best_match_below(code@, memory@, offset as int),
        invariant
            length == code@.len(),
            last == memory@.len() - length,
            best <= length,
        ensures
            best == best_match_below(code@, memory@, last + 1),
        decreases last - offset,
    {
        let matched = match_length_at(code, memory, offset);
        if matched > best {
            best = matched;
        }
        if offset == last {
            break;
        }
        offset += 1;
    }
    best
}

/// Tells whether `memory` holds an exact copy of `code` at any scanned offset.
pub fn holds_copy(code: &Vec<i32>, memory: &Vec<i32>) -> (result: bool)
    requires
        code@.len() <= memory@.len(),
    ensures
        result == replicated(code@, memory@),
{
    let length = code.len();
    let last = memory.len() - length;
    if last < length {
        return false;
    }
    let mut offset: usize = length;
    loop
        invariant_except_break
            length <= offset <= last,
            forall|earlier: int|
                length <= earlier < offset ==> !#[trigger] copy_at(code@, memory@, earlier),
        invariant
            length == code@.len(),
            last == memory@.len() - length,
        ensures
            forall|earlier: int|
                length <= earlier <= last ==> !#[trigger] copy_at(code@, memory@, earlier),
        decreases last - offset,
    {
        proof {
            lemma_full_match_is_copy(code@, memory@, offset as int);
        }
        if match_length_at(code, memory, offset) == length {
            assert(scanned(code@, memory@, offset as int));
            return true;
        }
        if offset == last {
            break;
        }
        offset += 1;
    }
    false
}

} // verus!
