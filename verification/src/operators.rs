//! Crossover: one child from two parents.
//!
//! The child takes a prefix of the first parent up to a split point, continues
//! with the second parent up to the length of the shorter parent, and, where it
//! is longer than that, ends in fresh random values.

use rand::rngs::StdRng;
use vstd::prelude::*;

use crate::config::Config;
use crate::program::{values_in_range, SUBLEQProgram};
use crate::random::{draw_index, draw_length, draw_value};

verus! {

/// The length of the shorter of two parents.
pub open spec fn shorter(first: Seq<i32>, second: Seq<i32>) -> nat {
    if first.len() <= second.len() {
        first.len()
    } else {
        second.len()
    }
}

/// The length of the longer of two parents.
pub open spec fn longer(first: Seq<i32>, second: Seq<i32>) -> nat {
    if first.len() <= second.len() {
        second.len()
    } else {
        first.len()
    }
}

/// `child` is spliced from `first` and `second` at `split`: its length lies
/// between the parents' lengths, it agrees with `first` before the split and
/// with `second` from the split to the length of the shorter parent.
pub open spec fn spliced(first: Seq<i32>, second: Seq<i32>, split: int, child: Seq<i32>) -> bool {
    &&& 0 <= split <= shorter(first, second)
    &&& shorter(first, second) <= child.len() <= longer(first, second)
    &&& child.subrange(0, split) == first.subrange(0, split)
    &&& child.subrange(split, shorter(first, second) as int) == second.subrange(
        split,
        shorter(first, second) as int,
    )
}

/// The child assembled from `first` and `second` at `split`, with `tail`
/// after the length of the shorter parent: the values of `first` before the
/// split, the values of `second` from the split to the length of the shorter
/// parent, then `tail`.
pub open spec fn assembled(
    first: Seq<i32>,
    second: Seq<i32>,
    split: int,
    tail: Seq<i32>,
) -> Seq<i32> {
    first.subrange(0, split) + second.subrange(split, shorter(first, second) as int) + tail
}

/// An assembled child is spliced from its parents, whatever the split and the
/// tail within the parents' bounds.
pub proof fn lemma_assembled_is_spliced(
    first: Seq<i32>,
    second: Seq<i32>,
    split: int,
    tail: Seq<i32>,
)
    requires
        0 <= split <= shorter(first, second),
        shorter(first, second) + tail.len() <= longer(first, second),
    ensures
        assembled(first, second, split, tail).len() == shorter(first, second) + tail.len(),
        spliced(first, second, split, assembled(first, second, split, tail)),
        forall|i: int|
            0 <= i < tail.len() ==> assembled(first, second, split, tail)[shorter(first, second)
                + i] == #[trigger] tail[i],
{
    let child = assembled(first, second, split, tail);
    let least = shorter(first, second) as int;
    assert(child.subrange(0, split) =~= first.subrange(0, split));
    assert(child.subrange(split, least) =~= second.subrange(split, least));
}

/// A spliced child holds, at each position of the shorter parent, the value of
/// the first parent before the split and that of the second parent from it.
pub proof fn lemma_spliced_values(first: Seq<i32>, second: Seq<i32>, split: int, child: Seq<i32>)
    requires
        spliced(first, second, split, child),
    ensures
        forall|i: int| 0 <= i < split ==> #[trigger] child[i] == first[i],
        forall|i: int| split <= i < shorter(first, second) ==> #[trigger] child[i] == second[i],
{
    let least = shorter(first, second) as int;
    assert forall|i: int| 0 <= i < split implies #[trigger] child[i] == first[i] by {
        assert(child.subrange(0, split)[i] == first.subrange(0, split)[i]);
    }
    assert forall|i: int| split <= i < least implies #[trigger] child[i] == second[i] by {
        assert(child.subrange(split, least)[i - split] == second.subrange(split, least)[i
            - split]);
    }
}

/// Builds the child of `first` and `second` for a given split point and a
/// given tail: the values of `first` before the split, the values of `second`
/// from the split to the length of the shorter parent, then the values of
/// `tail`.
pub fn assemble(
    first: &SUBLEQProgram,
    second: &SUBLEQProgram,
    split: usize,
    tail: &Vec<i32>,
) -> (child: SUBLEQProgram)
    requires
        split <= shorter(first@, second@),
        shorter(first@, second@) + tail@.len() <= longer(first@, second@),
    ensures
        child@ == assembled(first@, second@, split as int, tail@),
        spliced(first@, second@, split as int, child@),
{
    let least = if first.code.len() <= second.code.len() {
        first.code.len()
    } else {
        second.code.len()
    };
    let length = least + tail.len();
    let ghost whole = assembled(first@, second@, split as int, tail@);
    proof {
        lemma_assembled_is_spliced(first@, second@, split as int, tail@);
    }
    let mut code: Vec<i32> = Vec::new();
    while code.len() < length
        invariant
            least == shorter(first@, second@),
            split <= least,
            length == least + tail@.len(),
            length <= longer(first@, second@),
            whole == assembled(first@, second@, split as int, tail@),
            whole.len() == length,
            code@.len() <= length,
            forall|i: int| 0 <= i < code@.len() ==> code@[i] == whole[i],
        decreases length - code@.len(),
    {
        let position = code.len();
        let value = if position < split {
            first.code[position]
        } else if position < least {
            second.code[position]
        } else {
            assert(whole[least + (position - least)] == tail@[position - least]);
            tail[position - least]
        };
        code.push(value);
    }
    assert(code@ =~= whole);
    SUBLEQProgram { code }
}

/// Breeds one child from two parents. The split point is drawn uniformly from
/// the positions of the shorter parent and the child's length uniformly from
/// the lengths between the parents', both ends included; what exceeds the
/// shorter parent is filled with fresh draws from
/// `[-memory_size, memory_size)`. What the draws make of the parents is
/// [`assemble`].
pub fn crossover(
    first: &SUBLEQProgram,
    second: &SUBLEQProgram,
    config: &Config,
    rng: &mut StdRng,
) -> (child: SUBLEQProgram)
    requires
        0 < first@.len(),
        0 < second@.len(),
        0 < config.memory_size,
    ensures
        shorter(first@, second@) <= child@.len() <= longer(first@, second@),
        exists|split: int, tail: Seq<i32>|
            {
                &&& 0 <= split < shorter(first@, second@)
                &&& values_in_range(tail, config.memory_size as int)
                &&& child@ == #[trigger] assembled(first@, second@, split, tail)
            },
        exists|split: int|
            0 <= split < shorter(first@, second@) && #[trigger] spliced(
                first@,
                second@,
                split,
                child@,
            ),
        forall|i: int|
            shorter(first@, second@) <= i < child@.len() ==> -config.memory_size
                <= #[trigger] child@[i] < config.memory_size,
        values_in_range(first@, config.memory_size as int) && values_in_range(
            second@,
            config.memory_size as int,
        ) ==> values_in_range(child@, config.memory_size as int),
{
    let cells: i32 = config.memory_size;
    let (least, most) = if first.code.len() <= second.code.len() {
        (first.code.len(), second.code.len())
    } else {
        (second.code.len(), first.code.len())
    };
    let split = draw_index(rng, 0, least);
    let length = draw_length(rng, least, most);

    let mut tail: Vec<i32> = Vec::new();
    while tail.len() < length - least
        invariant
            0 < cells,
            least <= length,
            tail@.len() <= length - least,
            values_in_range(tail@, cells as int),
        decreases length - least - tail@.len(),
    {
        let value = draw_value(rng, -cells, cells);
        tail.push(value);
    }
    let child = assemble(first, second, split, &tail);
    proof {
        lemma_assembled_is_spliced(first@, second@, split as int, tail@);
        lemma_spliced_values(first@, second@, split as int, child@);
        assert forall|i: int| least <= i < child@.len() implies -cells <= #[trigger] child@[i]
            < cells by {
            assert(child@[least + (i - least)] == tail@[i - least]);
        }
    }
    child
}

} // verus!
