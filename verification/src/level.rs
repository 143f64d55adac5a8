use vstd::prelude::*;

verus! {

/// The sum of a list of levels, as a mathematical integer.
pub open spec fn level_sum(levels: Seq<u32>) -> int
    decreases levels.len(),
{
    if levels.len() == 0 {
        0
    } else {
        level_sum(levels.drop_last()) + levels.last()
    }
}

/// The level of an asset merged from inputs of the given levels: their
/// average, rounded toward zero, plus the recipe's bonus.
pub open spec fn merged_level(levels: Seq<u32>, bonus: u32) -> int
    recommends
        levels.len() > 0,
{
    level_sum(levels) / (levels.len() as int) + bonus
}

/// A sum of `n` levels lies between 0 and `n` times the largest level.
pub proof fn lemma_level_sum_bounds(levels: Seq<u32>)
    ensures
        0 <= level_sum(levels) <= levels.len() * 0xffff_ffff,
    decreases levels.len(),
{
    if levels.len() > 0 {
        lemma_level_sum_bounds(levels.drop_last());
        assert(level_sum(levels) <= (levels.len() - 1) * 0xffff_ffff + 0xffff_ffff);
        assert((levels.len() - 1) * 0xffff_ffff + 0xffff_ffff == levels.len() * 0xffff_ffff)
            by (nonlinear_arith);
    }
}

/// An average of levels is itself a level.
pub proof fn lemma_average_is_level(levels: Seq<u32>)
    requires
        levels.len() > 0,
    ensures
        0 <= level_sum(levels) / (levels.len() as int) <= 0xffff_ffff,
{
    lemma_level_sum_bounds(levels);
    let sum = level_sum(levels);
    let count = levels.len() as int;
    assert(0 <= sum / count <= 0xffff_ffff) by (nonlinear_arith)
        requires
            count > 0,
            0 <= sum <= count * 0xffff_ffff,
    ;
}

/// Computes the level of an asset merged from inputs of the given levels under
/// a recipe with the given bonus. There is no result when there is nothing to
/// average, or when the level would not fit in 32 bits.
pub fn merge_level(levels: &Vec<u32>, bonus: u32) -> (level: Option<u32>)
    ensures
        level == if levels@.len() > 0 && merged_level(levels@, bonus) <= u32::MAX {
            Some(merged_level(levels@, bonus) as u32)
        } else {
            None
        },
{
    if levels.len() == 0 {
        return None;
    }
    let mut sum: u128 = 0;
    let mut i: usize = 0;
    while i < levels.len()
        invariant
            i <= levels.len(),
            sum == level_sum(levels@.subrange(0, i as int)),
        decreases levels.len() - i,
    {
        proof {
            let before = levels@.subrange(0, i as int);
            let after = levels@.subrange(0, i + 1);
            assert(after.drop_last() =~= before);
            lemma_level_sum_bounds(before);
            assert(i * 0xffff_ffff <= 0xffff_ffff_ffff_ffff * 0xffff_ffff) by (nonlinear_arith)
                requires
                    i <= 0xffff_ffff_ffff_ffff,
            ;
        }
        sum = sum + levels[i] as u128;
        i += 1;
    }
    proof {
        assert(levels@.subrange(0, i as int) =~= levels@);
        lemma_average_is_level(levels@);
    }
    let count: u128 = levels.len() as u128;
    let average: u128 = sum / count;
    let total: u128 = average + bonus as u128;
    if total <= u32::MAX as u128 {
        Some(total as u32)
    } else {
        None
    }
}

} // verus!
