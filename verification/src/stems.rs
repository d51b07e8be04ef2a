//! The six stems that the separation model produces, stem masks, and which
//! stems a mix adds or takes away.

use vstd::prelude::*;
use crate::text::same_text;

verus! {

/// How many stems the model separates.
pub const STEM_COUNT: usize = 6;

/// The mask with every stem in it: the input plays through unseparated.
pub const ALL_MASK: u32 = 0b11_1111;

/// The name of stem `i`, in the order of the model's output.
pub open spec fn stem(i: int) -> Seq<char> {
    if i == 0 {
        "drums"@
    } else if i == 1 {
        "bass"@
    } else if i == 2 {
        "other"@
    } else if i == 3 {
        "vocals"@
    } else if i == 4 {
        "guitar"@
    } else {
        "piano"@
    }
}

/// Bit `i` of `mask` is set.
pub open spec fn has_bit(mask: u32, i: u32) -> bool {
    mask & (1u32 << i) != 0u32
}

/// Stem `i` is one of `names`.
pub open spec fn named(names: Seq<String>, i: int) -> bool {
    exists|j: int| 0 <= j < names.len() && (#[trigger] names[j])@ == stem(i)
}

/// The number of set bits of `mask` below bit `k`.
pub open spec fn ones_below(mask: u32, k: nat) -> nat
    decreases k,
{
    if k == 0 {
        0
    } else {
        ones_below(mask, (k - 1) as nat) + if has_bit(mask, (k - 1) as u32) {
            1nat
        } else {
            0nat
        }
    }
}

/// The stems below `k` that a mix with that mask picks: in order, those whose
/// bit differs from `subtract`.
pub open spec fn picked_below(mask: u32, subtract: bool, k: nat) -> Seq<usize>
    decreases k,
{
    if k == 0 {
        Seq::empty()
    } else {
        let rest = picked_below(mask, subtract, (k - 1) as nat);
        if has_bit(mask, (k - 1) as u32) != subtract {
            rest.push((k - 1) as usize)
        } else {
            rest
        }
    }
}

proof fn lemma_or_bit(m: u32, p: u32, i: u32)
    requires
        p < 32,
        i < 32,
    ensures
        ((m | (1u32 << p)) & (1u32 << i) != 0u32) == ((m & (1u32 << i) != 0u32) || i == p),
{
    assert(((m | (1u32 << p)) & (1u32 << i) != 0u32) == ((m & (1u32 << i) != 0u32) || i == p))
        by (bit_vector)
        requires
            p < 32,
            i < 32,
    ;
}

/// No two stems share a name.
pub proof fn lemma_stems_distinct(a: int, b: int)
    requires
        0 <= a < STEM_COUNT,
        0 <= b < STEM_COUNT,
        stem(a) == stem(b),
    ensures
        a == b,
{
    reveal_strlit("drums");
    reveal_strlit("bass");
    reveal_strlit("other");
    reveal_strlit("vocals");
    reveal_strlit("guitar");
    reveal_strlit("piano");
    assert(stem(0)[0] == 'd');
    assert(stem(1)[0] == 'b');
    assert(stem(2)[0] == 'o');
    assert(stem(3)[0] == 'v');
    assert(stem(4)[0] == 'g');
    assert(stem(5)[0] == 'p');
    assert(stem(a)[0] == stem(b)[0]);
}

proof fn lemma_zero_bits(i: u32)
    requires
        i < 32,
    ensures
        !has_bit(0u32, i),
{
    assert(0u32 & (1u32 << i) == 0u32) by (bit_vector);
}

/// The name of stem `i`.
pub fn stem_name(i: usize) -> (name: &'static str)
    requires
        i < STEM_COUNT,
    ensures
        name@ == stem(i as int),
{
    if i == 0 {
        "drums"
    } else if i == 1 {
        "bass"
    } else if i == 2 {
        "other"
    } else if i == 3 {
        "vocals"
    } else if i == 4 {
        "guitar"
    } else {
        "piano"
    }
}

/// The first stem with that name, if any.
pub fn stem_position(name: &str) -> (p: Option<usize>)
    ensures
        match p {
            Some(i) => i < STEM_COUNT && name@ == stem(i as int) && forall|j: int|
                0 <= j < i ==> stem(j) != name@,
            None => forall|j: int| 0 <= j < STEM_COUNT ==> stem(j) != name@,
        },
{
    let mut i: usize = 0;
    while i < STEM_COUNT
        invariant
            i <= STEM_COUNT,
            forall|j: int| 0 <= j < i ==> stem(j) != name@,
        decreases STEM_COUNT - i,
    {
        if same_text(stem_name(i), name) {
            return Some(i);
        }
        i = i + 1;
    }
    None
}

/// The mask of the stems named in `names`: bit `i` is set exactly when stem
/// `i` is named; names that are no stem are ignored.
pub fn stems_mask(names: &[String]) -> (mask: u32)
    ensures
        forall|i: u32| i < 32 ==> (has_bit(mask, i) <==> (i < STEM_COUNT && named(names@, i as int))),
{
    let mut mask: u32 = 0;
    let mut k: usize = 0;
    proof {
        assert forall|i: u32| i < 32 implies !has_bit(mask, i) by {
            lemma_zero_bits(i);
        }
    }
    while k < names.len()
        invariant
            k <= names@.len(),
            forall|i: u32|
                i < 32 ==> (has_bit(mask, i) <==> (i < STEM_COUNT && exists|j: int|
                    0 <= j < k && (#[trigger] names@[j])@ == stem(i as int))),
        decreases names@.len() - k,
    {
        let ghost old_mask = mask;
        match stem_position(names[k].as_str()) {
            Some(p) => {
                let pp: u32 = p as u32;
                mask = mask | (1u32 << pp);
                proof {
                    assert forall|i: u32| i < 32 implies (has_bit(mask, i) <==> (i < STEM_COUNT
                        && exists|j: int| 0 <= j < k + 1 && (#[trigger] names@[j])@ == stem(i as int))) by {
                        lemma_or_bit(old_mask, pp, i);
                        assert(has_bit(old_mask, i) <==> (i < STEM_COUNT && exists|j: int|
                            0 <= j < k && (#[trigger] names@[j])@ == stem(i as int)));
                        if has_bit(mask, i) && i != pp {
                            assert(has_bit(old_mask, i));
                            let j = choose|j: int| 0 <= j < k && (#[trigger] names@[j])@ == stem(i as int);
                            assert(0 <= j < k + 1);
                        }
                        if i == pp {
                            assert(names@[k as int]@ == stem(i as int));
                        }
                        if i < STEM_COUNT && exists|j: int| 0 <= j < k + 1 && (#[trigger] names@[j])@ == stem(i as int) {
                            let j = choose|j: int| 0 <= j < k + 1 && (#[trigger] names@[j])@ == stem(i as int);
                            if j == k {
                                assert(stem(i as int) == stem(pp as int));
                                lemma_stems_distinct(i as int, pp as int);
                            }
                        }
                    }
                }
            },
            None => {
                proof {
                    assert forall|i: u32| i < 32 implies (has_bit(mask, i) <==> (i < STEM_COUNT
                        && exists|j: int| 0 <= j < k + 1 && (#[trigger] names@[j])@ == stem(i as int))) by {
                        assert(has_bit(old_mask, i) <==> (i < STEM_COUNT && exists|j: int|
                            0 <= j < k && (#[trigger] names@[j])@ == stem(i as int)));
                        if has_bit(mask, i) {
                            let j = choose|j: int| 0 <= j < k && (#[trigger] names@[j])@ == stem(i as int);
                            assert(0 <= j < k + 1);
                        }
                        if i < STEM_COUNT && exists|j: int| 0 <= j < k + 1 && (#[trigger] names@[j])@ == stem(i as int) {
                            let j = choose|j: int| 0 <= j < k + 1 && (#[trigger] names@[j])@ == stem(i as int);
                            if j == k {
                                assert(stem(i as int) != names@[k as int]@);
                            } else {
                                assert(0 <= j < k);
                            }
                        }
                    }
                }
            },
        }
        k = k + 1;
    }
    mask
}

/// The number of set bits of `mask`, as `u32::count_ones` counts them.
pub fn count_ones(mask: u32) -> (n: u32)
    ensures
        n == ones_below(mask, 32),
{
    let mut n: u32 = 0;
    let mut i: u32 = 0;
    while i < 32
        invariant
            i <= 32,
            n == ones_below(mask, i as nat),
            n <= i,
        decreases 32 - i,
    {
        if mask & (1u32 << i) != 0 {
            n = n + 1;
        }
        i = i + 1;
    }
    n
}

/// How a block is mixed from the separated stems.
pub struct MixPlan {
    /// Start from the input and take the listed stems away (more than half the
    /// stems are wanted); otherwise start from silence and add them up.
    pub subtract: bool,
    /// The stems to add or to take away, in the model's order.
    pub stems: Vec<usize>,
}

/// The mix for a stem mask: when more than half the stems are wanted, the
/// stems left out are taken away from the input; otherwise the stems wanted
/// are added up.
pub fn mix_plan(mask: u32) -> (plan: MixPlan)
    ensures
        plan.subtract == (ones_below(mask, 32) > STEM_COUNT / 2),
        plan.stems@ == picked_below(mask, plan.subtract, STEM_COUNT as nat),
{
    let subtract = count_ones(mask) > (STEM_COUNT as u32) / 2;
    let mut stems: Vec<usize> = Vec::new();
    let mut i: usize = 0;
    while i < STEM_COUNT
        invariant
            i <= STEM_COUNT,
            stems@ == picked_below(mask, subtract, i as nat),
        decreases STEM_COUNT - i,
    {
        let bit: u32 = i as u32;
        if (mask & (1u32 << bit) != 0) != subtract {
            stems.push(i);
        }
        i = i + 1;
    }
    MixPlan { subtract, stems }
}

/// Whether the blocks must go through the separation model: only when some
/// stem is left out of the mix.
pub fn needs_separation(mask: u32) -> (b: bool)
    ensures
        b == (mask != ALL_MASK),
{
    mask != ALL_MASK
}

/// The stems a mix picks below `k` are exactly those whose bit differs from
/// `subtract`, each once, in increasing order.
pub proof fn lemma_picked_exactly(mask: u32, subtract: bool, k: nat)
    requires
        k <= 32,
    ensures
        forall|i: u32| i < k ==> (picked_below(mask, subtract, k).contains(i as usize) <==> #[trigger] has_bit(mask, i)
            != subtract),
        forall|a: int, b: int|
            0 <= a < b < picked_below(mask, subtract, k).len() ==> picked_below(mask, subtract, k)[a]
                < picked_below(mask, subtract, k)[b],
        forall|a: int| 0 <= a < picked_below(mask, subtract, k).len() ==> picked_below(mask, subtract, k)[a] < k,
    decreases k,
{
    if k > 0 {
        let k1 = (k - 1) as nat;
        lemma_picked_exactly(mask, subtract, k1);
        let p = picked_below(mask, subtract, k1);
        let x = k1 as usize;
        if has_bit(mask, k1 as u32) != subtract {
            let q = p.push(x);
            assert forall|i: u32| i < k implies (q.contains(i as usize) <==> #[trigger] has_bit(mask, i) != subtract) by {
                if i < k1 {
                    if q.contains(i as usize) {
                        let w = choose|w: int| 0 <= w < q.len() && q[w] == i as usize;
                        if w < p.len() {
                            assert(p[w] == q[w]);
                        }
                    }
                    if p.contains(i as usize) {
                        let w = choose|w: int| 0 <= w < p.len() && p[w] == i as usize;
                        assert(q[w] == p[w]);
                    }
                } else {
                    assert(q[q.len() - 1] == x);
                }
            }
        } else {
            assert forall|i: u32| i < k implies (p.contains(i as usize) <==> #[trigger] has_bit(mask, i) != subtract) by {
                if i == k1 && p.contains(i as usize) {
                    let w = choose|w: int| 0 <= w < p.len() && p[w] == i as usize;
                    assert(p[w] < k1);
                }
            }
        }
    }
}

} // verus!
