//! Choosing which vocabulary rows an embedding-space view shows, and how
//! each point is labelled. (The geometry itself, similarities and the
//! projection, is floating-point work done by the caller.)

use vstd::prelude::*;
use crate::text::{push_decimal, push_str, decimal};

verus! {

/// The seed ids that are rows of a vocabulary of `vocab_size`, in order.
pub open spec fn ids_in_vocab(ids: Seq<u32>, vocab_size: nat) -> Seq<usize>
    decreases ids.len(),
{
    if ids.len() == 0 {
        seq![]
    } else {
        ids_in_vocab(ids.drop_last(), vocab_size) + if (ids.last() as nat) < vocab_size {
            seq![ids.last() as usize]
        } else {
            seq![]
        }
    }
}

/// The seed rows: the seed token ids within the vocabulary, in order. With
/// none left, the request is refused with
/// `no valid seed token ids for a vocabulary of <vocab_size>`.
pub fn seed_indices(seed_token_ids: &[u32], vocab_size: usize) -> (r: Result<Vec<usize>, String>)
    ensures
        ids_in_vocab(seed_token_ids@, vocab_size as nat).len() > 0 ==> (r matches Ok(v) && v@
            == ids_in_vocab(seed_token_ids@, vocab_size as nat)),
        ids_in_vocab(seed_token_ids@, vocab_size as nat).len() == 0 ==> (r matches Err(m) && m@
            == "no valid seed token ids for a vocabulary of "@ + decimal(vocab_size as nat)),
{
    let mut v: Vec<usize> = Vec::new();
    let mut i: usize = 0;
    while i < seed_token_ids.len()
        invariant
            i <= seed_token_ids.len(),
            v@ == ids_in_vocab(seed_token_ids@.take(i as int), vocab_size as nat),
        decreases seed_token_ids.len() - i,
    {
        let id = seed_token_ids[i];
        if (id as usize) < vocab_size {
            v.push(id as usize);
        }
        proof {
            assert(seed_token_ids@.take(i + 1).drop_last() =~= seed_token_ids@.take(i as int));
        }
        i = i + 1;
    }
    assert(seed_token_ids@.take(seed_token_ids.len() as int) =~= seed_token_ids@);
    if v.len() == 0 {
        let mut m = String::from_str("no valid seed token ids for a vocabulary of ");
        push_decimal(&mut m, vocab_size as u64);
        return Err(m);
    }
    Ok(v)
}

/// Whether `i` is one of `seeds`.
pub fn is_seed(seeds: &Vec<usize>, i: usize) -> (r: bool)
    ensures
        r == seeds@.contains(i),
{
    let mut k: usize = 0;
    while k < seeds.len()
        invariant
            k <= seeds.len(),
            forall|j: int| 0 <= j < k ==> seeds@[j] != i,
        decreases seeds.len() - k,
    {
        if seeds[k] == i {
            assert(seeds@[k as int] == i);
            return true;
        }
        k = k + 1;
    }
    false
}

/// The rows of the vocabulary that are not seeds, in row order: the
/// candidates ranked as neighbours.
pub fn candidate_rows(vocab_size: usize, seeds: &Vec<usize>) -> (r: Vec<usize>)
    ensures
        forall|j: int| 0 <= j < r.len() ==> (#[trigger] r@[j]) < vocab_size && !seeds@.contains(r@[j]),
        forall|i: usize| i < vocab_size && !seeds@.contains(i) ==> r@.contains(i),
        forall|a: int, b: int| 0 <= a < b < r.len() ==> r@[a] < r@[b],
{
    let mut r: Vec<usize> = Vec::new();
    let mut i: usize = 0;
    while i < vocab_size
        invariant
            i <= vocab_size,
            forall|j: int| 0 <= j < r.len() ==> (#[trigger] r@[j]) < i && !seeds@.contains(r@[j]),
            forall|x: usize| x < i && !seeds@.contains(x) ==> r@.contains(x),
            forall|a: int, b: int| 0 <= a < b < r.len() ==> r@[a] < r@[b],
        decreases vocab_size - i,
    {
        if !is_seed(seeds, i) {
            let ghost before = r@;
            r.push(i);
            proof {
                assert forall|x: usize| x < i + 1 && !seeds@.contains(x) implies r@.contains(x) by {
                    if x < i {
                        let j = choose|j: int| 0 <= j < before.len() && before[j] == x;
                        assert(r@[j] == x);
                    } else {
                        assert(r@[r.len() - 1] == x);
                    }
                }
            }
        }
        i = i + 1;
    }
    r
}

/// The rows shown around seeds: every seed first, then as many of the
/// ranked neighbours as the remaining budget allows.
pub open spec fn spec_near_rows(seeds: Seq<usize>, ranked: Seq<usize>, total: nat) -> Seq<usize> {
    let budget: int = if total >= seeds.len() { total - seeds.len() } else { 0 };
    seeds + ranked.take(if budget <= ranked.len() { budget } else { ranked.len() as int })
}

/// The rows to show around seeds: the seeds always, then the best-ranked
/// neighbours up to `total_sample_size` rows in all.
pub fn near_rows(seeds: &Vec<usize>, ranked: &Vec<usize>, total_sample_size: usize) -> (r: Vec<usize>)
    ensures
        r@ == spec_near_rows(seeds@, ranked@, total_sample_size as nat),
{
    let budget = total_sample_size.saturating_sub(seeds.len());
    let take = if budget <= ranked.len() { budget } else { ranked.len() };
    let mut r = seeds.clone();
    assert(r@ =~= seeds@);
    let mut k: usize = 0;
    while k < take
        invariant
            take <= ranked.len(),
            k <= take,
            r@ == seeds@ + ranked@.take(k as int),
        decreases take - k,
    {
        r.push(ranked[k]);
        k = k + 1;
        assert(r@ =~= seeds@ + ranked@.take(k as int));
    }
    r
}

/// A point's label: the row's token text, or `<token i>` past the end of
/// the vocabulary labels.
pub fn token_label(tokens: &Vec<String>, i: usize) -> (r: String)
    ensures
        i < tokens.len() ==> r@ == tokens@[i as int]@,
        i >= tokens.len() ==> r@ == "<token "@ + decimal(i as nat) + ">"@,
{
    if i < tokens.len() {
        tokens[i].clone()
    } else {
        let mut r = String::from_str("<token ");
        push_decimal(&mut r, i as u64);
        push_str(&mut r, ">");
        r
    }
}


/// Seeds are always shown, first and in order, and the rows shown number
/// the larger of the seed count and the requested total (as far as there
/// are ranked neighbours to fill it).
pub proof fn law_seeds_always_shown(seeds: Seq<usize>, ranked: Seq<usize>, total: nat)
    ensures
        spec_near_rows(seeds, ranked, total).take(seeds.len() as int) == seeds,
        spec_near_rows(seeds, ranked, total).len() <= if total >= seeds.len() {
            total
        } else {
            seeds.len()
        },
        total <= seeds.len() + ranked.len() ==> spec_near_rows(seeds, ranked, total).len() == if total
            >= seeds.len() {
            total
        } else {
            seeds.len()
        },
{
    assert(spec_near_rows(seeds, ranked, total).take(seeds.len() as int) =~= seeds);
}

} // verus!
