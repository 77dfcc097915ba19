use crate::complexity::score;
use crate::equivalence::{equivalent, lemma_equivalent_symmetric};
use crate::expression::{lemma_cache_is_value, value_of, well_formed, EvaluatedExpr};
use crate::generate::{candidates, get_tens, sieve};
use crate::render::text;
use crate::shuffle::{canonical, fully_shuffle_expr, lemma_shuffled_sound, shuffled, MAX_PASSES};
use itertools::Itertools;
use vstd::prelude::*;

verus! {

/// Each expression canonicalized.
pub open spec fn canonical_forms(es: Seq<EvaluatedExpr>) -> Seq<EvaluatedExpr> {
    es.map_values(|e: EvaluatedExpr| shuffled(e, MAX_PASSES as nat))
}

/// Whether some expression of `kept` is equivalent to `e`.
pub open spec fn has_equivalent(kept: Seq<EvaluatedExpr>, e: EvaluatedExpr) -> bool {
    exists|i: int| 0 <= i < kept.len() && equivalent(#[trigger] kept[i].expression, e.expression)
}

/// The expressions of `es` in order, each kept only if no expression kept
/// before it is equivalent to it.
pub open spec fn distinct_solutions(es: Seq<EvaluatedExpr>) -> Seq<EvaluatedExpr>
    decreases es.len(),
{
    if es.len() == 0 {
        seq![]
    } else {
        let kept = distinct_solutions(es.drop_last());
        if has_equivalent(kept, es.last()) {
            kept
        } else {
            kept.push(es.last())
        }
    }
}

/// Every item is a canonical tree.
pub open spec fn all_canonical(es: Seq<EvaluatedExpr>) -> bool {
    forall|i: int| 0 <= i < es.len() ==> canonical(#[trigger] es[i])
}

/// Whether every generated expression of value `target` over `numbers`
/// reaches its canonical form within `MAX_PASSES` passes.
pub open spec fn all_converge(numbers: Seq<i32>, target: i32) -> bool {
    all_canonical(canonical_forms(sieve(candidates(numbers), Some(target))))
}

/// The solutions over `numbers` for `target`, in the order of discovery: the
/// generated expressions of that value, canonicalized, without equivalent
/// repeats.
pub open spec fn solutions(numbers: Seq<i32>, target: i32) -> Seq<EvaluatedExpr> {
    distinct_solutions(canonical_forms(sieve(candidates(numbers), Some(target))))
}

/// `order` lists the positions of `kept`, each once, by non-decreasing
/// score, and positions of equal score in their own order.
pub open spec fn ranking(kept: Seq<EvaluatedExpr>, order: Seq<int>) -> bool {
    &&& order.len() == kept.len()
    &&& forall|i: int| 0 <= i < order.len() ==> 0 <= #[trigger] order[i] < kept.len()
    &&& forall|i: int, j: int|
        0 <= i < j < order.len() ==> #[trigger] order[i] != #[trigger] order[j]
    &&& forall|i: int, j: int|
        0 <= i < j < order.len() ==> score(kept[#[trigger] order[i]].expression) <= score(
            kept[#[trigger] order[j]].expression,
        )
    &&& forall|i: int, j: int|
        0 <= i < j < order.len() && score(kept[#[trigger] order[i]].expression) == score(
            kept[#[trigger] order[j]].expression,
        ) ==> order[i] < order[j]
}

/// `out` holds the texts of `kept` in the order `order` ranks them.
pub open spec fn presents(out: Seq<String>, kept: Seq<EvaluatedExpr>, order: Seq<int>) -> bool {
    &&& ranking(kept, order)
    &&& out.len() == order.len()
    &&& forall|i: int| 0 <= i < out.len() ==> (#[trigger] out[i])@ == text(kept[order[i]].expression)
}

/// Every item is well formed and has the value `target`.
pub open spec fn all_reach(es: Seq<EvaluatedExpr>, target: i32) -> bool {
    forall|i: int| 0 <= i < es.len() ==> well_formed(#[trigger] es[i]) && es[i].value == target
}

/// No two items are equivalent.
pub open spec fn pairwise_distinct(es: Seq<EvaluatedExpr>) -> bool {
    forall|i: int, j: int|
        0 <= i < es.len() && 0 <= j < es.len() && i != j ==> !equivalent(
            #[trigger] es[i].expression,
            #[trigger] es[j].expression,
        )
}

proof fn lemma_distinct_solutions_reach(es: Seq<EvaluatedExpr>, target: i32)
    requires
        all_reach(es, target),
    ensures
        all_reach(distinct_solutions(es), target),
    decreases es.len(),
{
    if es.len() > 0 {
        assert(all_reach(es.drop_last(), target));
        assert(es.last() == es[es.len() - 1]);
        lemma_distinct_solutions_reach(es.drop_last(), target);
    }
}

proof fn lemma_distinct_solutions_distinct(es: Seq<EvaluatedExpr>)
    ensures
        pairwise_distinct(distinct_solutions(es)),
    decreases es.len(),
{
    if es.len() > 0 {
        lemma_distinct_solutions_distinct(es.drop_last());
        let kept = distinct_solutions(es.drop_last());
        let e = es.last();
        if !has_equivalent(kept, e) {
            let d = kept.push(e);
            assert forall|i: int, j: int|
                0 <= i < d.len() && 0 <= j < d.len() && i != j implies !equivalent(
                #[trigger] d[i].expression,
                #[trigger] d[j].expression,
            ) by {
                if i == kept.len() {
                    if equivalent(d[i].expression, d[j].expression) {
                        lemma_equivalent_symmetric(d[i].expression, d[j].expression);
                        assert(equivalent(kept[j].expression, e.expression));
                    }
                } else if j == kept.len() {
                    assert(!equivalent(kept[i].expression, e.expression));
                }
            }
        }
    }
}

/// Every solution is a well-formed expression whose value is the target.
pub proof fn lemma_solutions_reach_target(numbers: Seq<i32>, target: i32)
    ensures
        forall|i: int|
            0 <= i < solutions(numbers, target).len() ==> well_formed(
                #[trigger] solutions(numbers, target)[i],
            ) && value_of(solutions(numbers, target)[i].expression) == target,
{
    let found = sieve(candidates(numbers), Some(target));
    crate::generate::lemma_candidates_valid(numbers);
    crate::generate::lemma_sieve_valid(candidates(numbers), Some(target));
    let forms = canonical_forms(found);
    assert forall|i: int| 0 <= i < forms.len() implies well_formed(#[trigger] forms[i])
        && forms[i].value == target by {
        lemma_shuffled_sound(found[i], MAX_PASSES as nat);
    }
    lemma_distinct_solutions_reach(forms, target);
    let sols = solutions(numbers, target);
    assert forall|i: int| 0 <= i < sols.len() implies well_formed(#[trigger] sols[i]) && value_of(
        sols[i].expression,
    ) == target by {
        lemma_cache_is_value(sols[i]);
    }
}

/// No two solutions are equivalent to each other.
pub proof fn lemma_solutions_distinct(numbers: Seq<i32>, target: i32)
    ensures
        pairwise_distinct(solutions(numbers, target)),
{
    lemma_distinct_solutions_distinct(canonical_forms(sieve(candidates(numbers), Some(target))));
}

/// Every text that `solve` returns is of a well-formed expression whose value
/// is the target, and no two of them are of equivalent expressions.
pub proof fn lemma_presented_solutions(
    numbers: Seq<i32>,
    target: i32,
    out: Seq<String>,
    order: Seq<int>,
)
    requires
        presents(out, solutions(numbers, target), order),
    ensures
        forall|i: int|
            0 <= i < out.len() ==> well_formed(solutions(numbers, target)[#[trigger] order[i]])
                && value_of(solutions(numbers, target)[order[i]].expression) == target,
        forall|i: int, j: int|
            0 <= i < out.len() && 0 <= j < out.len() && i != j ==> !equivalent(
                solutions(numbers, target)[#[trigger] order[i]].expression,
                solutions(numbers, target)[#[trigger] order[j]].expression,
            ),
{
    let sols = solutions(numbers, target);
    lemma_solutions_reach_target(numbers, target);
    lemma_solutions_distinct(numbers, target);
    assert forall|i: int, j: int|
        0 <= i < out.len() && 0 <= j < out.len() && i != j implies !equivalent(
        sols[#[trigger] order[i]].expression,
        sols[#[trigger] order[j]].expression,
    ) by {
        if i < j {
            assert(order[i] != order[j]);
        } else {
            assert(order[j] != order[i]);
        }
    }
}

/// Relies on `itertools::Itertools::sorted_by_key`, a stable sort: the pairs
/// come out ordered by their first field, and pairs with equal first fields
/// in the order they went in.
#[verifier::external_body]
fn sort_by_score(pairs: Vec<(u32, usize)>) -> (r: Vec<(u32, usize)>)
    ensures
        r@.to_multiset() == pairs@.to_multiset(),
        forall|i: int, j: int| 0 <= i < j < r.len() ==> r@[i].0 <= r@[j].0,
        (forall|i: int, j: int| 0 <= i < j < pairs.len() ==> pairs@[i].1 < pairs@[j].1) ==> (forall|
            i: int,
            j: int,
        | 0 <= i < j < r.len() && r@[i].0 == r@[j].0 ==> r@[i].1 < r@[j].1),
{
    pairs.into_iter().sorted_by_key(|p| p.0).collect()
}

/// Canonicalizes the found expressions in order and keeps each one that no
/// expression kept before it is equivalent to.
/// Also says whether every canonicalization reached its fixpoint.
fn keep_distinct(found: &Vec<EvaluatedExpr>) -> (res: (Vec<EvaluatedExpr>, bool))
    requires
        forall|i: int| 0 <= i < found.len() ==> well_formed(#[trigger] found@[i]),
    ensures
        res.0@ == distinct_solutions(canonical_forms(found@)),
        res.1 == all_canonical(canonical_forms(found@)),
{
    let mut kept: Vec<EvaluatedExpr> = Vec::new();
    let mut converged = true;
    let mut i: usize = 0;
    while i < found.len()
        invariant
            0 <= i <= found.len(),
            forall|m: int| 0 <= m < found.len() ==> well_formed(#[trigger] found@[m]),
            kept@ == distinct_solutions(canonical_forms(found@.subrange(0, i as int))),
            converged == all_canonical(canonical_forms(found@.subrange(0, i as int))),
        decreases found.len() - i,
    {
        let mut e = found[i].duplicate();
        let settled = fully_shuffle_expr(&mut e);
        let mut repeated = false;
        let mut j: usize = 0;
        while j < kept.len()
            invariant
                0 <= j <= kept.len(),
                repeated == exists|m: int|
                    0 <= m < j && equivalent(#[trigger] kept@[m].expression, e.expression),
            decreases kept.len() - j,
        {
            if kept[j].equals(&e) {
                repeated = true;
            }
            j += 1;
        }
        proof {
            let prefix = found@.subrange(0, i + 1);
            assert(prefix.drop_last() =~= found@.subrange(0, i as int));
            assert(canonical_forms(prefix).drop_last() =~= canonical_forms(found@.subrange(0, i as int)));
            assert(canonical_forms(prefix).last() == e);
        }
        if !repeated {
            kept.push(e);
        }
        proof {
            let before = canonical_forms(found@.subrange(0, i as int));
            let after = canonical_forms(found@.subrange(0, i + 1));
            assert(after =~= before.push(e));
            if converged && settled {
                assert forall|m: int| 0 <= m < after.len() implies canonical(#[trigger] after[m]) by {
                    if m < before.len() {
                        assert(after[m] == before[m]);
                    }
                }
            }
            if !settled {
                assert(!canonical(after[i as int]));
            }
            if !converged {
                let m = choose|m: int| 0 <= m < before.len() && !canonical(#[trigger] before[m]);
                assert(after[m] == before[m]);
            }
        }
        converged = converged && settled;
        i += 1;
    }
    proof {
        assert(found@.subrange(0, i as int) =~= found@);
    }
    (kept, converged)
}

/// Every way to combine `numbers`, in their order, with `+ - * / ^` into the
/// value `target`: canonicalized, without equivalent repeats, ranked by
/// complexity score (ties in order of discovery), as infix text.
///
/// A tree still changing when the passes ran out is kept as the last pass
/// left it; `solve_checked` reports that case instead.
pub fn solve(numbers: &[i32], target: i32) -> (r: Vec<String>)
    ensures
        exists|order: Seq<int>| #[trigger] presents(r@, solutions(numbers@, target), order),
        numbers.len() == 0 ==> r.len() == 0,
{
    ranked_texts(numbers, target).0
}

/// As `solve`, or `None` where some solution did not reach its canonical
/// form within `MAX_PASSES` passes.
pub fn solve_checked(numbers: &[i32], target: i32) -> (r: Option<Vec<String>>)
    ensures
        r is Some <==> all_converge(numbers@, target),
        r is Some ==> exists|order: Seq<int>|
            #[trigger] presents(r->0@, solutions(numbers@, target), order),
{
    let (texts, converged) = ranked_texts(numbers, target);
    let ghost order = choose|order: Seq<int>|
        #[trigger] presents(texts@, solutions(numbers@, target), order);
    if converged {
        let r = Some(texts);
        proof {
            assert(presents(r->0@, solutions(numbers@, target), order));
        }
        r
    } else {
        None
    }
}

/// The texts of the solutions, ranked, and whether every candidate's
/// canonicalization reached its fixpoint.
fn ranked_texts(numbers: &[i32], target: i32) -> (res: (Vec<String>, bool))
    ensures
        exists|order: Seq<int>| #[trigger] presents(res.0@, solutions(numbers@, target), order),
        numbers.len() == 0 ==> res.0.len() == 0,
        res.1 == all_converge(numbers@, target),
{
    let found = get_tens(numbers, target);
    let (kept, converged) = keep_distinct(&found);
    let ghost sols = solutions(numbers@, target);
    assert(kept@ == sols);
    let mut pairs: Vec<(u32, usize)> = Vec::new();
    let mut i: usize = 0;
    while i < kept.len()
        invariant
            0 <= i <= kept.len(),
            pairs.len() == i,
            forall|m: int|
                0 <= m < i ==> #[trigger] pairs@[m] == (
                    score(kept@[m].expression) as u32,
                    m as usize,
                ),
        decreases kept.len() - i,
    {
        pairs.push((kept[i].get_complexity(), i));
        i += 1;
    }
    let ghost before = pairs@;
    let sorted = sort_by_score(pairs);
    let ghost order = sorted@.map_values(|p: (u32, usize)| p.1 as int);
    proof {
        broadcast use vstd::seq_lib::group_to_multiset_ensures;

        assert(sorted@.to_multiset().len() == sorted@.len());
        assert(before.to_multiset().len() == before.len());
        assert(sorted@.len() == before.len());
        assert forall|m: int| 0 <= m < sorted.len() implies exists|t: int|
            0 <= t < before.len() && #[trigger] sorted@[m] == before[t] by {
            assert(sorted@.contains(sorted@[m]));
            assert(before.to_multiset().count(sorted@[m]) > 0);
            assert(before.contains(sorted@[m]));
        }
        assert forall|m: int| 0 <= m < sorted.len() implies 0 <= #[trigger] order[m] < kept.len()
            && sorted@[m].0 as nat == score(kept@[order[m]].expression) by {
            let t = choose|t: int| 0 <= t < before.len() && sorted@[m] == before[t];
            assert(sorted@[m] == before[t]);
        }
    }
    let mut out: Vec<String> = Vec::new();
    let mut m: usize = 0;
    while m < sorted.len()
        invariant
            0 <= m <= sorted.len(),
            out.len() == m,
            order == sorted@.map_values(|p: (u32, usize)| p.1 as int),
            forall|n: int| 0 <= n < sorted.len() ==> 0 <= #[trigger] order[n] < kept.len(),
            forall|n: int| 0 <= n < m ==> (#[trigger] out@[n])@ == text(kept@[order[n]].expression),
        decreases sorted.len() - m,
    {
        let idx = sorted[m].1;
        proof {
            assert(order[m as int] == idx as int);
        }
        out.push(kept[idx].to_text());
        m += 1;
    }
    proof {
        assert(ranking(sols, order));
        assert(presents(out@, sols, order));
    }
    let res = (out, converged);
    proof {
        assert(presents(res.0@, sols, order));
    }
    res
}

} // verus!
