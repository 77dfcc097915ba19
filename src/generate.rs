use crate::expression::{construct, leaf, node, well_formed, EvaluatedExpr, Expression};
use crate::operation::{redundant, OperationKind};
use vstd::prelude::*;

verus! {

/// The candidate, if any, as a sequence of zero or one items.
pub open spec fn opt(o: Option<EvaluatedExpr>) -> Seq<EvaluatedExpr> {
    match o {
        Some(e) => seq![e],
        None => seq![],
    }
}

/// The orientation `right kind left` of an order-sensitive operator, skipped
/// when both operands have the same value.
pub open spec fn flipped(l: EvaluatedExpr, r: EvaluatedExpr, kind: OperationKind) -> Seq<
    EvaluatedExpr,
> {
    if l.value != r.value {
        opt(construct(r, l, kind))
    } else {
        seq![]
    }
}

/// The nodes that join one collected operand `l` and one streamed operand `r`,
/// operator by operator, dropping those the constructor rejects.
pub open spec fn combos(l: EvaluatedExpr, r: EvaluatedExpr) -> Seq<EvaluatedExpr> {
    opt(construct(l, r, OperationKind::Add)) + opt(construct(l, r, OperationKind::Subtract))
        + flipped(l, r, OperationKind::Subtract) + opt(construct(l, r, OperationKind::Multiply))
        + opt(construct(l, r, OperationKind::Divide)) + flipped(l, r, OperationKind::Divide) + opt(
        construct(l, r, OperationKind::Power),
    ) + flipped(l, r, OperationKind::Power)
}

/// The nodes that join each collected operand in `ls`, in order, with `r`.
pub open spec fn pair_left(ls: Seq<EvaluatedExpr>, r: EvaluatedExpr) -> Seq<EvaluatedExpr>
    decreases ls.len(),
{
    if ls.len() == 0 {
        seq![]
    } else {
        pair_left(ls.drop_last(), r) + combos(ls.last(), r)
    }
}

/// The nodes that join each streamed operand in `rs`, in order, with every
/// collected operand in `ls`.
pub open spec fn cross(rs: Seq<EvaluatedExpr>, ls: Seq<EvaluatedExpr>) -> Seq<EvaluatedExpr>
    decreases rs.len(),
{
    if rs.len() == 0 {
        seq![]
    } else {
        cross(rs.drop_last(), ls) + pair_left(ls, rs.last())
    }
}

/// For the split before index `i`, the part whose candidates are collected:
/// the shorter one, the prefix when both are as long.
pub open spec fn collected_part(s: Seq<i32>, i: int) -> Seq<i32> {
    if 2 * i <= s.len() {
        s.subrange(0, i)
    } else {
        s.subrange(i, s.len() as int)
    }
}

/// For the split before index `i`, the part whose candidates are streamed.
pub open spec fn streamed_part(s: Seq<i32>, i: int) -> Seq<i32> {
    if 2 * i <= s.len() {
        s.subrange(i, s.len() as int)
    } else {
        s.subrange(0, i)
    }
}

/// Every expression over `s`, in the order of generation: for a single
/// number its leaf; otherwise, split by split, the joins of the two parts.
pub open spec fn candidates(s: Seq<i32>) -> Seq<EvaluatedExpr>
    decreases s.len(), s.len() + 1,
{
    if s.len() == 1 {
        seq![leaf(s[0])]
    } else {
        split_candidates(s, s.len() as int)
    }
}

/// The candidates of the splits before indices `1 .. k`.
pub open spec fn split_candidates(s: Seq<i32>, k: int) -> Seq<EvaluatedExpr>
    decreases s.len(), k,
{
    if k <= 1 || k > s.len() {
        seq![]
    } else {
        split_candidates(s, k - 1) + cross(
            candidates(streamed_part(s, k - 1)),
            candidates(collected_part(s, k - 1)),
        )
    }
}

/// What one expression becomes once it has been joined, frame by frame from
/// the innermost, with the collected operands of `fs`.
pub open spec fn chain(fs: Seq<Seq<EvaluatedExpr>>, e: EvaluatedExpr) -> Seq<EvaluatedExpr>
    decreases fs.len(), 0int,
{
    if fs.len() == 0 {
        seq![e]
    } else {
        chain_all(fs.drop_last(), pair_left(fs.last(), e))
    }
}

/// `chain` applied to each of `es`, in order.
pub open spec fn chain_all(fs: Seq<Seq<EvaluatedExpr>>, es: Seq<EvaluatedExpr>) -> Seq<
    EvaluatedExpr,
>
    decreases fs.len(), es.len(),
{
    if es.len() == 0 {
        seq![]
    } else {
        chain_all(fs, es.drop_last()) + chain(fs, es.last())
    }
}

/// Whether `e` passes the target filter (`None` lets everything through).
pub open spec fn on_target(e: EvaluatedExpr, target: Option<i32>) -> bool {
    match target {
        Some(t) => e.value == t,
        None => true,
    }
}

/// The items of `es` that pass the target filter, in order.
pub open spec fn sieve(es: Seq<EvaluatedExpr>, target: Option<i32>) -> Seq<EvaluatedExpr>
    decreases es.len(),
{
    if es.len() == 0 {
        seq![]
    } else {
        sieve(es.drop_last(), target) + if on_target(es.last(), target) {
            seq![es.last()]
        } else {
            seq![]
        }
    }
}

/// The collected operands of each frame.
pub open spec fn frame_views(frames: Seq<Vec<EvaluatedExpr>>) -> Seq<Seq<EvaluatedExpr>> {
    frames.map_values(|v: Vec<EvaluatedExpr>| v@)
}

/// Every node of the tree is one the validating constructor accepts: none is
/// redundant.
pub open spec fn as_constructed(e: EvaluatedExpr) -> bool
    decreases e,
{
    match e.expression {
        Expression::Num(_) => true,
        Expression::Op(op) => !redundant(op.kind, op.left.value as int, op.right.value as int)
            && as_constructed(op.left) && as_constructed(op.right),
    }
}

/// Every item is well formed and as the constructor built it.
pub open spec fn all_valid(es: Seq<EvaluatedExpr>) -> bool {
    forall|i: int| 0 <= i < es.len() ==> well_formed(#[trigger] es[i]) && as_constructed(es[i])
}

proof fn lemma_all_valid_concat(a: Seq<EvaluatedExpr>, b: Seq<EvaluatedExpr>)
    requires
        all_valid(a),
        all_valid(b),
    ensures
        all_valid(a + b),
{
    assert forall|i: int| 0 <= i < (a + b).len() implies well_formed(#[trigger] (a + b)[i])
        && as_constructed((a + b)[i]) by {
        if i >= a.len() {
            assert((a + b)[i] == b[i - a.len()]);
        }
    }
}

proof fn lemma_opt_valid(l: EvaluatedExpr, r: EvaluatedExpr, k: OperationKind)
    requires
        well_formed(l) && as_constructed(l),
        well_formed(r) && as_constructed(r),
    ensures
        all_valid(opt(construct(l, r, k))),
{
    if let Some(e) = construct(l, r, k) {
        assert(e == node(l, r, k));
        assert(opt(construct(l, r, k))[0] == e);
    }
}

proof fn lemma_combos_valid(l: EvaluatedExpr, r: EvaluatedExpr)
    requires
        well_formed(l) && as_constructed(l),
        well_formed(r) && as_constructed(r),
    ensures
        all_valid(combos(l, r)),
{
    lemma_opt_valid(l, r, OperationKind::Add);
    lemma_opt_valid(l, r, OperationKind::Subtract);
    lemma_opt_valid(r, l, OperationKind::Subtract);
    lemma_opt_valid(l, r, OperationKind::Multiply);
    lemma_opt_valid(l, r, OperationKind::Divide);
    lemma_opt_valid(r, l, OperationKind::Divide);
    lemma_opt_valid(l, r, OperationKind::Power);
    lemma_opt_valid(r, l, OperationKind::Power);
    let e = Seq::<EvaluatedExpr>::empty();
    let add = opt(construct(l, r, OperationKind::Add));
    let sub = opt(construct(l, r, OperationKind::Subtract));
    let sub2 = flipped(l, r, OperationKind::Subtract);
    let mul = opt(construct(l, r, OperationKind::Multiply));
    let div = opt(construct(l, r, OperationKind::Divide));
    let div2 = flipped(l, r, OperationKind::Divide);
    let pow = opt(construct(l, r, OperationKind::Power));
    let pow2 = flipped(l, r, OperationKind::Power);
    assert(all_valid(e));
    lemma_all_valid_concat(add, sub);
    lemma_all_valid_concat(add + sub, sub2);
    lemma_all_valid_concat(add + sub + sub2, mul);
    lemma_all_valid_concat(add + sub + sub2 + mul, div);
    lemma_all_valid_concat(add + sub + sub2 + mul + div, div2);
    lemma_all_valid_concat(add + sub + sub2 + mul + div + div2, pow);
    lemma_all_valid_concat(add + sub + sub2 + mul + div + div2 + pow, pow2);
}

proof fn lemma_pair_left_valid(ls: Seq<EvaluatedExpr>, r: EvaluatedExpr)
    requires
        all_valid(ls),
        well_formed(r) && as_constructed(r),
    ensures
        all_valid(pair_left(ls, r)),
    decreases ls.len(),
{
    if ls.len() > 0 {
        assert(all_valid(ls.drop_last()));
        assert(ls.last() == ls[ls.len() - 1]);
        lemma_pair_left_valid(ls.drop_last(), r);
        lemma_combos_valid(ls.last(), r);
        lemma_all_valid_concat(pair_left(ls.drop_last(), r), combos(ls.last(), r));
    }
}

proof fn lemma_cross_valid(rs: Seq<EvaluatedExpr>, ls: Seq<EvaluatedExpr>)
    requires
        all_valid(rs),
        all_valid(ls),
    ensures
        all_valid(cross(rs, ls)),
    decreases rs.len(),
{
    if rs.len() > 0 {
        assert(all_valid(rs.drop_last()));
        assert(rs.last() == rs[rs.len() - 1]);
        lemma_cross_valid(rs.drop_last(), ls);
        lemma_pair_left_valid(ls, rs.last());
        lemma_all_valid_concat(cross(rs.drop_last(), ls), pair_left(ls, rs.last()));
    }
}

/// Every generated candidate is well formed, and no node of it is redundant.
pub proof fn lemma_candidates_valid(s: Seq<i32>)
    ensures
        all_valid(candidates(s)),
    decreases s.len(), s.len() + 1,
{
    if s.len() == 1 {
        assert(candidates(s)[0] == leaf(s[0]));
    } else {
        lemma_split_candidates_valid(s, s.len() as int);
    }
}

proof fn lemma_split_candidates_valid(s: Seq<i32>, k: int)
    ensures
        all_valid(split_candidates(s, k)),
    decreases s.len(), k,
{
    if 1 < k <= s.len() {
        lemma_split_candidates_valid(s, k - 1);
        lemma_candidates_valid(streamed_part(s, k - 1));
        lemma_candidates_valid(collected_part(s, k - 1));
        lemma_cross_valid(
            candidates(streamed_part(s, k - 1)),
            candidates(collected_part(s, k - 1)),
        );
        lemma_all_valid_concat(
            split_candidates(s, k - 1),
            cross(candidates(streamed_part(s, k - 1)), candidates(collected_part(s, k - 1))),
        );
    }
}

/// The items that pass the filter pass it, and come from `es`.
pub proof fn lemma_sieve_valid(es: Seq<EvaluatedExpr>, target: Option<i32>)
    requires
        all_valid(es),
    ensures
        all_valid(sieve(es, target)),
        forall|i: int|
            0 <= i < sieve(es, target).len() ==> on_target(#[trigger] sieve(es, target)[i], target),
    decreases es.len(),
{
    if es.len() > 0 {
        assert(all_valid(es.drop_last()));
        assert(es.last() == es[es.len() - 1]);
        lemma_sieve_valid(es.drop_last(), target);
        let tail = if on_target(es.last(), target) {
            seq![es.last()]
        } else {
            seq![]
        };
        lemma_all_valid_concat(sieve(es.drop_last(), target), tail);
        let a = sieve(es.drop_last(), target);
        assert forall|i: int| 0 <= i < (a + tail).len() implies on_target(
            #[trigger] (a + tail)[i],
            target,
        ) by {
            if i >= a.len() {
                assert((a + tail)[i] == tail[i - a.len()]);
            }
        }
    }
}

proof fn lemma_sieve_concat(a: Seq<EvaluatedExpr>, b: Seq<EvaluatedExpr>, target: Option<i32>)
    ensures
        sieve(a + b, target) == sieve(a, target) + sieve(b, target),
    decreases b.len(),
{
    if b.len() == 0 {
        assert(a + b =~= a);
    } else {
        lemma_sieve_concat(a, b.drop_last(), target);
        assert((a + b).drop_last() =~= a + b.drop_last());
    }
}

proof fn lemma_sieve_all(es: Seq<EvaluatedExpr>)
    ensures
        sieve(es, None) == es,
    decreases es.len(),
{
    if es.len() > 0 {
        lemma_sieve_all(es.drop_last());
    }
}

proof fn lemma_chain_all_concat(
    fs: Seq<Seq<EvaluatedExpr>>,
    a: Seq<EvaluatedExpr>,
    b: Seq<EvaluatedExpr>,
)
    ensures
        chain_all(fs, a + b) == chain_all(fs, a) + chain_all(fs, b),
    decreases b.len(),
{
    if b.len() == 0 {
        assert(a + b =~= a);
    } else {
        lemma_chain_all_concat(fs, a, b.drop_last());
        assert((a + b).drop_last() =~= a + b.drop_last());
        assert((a + b).last() == b.last());
    }
}

proof fn lemma_chain_all_single(fs: Seq<Seq<EvaluatedExpr>>, e: EvaluatedExpr)
    ensures
        chain_all(fs, seq![e]) == chain(fs, e),
{
    assert(seq![e].drop_last() =~= Seq::<EvaluatedExpr>::empty());
    assert(chain_all(fs, Seq::<EvaluatedExpr>::empty()) == Seq::<EvaluatedExpr>::empty());
    assert(Seq::<EvaluatedExpr>::empty() + chain(fs, e) =~= chain(fs, e));
}

proof fn lemma_chain_all_no_frames(es: Seq<EvaluatedExpr>)
    ensures
        chain_all(seq![], es) == es,
    decreases es.len(),
{
    if es.len() > 0 {
        lemma_chain_all_no_frames(es.drop_last());
        assert(chain(seq![], es.last()) == seq![es.last()]);
        assert(es.drop_last() + seq![es.last()] =~= es);
    }
}

/// Streaming through one more frame is streaming the joins with that frame.
proof fn lemma_chain_all_push(
    fs: Seq<Seq<EvaluatedExpr>>,
    c: Seq<EvaluatedExpr>,
    es: Seq<EvaluatedExpr>,
)
    ensures
        chain_all(fs.push(c), es) == chain_all(fs, cross(es, c)),
    decreases es.len(),
{
    if es.len() > 0 {
        lemma_chain_all_push(fs, c, es.drop_last());
        assert(fs.push(c).drop_last() =~= fs);
        assert(fs.push(c).last() == c);
        assert(chain(fs.push(c), es.last()) == chain_all(fs, pair_left(c, es.last())));
        lemma_chain_all_concat(fs, cross(es.drop_last(), c), pair_left(c, es.last()));
    }
}

/// Passes `e` out through the innermost `k` frames: joined with each collected
/// operand of frame `k - 1`, each result passed through the frames below, and
/// what comes out of frame 0 appended to `out` when it passes the filter.
fn emit(
    frames: &Vec<Vec<EvaluatedExpr>>,
    k: usize,
    e: EvaluatedExpr,
    target: Option<i32>,
    out: &mut Vec<EvaluatedExpr>,
)
    requires
        k <= frames.len(),
    ensures
        final(out)@ == old(out)@ + sieve(
            chain(frame_views(frames@).subrange(0, k as int), e),
            target,
        ),
    decreases k,
{
    let ghost fs = frame_views(frames@).subrange(0, k as int);
    if k == 0 {
        let pass = match target {
            Some(t) => e.value == t,
            None => true,
        };
        proof {
            assert(seq![e].drop_last() =~= Seq::<EvaluatedExpr>::empty());
            assert(sieve(Seq::<EvaluatedExpr>::empty(), target) == Seq::<EvaluatedExpr>::empty());
            assert(Seq::<EvaluatedExpr>::empty() + seq![e] =~= seq![e]);
            assert(Seq::<EvaluatedExpr>::empty() + Seq::<EvaluatedExpr>::empty() =~= Seq::<
                EvaluatedExpr,
            >::empty());
            assert(sieve(seq![e], target) =~= if pass {
                seq![e]
            } else {
                seq![]
            });
        }
        if pass {
            out.push(e);
        }
        proof {
            assert(sieve(chain(fs, e), target) == sieve(seq![e], target));
        }
        return;
    }
    let ghost below = frame_views(frames@).subrange(0, k - 1);
    let top = &frames[k - 1];
    proof {
        assert(fs.drop_last() =~= below);
        assert(fs.last() == top@);
    }
    let ghost base = out@;
    let mut j: usize = 0;
    while j < top.len()
        invariant
            0 <= j <= top.len(),
            1 <= k <= frames.len(),
            top == frames@[k - 1],
            below == frame_views(frames@).subrange(0, k - 1),
            out@ == base + sieve(chain_all(below, pair_left(top@.subrange(0, j as int), e)), target),
        decreases top.len() - j,
    {
        let mut joined = combinations(&top[j], &e);
        let ghost js = joined@;
        let ghost before = out@;
        let ghost mut m: int = 0;
        while joined.len() > 0
            invariant
                0 <= m <= js.len(),
                joined@ == js.subrange(m, js.len() as int),
                1 <= k <= frames.len(),
                below == frame_views(frames@).subrange(0, k - 1),
                out@ == before + sieve(chain_all(below, js.subrange(0, m)), target),
            decreases joined.len(),
        {
            let c = joined.remove(0);
            emit(frames, k - 1, c, target, out);
            proof {
                assert(js.subrange(0, m + 1).drop_last() =~= js.subrange(0, m));
                lemma_sieve_concat(chain_all(below, js.subrange(0, m)), chain(below, c), target);
                m = m + 1;
                assert(joined@ =~= js.subrange(m, js.len() as int));
            }
        }
        proof {
            assert(js.subrange(0, m) =~= js);
            let ls = top@.subrange(0, j + 1);
            assert(ls.drop_last() =~= top@.subrange(0, j as int));
            lemma_chain_all_concat(below, pair_left(top@.subrange(0, j as int), e), js);
            lemma_sieve_concat(
                chain_all(below, pair_left(top@.subrange(0, j as int), e)),
                chain_all(below, js),
                target,
            );
        }
        j += 1;
    }
    proof {
        assert(top@.subrange(0, j as int) =~= top@);
    }
}

/// Generates the candidates over `s` and passes each out through all the frames.
/// Of every split the shorter part's candidates are collected into a new
/// frame, and the longer part is streamed through it.
fn stream(
    s: &[i32],
    frames: &mut Vec<Vec<EvaluatedExpr>>,
    target: Option<i32>,
    out: &mut Vec<EvaluatedExpr>,
)
    ensures
        final(frames)@ == old(frames)@,
        final(out)@ == old(out)@ + sieve(
            chain_all(frame_views(old(frames)@), candidates(s@)),
            target,
        ),
    decreases s@.len(),
{
    let ghost fs = frame_views(frames@);
    let n = s.len();
    if n == 1 {
        let e = Expression::new_num(s[0]);
        let k = frames.len();
        emit(frames, k, e, target, out);
        proof {
            assert(fs.subrange(0, k as int) =~= fs);
            lemma_chain_all_single(fs, e);
        }
        return;
    }
    let ghost base = out@;
    let mut i: usize = 1;
    proof {
        assert(sieve(chain_all(fs, split_candidates(s@, 1)), target) =~= seq![]);
        assert(base + seq![] =~= base);
    }
    while i < n
        invariant
            n == s@.len(),
            n != 1,
            1 <= i <= n || n == 0,
            frames@ == old(frames)@,
            fs == frame_views(frames@),
            out@ == base + sieve(chain_all(fs, split_candidates(s@, i as int)), target),
        decreases n - i,
    {
        let (prefix, suffix) = s.split_at(i);
        // The shorter side is collected, since it is looped over once per
        // candidate of the other side.
        let (small, large) = if i <= n - i {
            (prefix, suffix)
        } else {
            (suffix, prefix)
        };
        proof {
            assert(small@ == collected_part(s@, i as int));
            assert(large@ == streamed_part(s@, i as int));
        }
        let mut collected: Vec<EvaluatedExpr> = Vec::new();
        let mut no_frames: Vec<Vec<EvaluatedExpr>> = Vec::new();
        stream(small, &mut no_frames, None, &mut collected);
        proof {
            assert(frame_views(seq![]) =~= seq![]);
            lemma_chain_all_no_frames(candidates(small@));
            lemma_sieve_all(candidates(small@));
            assert(collected@ == candidates(small@));
        }
        frames.push(collected);
        proof {
            assert(frame_views(frames@) =~= fs.push(candidates(small@)));
        }
        stream(large, frames, target, out);
        frames.pop();
        proof {
            assert(frames@ =~= old(frames)@);
            lemma_chain_all_push(fs, candidates(small@), candidates(large@));
            let prev = split_candidates(s@, i as int);
            let part = cross(candidates(large@), candidates(small@));
            assert(split_candidates(s@, i + 1) == prev + part);
            lemma_chain_all_concat(fs, prev, part);
            lemma_sieve_concat(chain_all(fs, prev), chain_all(fs, part), target);
        }
        i += 1;
    }
    proof {
        if n > 1 {
            assert(candidates(s@) == split_candidates(s@, n as int));
        } else {
            assert(candidates(s@) =~= seq![]);
        }
    }
}

/// Every expression that combines all of `inputs`, in their order, with the
/// five operators, as the generator yields them.
pub fn generate_expressions(inputs: &[i32]) -> (r: Vec<EvaluatedExpr>)
    ensures
        r@ == candidates(inputs@),
        all_valid(r@),
{
    proof {
        lemma_candidates_valid(inputs@);
    }
    let mut out: Vec<EvaluatedExpr> = Vec::new();
    let mut frames: Vec<Vec<EvaluatedExpr>> = Vec::new();
    stream(inputs, &mut frames, None, &mut out);
    proof {
        assert(frame_views(seq![]) =~= seq![]);
        lemma_chain_all_no_frames(candidates(inputs@));
        lemma_sieve_all(candidates(inputs@));
        assert(out@ =~= candidates(inputs@));
    }
    out
}

/// The generated expressions whose value is `target`, in the order of
/// generation. The others are dropped as they come out of the generator.
pub fn get_tens(inputs: &[i32], target: i32) -> (r: Vec<EvaluatedExpr>)
    ensures
        r@ == sieve(candidates(inputs@), Some(target)),
        all_valid(r@),
        forall|i: int| 0 <= i < r.len() ==> (#[trigger] r@[i]).value == target,
{
    proof {
        lemma_candidates_valid(inputs@);
        lemma_sieve_valid(candidates(inputs@), Some(target));
    }
    let mut out: Vec<EvaluatedExpr> = Vec::new();
    let mut frames: Vec<Vec<EvaluatedExpr>> = Vec::new();
    stream(inputs, &mut frames, Some(target), &mut out);
    proof {
        assert(frame_views(seq![]) =~= seq![]);
        lemma_chain_all_no_frames(candidates(inputs@));
        assert(out@ =~= sieve(candidates(inputs@), Some(target)));
    }
    out
}

/// The nodes that join `l` and `r`, in the order of `combos`.
fn combinations(l: &EvaluatedExpr, r: &EvaluatedExpr) -> (v: Vec<EvaluatedExpr>)
    ensures
        v@ == combos(*l, *r),
{
    let mut v: Vec<EvaluatedExpr> = Vec::new();
    let ops = [
        OperationKind::Add,
        OperationKind::Subtract,
        OperationKind::Multiply,
        OperationKind::Divide,
        OperationKind::Power,
    ];
    let mut i: usize = 0;
    while i < 5
        invariant
            0 <= i <= 5,
            ops@ == seq![
                OperationKind::Add,
                OperationKind::Subtract,
                OperationKind::Multiply,
                OperationKind::Divide,
                OperationKind::Power,
            ],
            v@ == combos_upto(*l, *r, i as int),
        decreases 5 - i,
    {
        let operator = ops[i];
        if let Some(e) = Expression::new_op(l.duplicate(), r.duplicate(), operator) {
            v.push(e);
        }
        match operator {
            // Add and multiply don't depend on the orientation
            OperationKind::Add | OperationKind::Multiply => {},
            _ => {
                if l.value != r.value {
                    if let Some(e) = Expression::new_op(r.duplicate(), l.duplicate(), operator) {
                        v.push(e);
                    }
                }
            },
        }
        i += 1;
    }
    proof {
        reveal_with_fuel(combos_upto, 6);
        assert(combos_upto(*l, *r, 5) =~= combos(*l, *r));
    }
    v
}

/// The nodes of `combos` for the first `i` operators.
spec fn combos_upto(l: EvaluatedExpr, r: EvaluatedExpr, i: int) -> Seq<EvaluatedExpr>
    decreases i,
{
    if i <= 0 {
        seq![]
    } else {
        let k = operator_at(i - 1);
        combos_upto(l, r, i - 1) + opt(construct(l, r, k)) + if k == OperationKind::Add || k
            == OperationKind::Multiply {
            seq![]
        } else {
            flipped(l, r, k)
        }
    }
}

spec fn operator_at(i: int) -> OperationKind {
    if i == 0 {
        OperationKind::Add
    } else if i == 1 {
        OperationKind::Subtract
    } else if i == 2 {
        OperationKind::Multiply
    } else if i == 3 {
        OperationKind::Divide
    } else {
        OperationKind::Power
    }
}

} // verus!
