//! The shape of optimized trees, and the trees that the optimizer leaves
//! alone.

use vstd::prelude::*;

use crate::rewrite::{
    absorbed, emitted, flattened, folded, nonzero, optimized, optimized_twice, recognized, weight,
};
use crate::tree::{
    lemma_size_positive, lemma_total_size_append, lemma_total_size_bounds, lemma_total_size_single, size, total_size,
    Tree,
};

verus! {

/// Whether `t` has the shape that every optimized tree has: no move or
/// delta of zero, and no list that is empty, holds a single child or holds
/// another list.
pub open spec fn tidy(t: Tree) -> bool
    decreases t,
{
    match t {
        Tree::List(ts) => ts.len() >= 2 && tidy_seq(ts),
        Tree::Jump(b) => tidy(*b),
        _ => nonzero(t) is Some,
    }
}

/// Whether every tree of `ts` is tidy and none of them is a list.
pub open spec fn tidy_seq(ts: Seq<Tree>) -> bool
    decreases ts,
{
    ts.len() == 0 || {
        &&& tidy(ts.first())
        &&& !(ts.first() is List)
        &&& tidy_seq(ts.drop_first())
    }
}

/// Whether the optimizer has nothing left to do on `t`: `t` is tidy, no two
/// neighbours in a list can be folded, and no loop is a known idiom.
pub open spec fn normal(t: Tree) -> bool
    decreases t,
{
    match t {
        Tree::List(ts) => ts.len() >= 2 && normal_seq(ts),
        Tree::Jump(b) => normal(*b) && recognized(*b) == t,
        _ => nonzero(t) is Some,
    }
}

/// Whether every tree of `ts` is normal, none of them is a list, and none
/// absorbs the one behind it.
pub open spec fn normal_seq(ts: Seq<Tree>) -> bool
    decreases ts,
{
    ts.len() == 0 || {
        &&& normal(ts.first())
        &&& !(ts.first() is List)
        &&& ts.len() >= 2 ==> absorbed(ts[0], ts[1]) is None
        &&& normal_seq(ts.drop_first())
    }
}

/// A sequence of tidy trees, none of them a list, is tidy.
pub proof fn lemma_tidy_seq_by_index(ts: Seq<Tree>)
    requires
        forall|i: int| 0 <= i < ts.len() ==> tidy(#[trigger] ts[i]) && !(ts[i] is List),
    ensures
        tidy_seq(ts),
    decreases ts.len(),
{
    if ts.len() > 0 {
        assert forall|i: int| 0 <= i < ts.drop_first().len() implies tidy(
            #[trigger] ts.drop_first()[i],
        ) && !(ts.drop_first()[i] is List) by {}
        lemma_tidy_seq_by_index(ts.drop_first());
    }
}

/// Joining two tidy sequences gives a tidy sequence.
pub proof fn lemma_tidy_seq_append(a: Seq<Tree>, b: Seq<Tree>)
    requires
        tidy_seq(a),
        tidy_seq(b),
    ensures
        tidy_seq(a + b),
    decreases a.len(),
{
    if a.len() > 0 {
        assert((a + b).drop_first() =~= a.drop_first() + b);
        lemma_tidy_seq_append(a.drop_first(), b);
    }
}

/// Splicing in the children of tidy lists leaves only tidy trees, none of
/// them a list.
pub proof fn lemma_flattened_tidy(ts: Seq<Tree>)
    requires
        forall|i: int| 0 <= i < ts.len() ==> tidy(#[trigger] ts[i]),
    ensures
        tidy_seq(flattened(ts)),
    decreases ts.len(),
{
    if ts.len() > 0 {
        let head = match ts.first() {
            Tree::List(v) => v,
            t => seq![t],
        };
        if !(ts.first() is List) {
            lemma_tidy_seq_by_index(head);
        }
        assert forall|i: int| 0 <= i < ts.drop_first().len() implies tidy(
            #[trigger] ts.drop_first()[i],
        ) by {}
        lemma_flattened_tidy(ts.drop_first());
        lemma_tidy_seq_append(head, flattened(ts.drop_first()));
    }
}

/// Every optimized tree is tidy.
pub proof fn lemma_optimized_tidy(t: Tree)
    ensures
        optimized(t) matches Some(better) ==> tidy(better),
    decreases size(t), 0nat, 0nat,
{
    match t {
        Tree::List(ts) => {
            lemma_folded_tidy(None, ts);
            lemma_flattened_tidy(folded(None, ts));
        },
        Tree::Jump(b) => {
            lemma_optimized_tidy(*b);
            if let Some(body) = optimized(*b) {
                lemma_recognized_tidy(body);
            }
        },
        _ => {},
    }
}

/// The tree that stands for a loop around a tidy body is tidy.
pub proof fn lemma_recognized_tidy(body: Tree)
    requires
        tidy(body),
    ensures
        tidy(recognized(body)),
{
    if let Tree::List(out) = recognized(body) {
        if Tree::List(out) != body {
            lemma_tidy_seq_by_index(out);
        }
    }
}

/// Every tree that the folding pass gives out is tidy.
pub proof fn lemma_folded_tidy(held: Option<Tree>, rest: Seq<Tree>)
    ensures
        forall|i: int|
            0 <= i < folded(held, rest).len() ==> tidy(#[trigger] folded(held, rest)[i]),
    decreases weight(held) + total_size(rest), 1nat, rest.len(),
{
    let out = folded(held, rest);
    if rest.len() == 0 {
        if let Some(h) = held {
            lemma_optimized_tidy(h);
            assert forall|i: int| 0 <= i < out.len() implies tidy(#[trigger] out[i]) by {}
        }
    } else {
        let next = rest.first();
        let tail = rest.drop_first();
        match held {
            None => {
                lemma_folded_tidy(Some(next), tail);
                assert(out == folded(Some(next), tail));
            },
            Some(h) => {
                match absorbed(h, next) {
                    Some(pending) => {
                        lemma_folded_tidy(pending, tail);
                        assert(out == folded(pending, tail));
                    },
                    None => {
                        lemma_optimized_tidy(h);
                        lemma_folded_tidy(Some(next), tail);
                        let front = emitted(optimized(h));
                        let back = folded(Some(next), tail);
                        assert forall|i: int| 0 <= i < out.len() implies tidy(
                            #[trigger] out[i],
                        ) by {
                            if i >= front.len() {
                                assert(out[i] == back[i - front.len()]);
                            }
                        }
                    },
                }
            },
        }
    }
}

/// A sequence without lists is its own flattening.
pub proof fn lemma_flattened_normal(ts: Seq<Tree>)
    requires
        normal_seq(ts),
    ensures
        flattened(ts) == ts,
    decreases ts.len(),
{
    if ts.len() > 0 {
        lemma_flattened_normal(ts.drop_first());
    }
}

/// The optimizer leaves a normal tree as it is.
pub proof fn lemma_normal_fixed(t: Tree)
    requires
        normal(t),
    ensures
        optimized(t) == Some(t),
    decreases size(t), 0nat, 0nat,
{
    match t {
        Tree::List(ts) => {
            assert(seq![ts.first()] + ts.drop_first() =~= ts);
            assert(total_size(ts) == size(ts.first()) + total_size(ts.drop_first()));
            lemma_normal_folded(ts.first(), ts.drop_first());
            assert(folded(None, ts) == ts);
            lemma_flattened_normal(ts);
        },
        Tree::Jump(b) => {
            lemma_normal_fixed(*b);
        },
        _ => {},
    }
}

/// The folding pass gives out a normal sequence as it is.
pub proof fn lemma_normal_folded(held: Tree, rest: Seq<Tree>)
    requires
        normal_seq(seq![held] + rest),
    ensures
        folded(Some(held), rest) == seq![held] + rest,
    decreases size(held) + total_size(rest), 1nat, rest.len(),
{
    let whole = seq![held] + rest;
    assert(whole.drop_first() =~= rest);
    lemma_normal_fixed(held);
    if rest.len() > 0 {
        assert(seq![rest.first()] + rest.drop_first() =~= rest);
        lemma_normal_folded(rest.first(), rest.drop_first());
    }
}

/// Flattening two sequences joined joins their flattenings.
pub proof fn lemma_flattened_append(a: Seq<Tree>, b: Seq<Tree>)
    ensures
        flattened(a + b) == flattened(a) + flattened(b),
    decreases a.len(),
{
    if a.len() > 0 {
        let head = match a.first() {
            Tree::List(v) => v,
            t => seq![t],
        };
        assert((a + b).drop_first() =~= a.drop_first() + b);
        lemma_flattened_append(a.drop_first(), b);
        assert(head + (flattened(a.drop_first()) + flattened(b)) =~= (head + flattened(
            a.drop_first(),
        )) + flattened(b));
    }
}

/// Flattening adds no node.
pub proof fn lemma_flattened_size(ts: Seq<Tree>)
    ensures
        total_size(flattened(ts)) <= total_size(ts),
    decreases ts.len(),
{
    if ts.len() > 0 {
        let head = match ts.first() {
            Tree::List(v) => v,
            t => seq![t],
        };
        match ts.first() {
            Tree::List(v) => {
                assert(size(ts.first()) == 1 + total_size(v));
            },
            t => {
                lemma_total_size_single(t);
            },
        }
        lemma_flattened_size(ts.drop_first());
        lemma_total_size_append(head, flattened(ts.drop_first()));
    }
}

/// The flattening of one tree that is as large as the tree is the tree
/// itself, and the tree is no list.
pub proof fn lemma_flattened_single(t: Tree)
    ensures
        total_size(flattened(seq![t])) <= size(t),
        total_size(flattened(seq![t])) >= size(t) ==> !(t is List) && flattened(seq![t]) == seq![
            t,
        ],
{
    let ts = seq![t];
    let head = match t {
        Tree::List(v) => v,
        t => seq![t],
    };
    assert(flattened(ts.drop_first()) =~= Seq::<Tree>::empty());
    lemma_total_size_single(t);
}

/// What is held back after a node was absorbed is no larger than what was
/// held back before.
pub proof fn lemma_absorbed_weight(held: Tree, next: Tree)
    requires
        absorbed(held, next) is Some,
    ensures
        weight(absorbed(held, next)->0) <= size(held),
{
}

/// The tree that stands for a loop is no larger than the loop, and as
/// large only where it is the loop itself.
pub proof fn lemma_recognized_size(body: Tree)
    ensures
        size(recognized(body)) <= 1 + size(body),
        size(recognized(body)) == 1 + size(body) ==> recognized(body) == Tree::Jump(
            Box::new(body),
        ),
{
    if let Tree::List(v) = body {
        lemma_total_size_bounds(v);
        match recognized(body) {
            Tree::List(out) => {
                lemma_total_size_bounds(out);
            },
            _ => {},
        }
    }
}

/// The optimizer adds no node.
pub proof fn lemma_optimized_size(t: Tree)
    ensures
        optimized(t) matches Some(better) ==> size(better) <= size(t),
    decreases size(t), 0nat, 0nat,
{
    match t {
        Tree::List(ts) => {
            lemma_folded_size(None, ts);
            lemma_flattened_size(folded(None, ts));
            let out = flattened(folded(None, ts));
            if out.len() == 1 {
                lemma_total_size_single(out[0]);
            }
        },
        Tree::Jump(b) => {
            lemma_optimized_size(*b);
            if let Some(body) = optimized(*b) {
                lemma_recognized_size(body);
            }
        },
        _ => {},
    }
}

/// The folding pass adds no node.
pub proof fn lemma_folded_size(held: Option<Tree>, rest: Seq<Tree>)
    ensures
        total_size(folded(held, rest)) <= weight(held) + total_size(rest),
    decreases weight(held) + total_size(rest), 1nat, rest.len(),
{
    if rest.len() == 0 {
        if let Some(h) = held {
            lemma_optimized_size(h);
            if let Some(better) = optimized(h) {
                lemma_total_size_single(better);
            }
        }
    } else {
        let next = rest.first();
        let tail = rest.drop_first();
        match held {
            None => {
                lemma_folded_size(Some(next), tail);
            },
            Some(h) => {
                match absorbed(h, next) {
                    Some(pending) => {
                        lemma_absorbed_weight(h, next);
                        lemma_folded_size(pending, tail);
                    },
                    None => {
                        lemma_optimized_size(h);
                        if let Some(better) = optimized(h) {
                            lemma_total_size_single(better);
                        }
                        lemma_folded_size(Some(next), tail);
                        lemma_total_size_append(
                            emitted(optimized(h)),
                            folded(Some(next), tail),
                        );
                    },
                }
            },
        }
    }
}

/// A tree that the optimizer does not make smaller is left as it is, and
/// is normal.
pub proof fn lemma_same_size_fixed(t: Tree)
    requires
        optimized(t) matches Some(better) && size(better) >= size(t),
    ensures
        optimized(t) == Some(t),
        normal(t),
    decreases size(t), 0nat, 0nat,
{
    match t {
        Tree::List(ts) => {
            let out = flattened(folded(None, ts));
            lemma_folded_size(None, ts);
            lemma_flattened_size(folded(None, ts));
            if out.len() == 1 {
                lemma_total_size_single(out[0]);
            }
            lemma_same_size_folded(None, ts);
            lemma_flattened_normal(ts);
        },
        Tree::Jump(b) => {
            lemma_optimized_size(*b);
            let body = optimized(*b)->0;
            lemma_recognized_size(body);
            lemma_same_size_fixed(*b);
        },
        _ => {},
    }
}

/// Where folding and flattening a sequence makes it no smaller, the
/// folding pass leaves the sequence as it is, and the sequence is normal.
pub proof fn lemma_same_size_folded(held: Option<Tree>, rest: Seq<Tree>)
    requires
        total_size(flattened(folded(held, rest))) >= weight(held) + total_size(rest),
    ensures
        folded(held, rest) == emitted(held) + rest,
        normal_seq(emitted(held) + rest),
    decreases weight(held) + total_size(rest), 1nat, rest.len(),
{
    let whole = emitted(held) + rest;
    if rest.len() == 0 {
        if let Some(h) = held {
            lemma_size_positive(h);
            lemma_optimized_size(h);
            if let Some(better) = optimized(h) {
                lemma_flattened_single(better);
                lemma_same_size_fixed(h);
                assert(normal_seq(whole.drop_first()));
            }
        }
    } else {
        let next = rest.first();
        let tail = rest.drop_first();
        lemma_size_positive(next);
        match held {
            None => {
                assert(whole =~= emitted(Some(next)) + tail);
                lemma_same_size_folded(Some(next), tail);
            },
            Some(h) => {
                lemma_size_positive(h);
                match absorbed(h, next) {
                    Some(pending) => {
                        lemma_absorbed_weight(h, next);
                        lemma_folded_size(pending, tail);
                        lemma_flattened_size(folded(pending, tail));
                    },
                    None => {
                        let front = emitted(optimized(h));
                        let back = folded(Some(next), tail);
                        lemma_flattened_append(front, back);
                        lemma_total_size_append(flattened(front), flattened(back));
                        lemma_optimized_size(h);
                        lemma_folded_size(Some(next), tail);
                        lemma_flattened_size(back);
                        if let Some(better) = optimized(h) {
                            lemma_flattened_single(better);
                            lemma_same_size_fixed(h);
                        }
                        lemma_same_size_folded(Some(next), tail);
                        assert(back == rest);
                        assert(whole.drop_first() =~= rest);
                    },
                }
            },
        }
    }
}

/// The trees that the optimizer leaves as they are, are the normal trees.
pub proof fn lemma_fixed_iff_normal(t: Tree)
    ensures
        optimized(t) == Some(t) <==> normal(t),
{
    if normal(t) {
        lemma_normal_fixed(t);
    }
    if optimized(t) == Some(t) {
        lemma_same_size_fixed(t);
    }
}

/// A third pass of the optimizer changes nothing where two passes left a
/// normal tree, or nothing at all.
pub proof fn lemma_third_pass_changes_nothing(t: Tree)
    requires
        optimized_twice(t) matches Some(twice) ==> normal(twice),
    ensures
        match optimized_twice(t) {
            Some(twice) => optimized(twice) == Some(twice),
            None => true,
        },
{
    if let Some(twice) = optimized_twice(t) {
        lemma_normal_fixed(twice);
    }
}

} // verus!
