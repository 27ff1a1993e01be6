//! Plain descriptions of syntax, in which the laws of the passes are stated.
//!
//! The passes do not use them: a law says what a pass does in words of its own.

use vstd::prelude::*;

use crate::model::{ExprKindV, ExprV, LiteralV, StmtKindV, StmtV};

verus! {

/// Whether an expression is a plain reference to a name.
pub open spec fn refers(e: ExprV, name: Seq<char>) -> bool {
    e.kind == ExprKindV::Variable(name)
}

/// Whether an expression is a string literal.
pub open spec fn says(e: ExprV, text: Seq<char>) -> bool {
    e.kind == ExprKindV::Literal(LiteralV::String(text))
}

/// Whether an expression is a call of the function `f` with just these
/// arguments, all by position.
pub open spec fn invokes(e: ExprV, f: Seq<char>, args: Seq<ExprV>) -> bool {
    e.kind matches ExprKindV::Call(c) && refers(*c.callee, f) && c.positional_args == args
        && c.named_args.len() == 0 && c.type_args.len() == 0
}

/// Whether a statement is a call of the function `f`.
pub open spec fn marks(s: StmtV, f: Seq<char>) -> bool {
    s.kind matches StmtKindV::Expression(e) && e.kind matches ExprKindV::Call(c) && refers(
        *c.callee,
        f,
    )
}

/// The arguments of a statement that is a call.
pub open spec fn marker_args(s: StmtV) -> Seq<ExprV> {
    match s.kind {
        StmtKindV::Expression(e) => match e.kind {
            ExprKindV::Call(c) => c.positional_args,
            _ => seq![],
        },
        _ => seq![],
    }
}

/// Whether some positions are those, in order, below `n` that are to be kept.
pub open spec fn selects(at: Seq<int>, n: int, keep: spec_fn(int) -> bool) -> bool {
    &&& forall|i: int, j: int| 0 <= i < j < at.len() ==> #[trigger] at[i] < #[trigger] at[j]
    &&& forall|i: int| 0 <= i < at.len() ==> 0 <= #[trigger] at[i] < n && keep(at[i])
    &&& forall|k: int| 0 <= k < n && keep(k) ==> #[trigger] at.contains(k)
}

/// Whether `out` is what a list holds at the positions to be kept, in order.
pub open spec fn is_selection<A>(out: Seq<A>, s: Seq<A>, keep: spec_fn(int) -> bool) -> bool {
    exists|at: Seq<int>| #[trigger] selects(at, s.len() as int, keep) && out == taken_at(s, at)
}

/// What a list holds at some positions.
pub open spec fn taken_at<A>(s: Seq<A>, at: Seq<int>) -> Seq<A> {
    Seq::new(at.len(), |i: int| s[at[i]])
}

/// The positions below `n` that are to be kept.
pub open spec fn kept_below(n: nat, keep: spec_fn(int) -> bool) -> Seq<int>
    decreases n,
{
    if n == 0 {
        seq![]
    } else {
        let front = kept_below((n - 1) as nat, keep);
        if keep(n - 1) {
            front.push(n - 1)
        } else {
            front
        }
    }
}

/// The positions to be kept can be listed.
pub proof fn kept_below_selects(n: nat, keep: spec_fn(int) -> bool)
    ensures
        selects(kept_below(n, keep), n as int, keep),
    decreases n,
{
    if n > 0 {
        let m = (n - 1) as nat;
        kept_below_selects(m, keep);
        let front = kept_below(m, keep);
        let at = kept_below(n, keep);
        assert forall|k: int| 0 <= k < n && keep(k) implies #[trigger] at.contains(k) by {
            if k < m {
                assert(front.contains(k));
                let i = choose|i: int| 0 <= i < front.len() && front[i] == k;
                assert(at[i] == k);
            } else {
                assert(at[front.len() as int] == k);
            }
        }
        assert forall|i: int| 0 <= i < at.len() implies 0 <= #[trigger] at[i] < n && keep(
            at[i],
        ) by {
            if i < front.len() {
                assert(at[i] == front[i]);
            }
        }
        assert forall|i: int, j: int| 0 <= i < j < at.len() implies #[trigger] at[i]
            < #[trigger] at[j] by {
            assert(at[i] == front[i]);
            if j < front.len() {
                assert(at[j] == front[j]);
            }
        }
    }
}

/// Positions that are selected by one condition are selected by an equal one.
pub proof fn same_selection(
    at: Seq<int>,
    n: int,
    a: spec_fn(int) -> bool,
    b: spec_fn(int) -> bool,
)
    requires
        selects(at, n, a),
        forall|k: int| 0 <= k < n ==> #[trigger] a(k) == b(k),
    ensures
        selects(at, n, b),
{
    assert forall|k: int| 0 <= k < n && b(k) implies #[trigger] at.contains(k) by {
        assert(a(k));
    }
    assert forall|i: int| 0 <= i < at.len() implies 0 <= #[trigger] at[i] < n && b(at[i]) by {
        assert(a(at[i]));
    }
}

/// A position that is no longer to be kept can be dropped.
pub proof fn drop_selected(
    at: Seq<int>,
    n: int,
    a: spec_fn(int) -> bool,
    b: spec_fn(int) -> bool,
    q: int,
)
    requires
        selects(at, n, a),
        0 <= q < at.len(),
        forall|k: int| 0 <= k < n ==> (#[trigger] b(k) <==> a(k) && k != at[q]),
    ensures
        selects(at.remove(q), n, b),
{
    let left = at.remove(q);
    assert forall|i: int| 0 <= i < left.len() implies (#[trigger] left[i]) == at[if i < q {
        i
    } else {
        i + 1
    }] by {}
    assert forall|k: int| 0 <= k < n && b(k) implies #[trigger] left.contains(k) by {
        assert(a(k));
        assert(at.contains(k));
        let j = choose|j: int| 0 <= j < at.len() && at[j] == k;
        if j < q {
            assert(left[j] == k);
        } else {
            assert(left[j - 1] == k);
        }
    }
    assert forall|i: int| 0 <= i < left.len() implies 0 <= #[trigger] left[i] < n && b(
        left[i],
    ) by {
        let j: int = if i < q {
            i
        } else {
            i + 1
        };
        assert(left[i] == at[j]);
        assert(a(at[j]));
        assert(at[j] != at[q]);
    }
}

/// Keeping the same positions gives the same list.
pub proof fn same_kept(n: nat, a: spec_fn(int) -> bool, b: spec_fn(int) -> bool)
    requires
        forall|k: int| 0 <= k < n ==> #[trigger] a(k) == b(k),
    ensures
        kept_below(n, a) == kept_below(n, b),
    decreases n,
{
    if n > 0 {
        same_kept((n - 1) as nat, a, b);
        assert(a(n - 1) == b(n - 1));
    }
}

/// What a filter keeps is a selection.
pub proof fn filter_is_selection<A>(s: Seq<A>, f: spec_fn(A) -> bool)
    ensures
        is_selection(s.filter(f), s, |k: int| f(s[k])),
{
    let keep = |k: int| f(s[k]);
    kept_below_selects(s.len(), keep);
    filter_takes(s, f, keep);
}

proof fn filter_takes<A>(s: Seq<A>, f: spec_fn(A) -> bool, keep: spec_fn(int) -> bool)
    requires
        forall|k: int| 0 <= k < s.len() ==> #[trigger] keep(k) == f(s[k]),
    ensures
        s.filter(f) == taken_at(s, kept_below(s.len(), keep)),
    decreases s.len(),
{
    reveal(Seq::filter);
    if s.len() > 0 {
        let front = s.drop_last();
        let m = front.len();
        assert forall|k: int| 0 <= k < m implies #[trigger] keep(k) == f(front[k]) by {
            assert(front[k] == s[k]);
        }
        filter_takes(front, f, keep);
        kept_below_selects(m, keep);
        let at = kept_below(m, keep);
        assert(taken_at(s, at) =~= taken_at(front, at));
        assert(keep(m as int) == f(s[m as int]));
        assert(s.filter(f) =~= taken_at(s, kept_below(s.len(), keep)));
    } else {
        assert(s.filter(f) =~= taken_at(s, kept_below(0, keep)));
    }
}

} // verus!
