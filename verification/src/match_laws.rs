//! What a lowered match runs, by the value of its scrutinee.

use vstd::prelude::*;

use crate::ast::BinaryOp;
use crate::match_blocks::{
    arm_of, chain, end_from, first_lowered, lowered, match_end, match_rule, match_stmts,
    pattern_arms, rest_is_lighter, wildcard_body, ArmV,
};
use crate::model::{BlockV, ExprKindV, ExprV, StmtKindV, StmtV};
use crate::plain::{kept_below, kept_below_selects, marker_args, marks, says};

verus! {

/// Whether a statement is the arm for the pattern `v`: a block that starts
/// with `__match_arm__("v")`.
pub open spec fn arm_for(s: StmtV, v: Seq<char>) -> bool {
    s.kind matches StmtKindV::Block(b) && b.statements.len() > 0 && marks(
        b.statements[0],
        "__match_arm__"@,
    ) && marker_args(b.statements[0]).len() > 0 && says(marker_args(b.statements[0])[0], v)
}

/// Whether a statement is an arm for a string.
pub open spec fn string_arm(s: StmtV) -> bool {
    exists|v: Seq<char>| #[trigger] arm_for(s, v) && v != "__wildcard__"@
}

/// What an arm holds after its marker.
pub open spec fn arm_body(s: StmtV) -> Seq<StmtV> {
    s.kind->Block_0.statements.skip(1)
}

/// Whether a list starts with a match on `x` that ends at `end`.
pub open spec fn spans(s: Seq<StmtV>, x: ExprV, end: int) -> bool {
    &&& 0 < end < s.len()
    &&& marks(s[0], "__match_begin__"@)
    &&& marker_args(s[0]).len() > 0
    &&& marker_args(s[0])[0] == x
    &&& marks(s[end], "__match_end__"@)
    &&& forall|k: int| 0 < k < end ==> !marks(#[trigger] s[k], "__match_end__"@)
}

/// Whether statements, where `x` has the value `v`, make `n` comparisons and
/// then run just `body`. A comparison is an `if x == "p"`: it goes on with the
/// one branch or the other as `p` is `v` or not.
pub open spec fn runs(
    s: Seq<StmtV>,
    x: ExprV,
    v: Seq<char>,
    n: nat,
    body: Seq<StmtV>,
) -> bool
    decreases n,
{
    if n == 0 {
        s == body
    } else {
        s.len() == 1 && match s[0].kind {
            StmtKindV::If { condition, then_block, else_block, .. } => match condition.kind {
                ExprKindV::Binary { op: BinaryOp::Eq, left, right } => *left == x && {
                    if says(*right, v) {
                        n == 1 && then_block.statements == body
                    } else {
                        (exists|p: Seq<char>| says(*right, p)) && match else_block {
                            Some(e) => runs(e.statements, x, v, (n - 1) as nat, body),
                            None => n == 1 && body.len() == 0,
                        }
                    }
                },
                _ => false,
            },
            _ => false,
        }
    }
}

// ---------------------------------------------------------------------------
// The arms of a match
// ---------------------------------------------------------------------------

proof fn arm_is(s: StmtV)
    ensures
        forall|v: Seq<char>| #[trigger]
            arm_for(s, v) <==> arm_of(s) is Some && arm_of(s)->0.pattern == v,
        arm_of(s) is Some ==> arm_of(s)->0.body.statements == arm_body(s),
        string_arm(s) <==> arm_of(s) is Some && arm_of(s)->0.pattern != "__wildcard__"@,
{
    if arm_of(s) is Some {
        assert(arm_for(s, arm_of(s)->0.pattern));
    }
}

proof fn arms_at(s: Seq<StmtV>, n: nat)
    requires
        n <= s.len(),
    ensures
        ({
            let at = kept_below(n, |k: int| string_arm(s[k]));
            let arms = pattern_arms(s.take(n as int));
            arms.len() == at.len() && forall|i: int|
                0 <= i < arms.len() ==> arm_of(s[at[i]]) == Some(#[trigger] arms[i])
        }),
    decreases n,
{
    if n > 0 {
        let m = (n - 1) as nat;
        arms_at(s, m);
        arm_is(s[m as int]);
        assert(s.take(n as int).drop_last() =~= s.take(m as int));
        assert(s.take(n as int).last() == s[m as int]);
    }
}

/// The first arm for a string is the first of its pattern in the list of arms.
proof fn first_in_arms(s: Seq<StmtV>, k: int, v: Seq<char>) -> (m: int)
    requires
        0 <= k < s.len(),
        arm_for(s[k], v),
        v != "__wildcard__"@,
        forall|j: int| 0 <= j < k ==> !arm_for(#[trigger] s[j], v),
    ensures
        0 <= m < pattern_arms(s).len(),
        pattern_arms(s)[m].pattern == v,
        pattern_arms(s)[m].body.statements == arm_body(s[k]),
        forall|j: int| 0 <= j < m ==> (#[trigger] pattern_arms(s)[j]).pattern != v,
{
    let keep = |j: int| string_arm(s[j]);
    let at = kept_below(s.len(), keep);
    kept_below_selects(s.len(), keep);
    arms_at(s, s.len());
    assert(s.take(s.len() as int) =~= s);
    arm_is(s[k]);
    assert(keep(k));
    assert(at.contains(k));
    let m = choose|m: int| 0 <= m < at.len() && at[m] == k;
    let arms = pattern_arms(s);
    assert(arm_of(s[at[m]]) == Some(arms[m]));
    assert forall|j: int| 0 <= j < m implies (#[trigger] arms[j]).pattern != v by {
        assert(arm_of(s[at[j]]) == Some(arms[j]));
        assert(at[j] < at[m]);
        arm_is(s[at[j]]);
        assert(!arm_for(s[at[j]], v));
    }
    m
}

proof fn no_arm_in_arms(s: Seq<StmtV>, v: Seq<char>)
    requires
        forall|j: int| 0 <= j < s.len() ==> !arm_for(#[trigger] s[j], v),
    ensures
        forall|j: int| 0 <= j < pattern_arms(s).len() ==> (#[trigger] pattern_arms(s)[j]).pattern
            != v,
{
    let keep = |j: int| string_arm(s[j]);
    let at = kept_below(s.len(), keep);
    kept_below_selects(s.len(), keep);
    arms_at(s, s.len());
    assert(s.take(s.len() as int) =~= s);
    let arms = pattern_arms(s);
    assert forall|j: int| 0 <= j < arms.len() implies (#[trigger] arms[j]).pattern != v by {
        assert(arm_of(s[at[j]]) == Some(arms[j]));
        arm_is(s[at[j]]);
        assert(!arm_for(s[at[j]], v));
    }
}

proof fn some_arm(s: Seq<StmtV>)
    ensures
        pattern_arms(s).len() > 0 <==> exists|j: int|
            0 <= j < s.len() && string_arm(#[trigger] s[j]),
{
    let keep = |j: int| string_arm(s[j]);
    let at = kept_below(s.len(), keep);
    kept_below_selects(s.len(), keep);
    arms_at(s, s.len());
    assert(s.take(s.len() as int) =~= s);
    if exists|j: int| 0 <= j < s.len() && string_arm(#[trigger] s[j]) {
        let j = choose|j: int| 0 <= j < s.len() && string_arm(#[trigger] s[j]);
        assert(keep(j));
        assert(at.contains(j));
    }
    if at.len() > 0 {
        assert(keep(at[0]));
        assert(string_arm(s[at[0]]));
    }
}

proof fn wildcard_is_first(s: Seq<StmtV>, n: nat)
    requires
        n <= s.len(),
    ensures
        match wildcard_body(s.take(n as int)) {
            Some(b) => exists|w: int|
                0 <= w < n && arm_for(#[trigger] s[w], "__wildcard__"@) && b.statements == arm_body(
                    s[w],
                ) && (forall|j: int|
                    0 <= j < w ==> !arm_for(#[trigger] s[j], "__wildcard__"@)),
            None => forall|j: int| 0 <= j < n ==> !arm_for(#[trigger] s[j], "__wildcard__"@),
        },
    decreases n,
{
    if n > 0 {
        let m = (n - 1) as nat;
        wildcard_is_first(s, m);
        arm_is(s[m as int]);
        assert(s.take(n as int).drop_last() =~= s.take(m as int));
        assert(s.take(n as int).last() == s[m as int]);
    }
}

// ---------------------------------------------------------------------------
// The chain of a match
// ---------------------------------------------------------------------------

proof fn chain_runs_arm(
    x: ExprV,
    arms: Seq<ArmV>,
    otherwise: Option<BlockV>,
    v: Seq<char>,
    m: int,
)
    requires
        0 <= m < arms.len(),
        arms[m].pattern == v,
        forall|j: int| 0 <= j < m ==> (#[trigger] arms[j]).pattern != v,
    ensures
        chain(x, arms, otherwise) is Some,
        runs(
            chain(x, arms, otherwise)->0.statements,
            x,
            v,
            (m + 1) as nat,
            arms[m].body.statements,
        ),
    decreases m,
{
    let c = chain(x, arms, otherwise)->0;
    assert(c.statements.len() == 1);
    if m > 0 {
        let rest = arms.skip(1);
        assert forall|j: int| 0 <= j < m - 1 implies (#[trigger] rest[j]).pattern != v by {
            assert(rest[j] == arms[j + 1]);
        }
        chain_runs_arm(x, rest, otherwise, v, m - 1);
        match c.statements[0].kind {
            StmtKindV::If { condition, .. } => match condition.kind {
                ExprKindV::Binary { right, .. } => {
                    assert(says(*right, arms[0].pattern));
                },
                _ => {},
            },
            _ => {},
        }
    }
}

proof fn chain_runs_otherwise(x: ExprV, arms: Seq<ArmV>, otherwise: Option<BlockV>, v: Seq<char>)
    requires
        arms.len() > 0,
        forall|j: int| 0 <= j < arms.len() ==> (#[trigger] arms[j]).pattern != v,
    ensures
        chain(x, arms, otherwise) is Some,
        runs(
            chain(x, arms, otherwise)->0.statements,
            x,
            v,
            arms.len(),
            match otherwise {
                Some(b) => b.statements,
                None => seq![],
            },
        ),
    decreases arms.len(),
{
    let c = chain(x, arms, otherwise)->0;
    assert(c.statements.len() == 1);
    let rest = arms.skip(1);
    match c.statements[0].kind {
        StmtKindV::If { condition, .. } => match condition.kind {
            ExprKindV::Binary { right, .. } => {
                assert(arms[0].pattern != v);
                assert(says(*right, arms[0].pattern));
            },
            _ => {},
        },
        _ => {},
    }
    if rest.len() > 0 {
        assert forall|j: int| 0 <= j < rest.len() implies (#[trigger] rest[j]).pattern != v by {
            assert(rest[j] == arms[j + 1]);
        }
        chain_runs_otherwise(x, rest, otherwise, v);
    } else {
        assert(chain(x, rest, otherwise) == otherwise);
        match otherwise {
            Some(b) => {
                assert(runs(b.statements, x, v, 0, b.statements));
            },
            None => {},
        }
    }
}

proof fn end_found(s: Seq<StmtV>, from: int, end: int)
    requires
        0 < from <= end < s.len(),
        marks(s[end], "__match_end__"@),
        forall|k: int| 0 < k < end ==> !marks(#[trigger] s[k], "__match_end__"@),
    ensures
        end_from(s, from) == Some(end),
    decreases end - from,
{
    if from < end {
        assert(!marks(s[from], "__match_end__"@));
        end_found(s, from + 1, end);
    }
}

/// A match with an arm for a string is lowered on its own.
proof fn match_is_first(s: Seq<StmtV>, x: ExprV, end: int)
    requires
        spans(s, x, end),
    ensures
        ({
            let inner = s.subrange(1, end);
            let block = match_rule().block;
            &&& match chain(x, pattern_arms(inner), wildcard_body(inner)) {
                Some(b) => block(s) == block(b.statements + s.skip(end + 1))
                    && match_stmts(s, end) == b.statements,
                None => block(s) == block(s.skip(end + 1)),
            }
            &&& pattern_arms(inner).len() > 0 ==> block(s) == match_stmts(s, end) + block(
                s.skip(end + 1),
            )
        }),
{
    end_found(s, 1, end);
    rest_is_lighter(s);
    let inner = s.subrange(1, end);
    let out = match_stmts(s, end);
    let tail = s.skip(end + 1);
    assert(match_end(s) == Some(end));
    assert(Seq::<StmtV>::empty() + tail =~= tail);
    if pattern_arms(inner).len() > 0 {
        let now = first_lowered(s);
        rest_is_lighter(now);
        assert(out.len() == 1);
        assert(now[0] == out[0]);
        assert(!(out[0].kind is Expression));
        assert(match_end(now) is None);
        assert(now.skip(1) =~= tail);
        assert(lowered(now) == seq![now[0]] + lowered(tail));
        assert(seq![now[0]] =~= out);
    }
}

// ---------------------------------------------------------------------------
// Laws
// ---------------------------------------------------------------------------

/// A match runs the body of the first arm for the value of its scrutinee, and
/// what follows the match is lowered on its own.
pub proof fn match_runs_first_arm(s: Seq<StmtV>, x: ExprV, end: int, k: int, v: Seq<char>) -> (r: (
    Seq<StmtV>,
    nat,
))
    requires
        spans(s, x, end),
        0 < k < end,
        arm_for(s[k], v),
        v != "__wildcard__"@,
        forall|j: int| 0 < j < k ==> !arm_for(#[trigger] s[j], v),
    ensures
        (match_rule().block)(s) == r.0 + (match_rule().block)(s.skip(end + 1)),
        r.1 > 0,
        runs(r.0, x, v, r.1, arm_body(s[k])),
{
    let inner = s.subrange(1, end);
    assert(inner[k - 1] == s[k]);
    assert forall|j: int| 0 <= j < k - 1 implies !arm_for(#[trigger] inner[j], v) by {
        assert(inner[j] == s[j + 1]);
    }
    let m = first_in_arms(inner, k - 1, v);
    match_is_first(s, x, end);
    chain_runs_arm(x, pattern_arms(inner), wildcard_body(inner), v, m);
    (match_stmts(s, end), (m + 1) as nat)
}

/// Where no arm is for the value of the scrutinee, a match with an arm for
/// some string runs the body of the first wildcard arm, or nothing without one.
pub proof fn match_runs_wildcard(s: Seq<StmtV>, x: ExprV, end: int, k: int, v: Seq<char>) -> (r: (
    Seq<StmtV>,
    nat,
))
    requires
        spans(s, x, end),
        0 < k < end,
        string_arm(s[k]),
        forall|j: int| 0 < j < end ==> !arm_for(#[trigger] s[j], v),
    ensures
        (match_rule().block)(s) == r.0 + (match_rule().block)(s.skip(end + 1)),
        r.1 > 0,
        forall|w: int|
            0 < w < end && arm_for(#[trigger] s[w], "__wildcard__"@) && (forall|j: int|
                0 < j < w ==> !arm_for(#[trigger] s[j], "__wildcard__"@)) ==> runs(
                r.0,
                x,
                v,
                r.1,
                arm_body(s[w]),
            ),
        (forall|w: int| 0 < w < end ==> !arm_for(#[trigger] s[w], "__wildcard__"@)) ==> runs(
            r.0,
            x,
            v,
            r.1,
            seq![],
        ),
{
    let inner = s.subrange(1, end);
    assert(inner[k - 1] == s[k]);
    assert forall|j: int| 0 <= j < inner.len() implies !arm_for(#[trigger] inner[j], v) by {
        assert(inner[j] == s[j + 1]);
    }
    some_arm(inner);
    no_arm_in_arms(inner, v);
    match_is_first(s, x, end);
    chain_runs_otherwise(x, pattern_arms(inner), wildcard_body(inner), v);
    wildcard_of_span(s, x, end);
    (match_stmts(s, end), pattern_arms(inner).len())
}

proof fn wildcard_of_span(s: Seq<StmtV>, x: ExprV, end: int)
    requires
        spans(s, x, end),
    ensures
        forall|w: int|
            0 < w < end && arm_for(#[trigger] s[w], "__wildcard__"@) && (forall|j: int|
                0 < j < w ==> !arm_for(#[trigger] s[j], "__wildcard__"@)) ==> {
                &&& wildcard_body(s.subrange(1, end)) is Some
                &&& wildcard_body(s.subrange(1, end))->0.statements == arm_body(s[w])
            },
        (forall|w: int| 0 < w < end ==> !arm_for(#[trigger] s[w], "__wildcard__"@))
            ==> wildcard_body(s.subrange(1, end)) is None,
{
    let inner = s.subrange(1, end);
    let name = "__wildcard__"@;
    wildcard_is_first(inner, inner.len());
    assert(inner.take(inner.len() as int) =~= inner);
    assert forall|w: int|
        0 < w < end && arm_for(#[trigger] s[w], name) && (forall|j: int|
            0 < j < w ==> !arm_for(#[trigger] s[j], name)) implies wildcard_body(inner) is Some
        && wildcard_body(inner)->0.statements == arm_body(s[w]) by {
        assert(inner[w - 1] == s[w]);
        assert(arm_for(inner[w - 1], name));
        let u = choose|u: int|
            0 <= u < inner.len() && arm_for(#[trigger] inner[u], name)
                && wildcard_body(inner)->0.statements == arm_body(inner[u]) && (forall|j: int|
                0 <= j < u ==> !arm_for(#[trigger] inner[j], name));
        assert(inner[u] == s[u + 1]);
        assert(u == w - 1);
    }
    if forall|w: int| 0 < w < end ==> !arm_for(#[trigger] s[w], name) {
        if wildcard_body(inner) is Some {
            let u = choose|u: int|
                0 <= u < inner.len() && arm_for(#[trigger] inner[u], name)
                    && wildcard_body(inner)->0.statements == arm_body(inner[u]) && (forall|j: int|
                    0 <= j < u ==> !arm_for(#[trigger] inner[j], name));
            assert(inner[u] == s[u + 1]);
        }
    }
}

/// A match without an arm for a string is replaced by the body of its first
/// wildcard arm, or by nothing without one.
pub proof fn match_without_strings(s: Seq<StmtV>, x: ExprV, end: int)
    requires
        spans(s, x, end),
        forall|j: int| 0 < j < end ==> !string_arm(#[trigger] s[j]),
    ensures
        forall|w: int|
            0 < w < end && arm_for(#[trigger] s[w], "__wildcard__"@) && (forall|j: int|
                0 < j < w ==> !arm_for(#[trigger] s[j], "__wildcard__"@)) ==> (match_rule().block)(
                s,
            ) == (match_rule().block)(arm_body(s[w]) + s.skip(end + 1)),
        (forall|w: int| 0 < w < end ==> !arm_for(#[trigger] s[w], "__wildcard__"@)) ==> (
        match_rule().block)(s) == (match_rule().block)(s.skip(end + 1)),
{
    let inner = s.subrange(1, end);
    assert forall|j: int| 0 <= j < inner.len() implies !string_arm(#[trigger] inner[j]) by {
        assert(inner[j] == s[j + 1]);
    }
    some_arm(inner);
    match_is_first(s, x, end);
    wildcard_of_span(s, x, end);
}

/// A statement that begins no match with an end stays where it is.
pub proof fn other_statements_stay(s: Seq<StmtV>)
    requires
        s.len() > 0,
        forall|x: ExprV, end: int| !(#[trigger] spans(s, x, end)),
    ensures
        (match_rule().block)(s) == seq![s[0]] + (match_rule().block)(s.skip(1)),
{
    if match_end(s) is Some {
        let end = match_end(s)->0;
        first_end(s, 1);
        assert(spans(s, marker_args(s[0])[0], end));
    }
}

proof fn first_end(s: Seq<StmtV>, from: int)
    requires
        0 < from,
        end_from(s, from) is Some,
    ensures
        from <= end_from(s, from)->0 < s.len(),
        marks(s[end_from(s, from)->0], "__match_end__"@),
        forall|k: int|
            from <= k < end_from(s, from)->0 ==> !marks(#[trigger] s[k], "__match_end__"@),
    decreases s.len() - from,
{
    if !marks(s[from], "__match_end__"@) {
        first_end(s, from + 1);
    }
}

} // verus!
