//! Lowering of `match` on strings to `if` chains.
//!
//! The grammar emits a match as a run of statements: `__match_begin__(x)`, one
//! block per arm that starts with `__match_arm__("pattern")`, and
//! `__match_end__()`.

use vstd::prelude::*;

use crate::ast::{
    opt_view, stmts_view, BinaryOp, Block, Decl, Expr, ExprKind, PrimitiveType, Program, Stmt,
    StmtKind, Type,
};
use crate::everywhere::{
    any_state, establish_program, establishes, in_block, in_call, in_expr, in_program, in_stmt,
    in_stmts, settled_program, Law,
};
use crate::model::{BlockV, ExprKindV, ExprV, ProgramV, StmtKindV, StmtV};
use crate::shape::{
    calls, get_stmt_call, get_string_arg, is_stmt_call_of, new_string, prim, stmt_call, stmt_calls,
    string_arg, string_expr,
};
use crate::text::same;
use crate::walk::{rewrite_decls, walk_program, Rewriter, Rule};

verus! {

/// An arm: its pattern and its body.
pub struct ArmV {
    pub pattern: Seq<char>,
    pub body: BlockV,
}

/// The arm that a statement is: a block that starts with an arm marker whose
/// pattern is a string literal.
pub open spec fn arm_of(s: StmtV) -> Option<ArmV> {
    match s.kind {
        StmtKindV::Block(b) => if b.statements.len() > 0 && is_stmt_call_of(
            b.statements[0],
            "__match_arm__"@,
        ) {
            match string_arg(stmt_call(b.statements[0])->0, 0) {
                Some(pattern) => Some(
                    ArmV {
                        pattern,
                        body: BlockV { statements: b.statements.skip(1), span: b.span },
                    },
                ),
                None => None,
            }
        } else {
            None
        },
        _ => None,
    }
}

/// The arms with a pattern of their own, in order.
pub open spec fn pattern_arms(s: Seq<StmtV>) -> Seq<ArmV>
    decreases s.len(),
{
    if s.len() == 0 {
        seq![]
    } else {
        let front = pattern_arms(s.drop_last());
        match arm_of(s.last()) {
            Some(arm) => if arm.pattern == "__wildcard__"@ {
                front
            } else {
                front.push(arm)
            },
            None => front,
        }
    }
}

/// The body of the first wildcard arm.
pub open spec fn wildcard_body(s: Seq<StmtV>) -> Option<BlockV>
    decreases s.len(),
{
    if s.len() == 0 {
        None
    } else {
        match wildcard_body(s.drop_last()) {
            Some(b) => Some(b),
            None => match arm_of(s.last()) {
                Some(arm) => if arm.pattern == "__wildcard__"@ {
                    Some(arm.body)
                } else {
                    None
                },
                None => None,
            },
        }
    }
}

/// `if scrutinee == "pattern" { body } else { otherwise }`.
pub open spec fn arm_stmt(scrutinee: ExprV, arm: ArmV, otherwise: Option<BlockV>) -> StmtV {
    let span = arm.body.span;
    StmtV {
        kind: StmtKindV::If {
            condition: ExprV {
                kind: ExprKindV::Binary {
                    op: BinaryOp::Eq,
                    left: Box::new(scrutinee),
                    right: Box::new(string_expr(arm.pattern, span)),
                },
                ty: prim(PrimitiveType::Bool),
                span,
            },
            then_block: arm.body,
            else_block: otherwise,
            span,
        },
        ty: prim(PrimitiveType::Unit),
        span,
    }
}

/// The chain of `if`s for the arms, with `otherwise` at its end.
pub open spec fn chain(scrutinee: ExprV, arms: Seq<ArmV>, otherwise: Option<BlockV>) -> Option<
    BlockV,
>
    decreases arms.len(),
{
    if arms.len() == 0 {
        otherwise
    } else {
        Some(
            BlockV {
                statements: seq![
                    arm_stmt(scrutinee, arms[0], chain(scrutinee, arms.skip(1), otherwise)),
                ],
                span: arms[0].body.span,
            },
        )
    }
}

/// The position of the first end marker from `from` on.
pub open spec fn end_from(s: Seq<StmtV>, from: int) -> Option<int>
    decreases s.len() - from,
{
    if from < 0 || from >= s.len() {
        None
    } else if is_stmt_call_of(s[from], "__match_end__"@) {
        Some(from)
    } else {
        end_from(s, from + 1)
    }
}

/// The position of the end marker of the match that `s` starts with.
pub open spec fn match_end(s: Seq<StmtV>) -> Option<int> {
    if s.len() > 0 && is_stmt_call_of(s[0], "__match_begin__"@) && stmt_call(
        s[0],
    )->0.positional_args.len() > 0 {
        end_from(s, 1)
    } else {
        None
    }
}

/// The statements that the match at `s[0..=end]` becomes.
pub open spec fn match_stmts(s: Seq<StmtV>, end: int) -> Seq<StmtV> {
    let scrutinee = stmt_call(s[0])->0.positional_args[0];
    let inner = s.subrange(1, end);
    match chain(scrutinee, pattern_arms(inner), wildcard_body(inner)) {
        Some(b) => b.statements,
        None => seq![],
    }
}

/// `s` with the match that it starts with lowered.
pub open spec fn first_lowered(s: Seq<StmtV>) -> Seq<StmtV> {
    match match_end(s) {
        Some(end) => match_stmts(s, end) + s.skip(end + 1),
        None => s,
    }
}

/// The number of statements, block statements counted with what they hold.
pub open spec fn weight(s: Seq<StmtV>) -> nat
    decreases s,
{
    if s.len() == 0 {
        0
    } else {
        weight(s.drop_last()) + stmt_weight(s.last())
    }
}

pub open spec fn stmt_weight(s: StmtV) -> nat
    decreases s,
{
    match s.kind {
        StmtKindV::Block(b) => 1 + weight(b.statements),
        _ => 1,
    }
}

/// The statements of a block with their matches lowered from left to right.
/// The search goes on with the statements that a match becomes.
pub open spec fn lowered(s: Seq<StmtV>) -> Seq<StmtV>
    decreases weight(s),
{
    if s.len() == 0 {
        seq![]
    } else {
        proof {
            rest_is_lighter(s);
        }
        if match_end(s) is Some {
            lowered(first_lowered(s))
        } else {
            seq![s[0]] + lowered(s.skip(1))
        }
    }
}

proof fn weight_split(s: Seq<StmtV>, n: int)
    requires
        0 <= n <= s.len(),
    ensures
        weight(s) == weight(s.take(n)) + weight(s.skip(n)),
    decreases s.len() - n,
{
    if n == s.len() {
        assert(s.take(n) =~= s);
        assert(s.skip(n) =~= Seq::<StmtV>::empty());
    } else {
        let front = s.drop_last();
        weight_split(front, n);
        assert(front.take(n) =~= s.take(n));
        assert(s.skip(n).drop_last() =~= front.skip(n));
    }
}

proof fn weight_at_least_len(s: Seq<StmtV>)
    ensures
        weight(s) >= s.len(),
    decreases s.len(),
{
    if s.len() > 0 {
        weight_at_least_len(s.drop_last());
        assert(stmt_weight(s.last()) >= 1);
    }
}

proof fn wildcard_is_lighter(s: Seq<StmtV>)
    requires
        wildcard_body(s) is Some,
    ensures
        weight(wildcard_body(s)->0.statements) < weight(s),
    decreases s.len(),
{
    if wildcard_body(s.drop_last()) is Some {
        wildcard_is_lighter(s.drop_last());
    } else {
        match s.last().kind {
            StmtKindV::Block(b) => {
                weight_split(b.statements, 1);
                assert(stmt_weight(s.last()) == 1 + weight(b.statements));
            },
            _ => {},
        }
    }
}

proof fn end_is_in_range(s: Seq<StmtV>, from: int)
    requires
        0 <= from,
        end_from(s, from) is Some,
    ensures
        from <= end_from(s, from)->0 < s.len(),
        is_stmt_call_of(s[end_from(s, from)->0], "__match_end__"@),
    decreases s.len() - from,
{
    if !is_stmt_call_of(s[from], "__match_end__"@) {
        end_is_in_range(s, from + 1);
    }
}

/// What is left to search gets lighter.
pub proof fn rest_is_lighter(s: Seq<StmtV>)
    requires
        s.len() > 0,
    ensures
        match_end(s) is Some ==> weight(first_lowered(s)) < weight(s),
        weight(s.skip(1)) < weight(s),
{
    weight_split(s, 1);
    weight_at_least_len(s.take(1));
    match match_end(s) {
        Some(end) => {
            end_is_in_range(s, 1);
            let inner = s.subrange(1, end);
            let out = match_stmts(s, end);
            let now = first_lowered(s);
            weight_split(s, end + 1);
            weight_split(s.take(end + 1), 1);
            assert(s.take(end + 1).skip(1).drop_last() =~= inner);
            weight_split(now, out.len() as int);
            assert(now.take(out.len() as int) =~= out);
            assert(now.skip(out.len() as int) =~= s.skip(end + 1));
            weight_at_least_len(s.take(end + 1));
            if pattern_arms(inner).len() > 0 {
                assert(out.len() == 1);
                assert(out.drop_last() =~= Seq::<StmtV>::empty());
                reveal_with_fuel(weight, 2);
                assert(stmt_weight(out.last()) == 1);
            } else if wildcard_body(inner) is Some {
                wildcard_is_lighter(inner);
            }
        },
        None => {},
    }
}

// ---------------------------------------------------------------------------
// Carrying it out
// ---------------------------------------------------------------------------

/// An owned arm.
struct Arm {
    pattern: String,
    body: Block,
}

impl View for Arm {
    type V = ArmV;

    closed spec fn view(&self) -> ArmV {
        ArmV { pattern: self.pattern@, body: self.body@ }
    }
}

fn copy_tail(v: &Vec<Stmt>, from: usize) -> (r: Vec<Stmt>)
    requires
        from <= v@.len(),
    ensures
        stmts_view(r@) == stmts_view(v@).skip(from as int),
{
    let mut r: Vec<Stmt> = Vec::new();
    for i in from..v.len()
        invariant
            from <= v@.len(),
            r@.len() == i - from,
            forall|k: int| 0 <= k < r@.len() ==> (#[trigger] r@[k])@ == v@[from + k]@,
    {
        r.push(v[i].copied());
    }
    assert(stmts_view(r@) =~= stmts_view(v@).skip(from as int));
    r
}

fn get_arm(s: &Stmt) -> (r: Option<Arm>)
    ensures
        opt_view(r) == arm_of(s@),
{
    match &s.kind {
        StmtKind::Block(b) => {
            assert(s@.kind == StmtKindV::Block(b@));
            assert(b@ == BlockV { statements: stmts_view(b.statements@), span: b.span });
            if b.statements.len() == 0 {
                return None;
            }
            assert(b@.statements[0] == b.statements@[0]@);
            match get_stmt_call(&b.statements[0]) {
                Some(c) => {
                    if !calls(c, "__match_arm__") {
                        return None;
                    }
                    match get_string_arg(c, 0) {
                        Some(pattern) => {
                            let body = Block {
                                statements: copy_tail(&b.statements, 1),
                                span: b.span,
                            };
                            assert(body@ == BlockV {
                                statements: b@.statements.skip(1),
                                span: b.span,
                            });
                            Some(Arm { pattern: pattern.clone(), body })
                        },
                        None => None,
                    }
                },
                None => None,
            }
        },
        _ => None,
    }
}

fn new_arm_stmt(scrutinee: &Expr, arm: Arm, otherwise: Option<Block>) -> (s: Stmt)
    ensures
        s@ == arm_stmt(scrutinee@, arm@, opt_view(otherwise)),
{
    let Arm { pattern, body } = arm;
    let span = body.span;
    let condition = Expr {
        kind: ExprKind::Binary {
            op: BinaryOp::Eq,
            left: Box::new(scrutinee.copied()),
            right: Box::new(new_string(pattern, span)),
        },
        ty: Type::Primitive(PrimitiveType::Bool),
        span,
    };
    let ghost literal = string_expr(pattern@, span);
    assert(condition@ == ExprV {
        kind: ExprKindV::Binary {
            op: BinaryOp::Eq,
            left: Box::new(scrutinee@),
            right: Box::new(literal),
        },
        ty: prim(PrimitiveType::Bool),
        span,
    });
    Stmt {
        kind: StmtKind::If { condition, then_block: body, else_block: otherwise, span },
        ty: Type::Primitive(PrimitiveType::Unit),
        span,
    }
}

spec fn arms_view(s: Seq<Arm>) -> Seq<ArmV> {
    Seq::new(s.len(), |i: int| s[i]@)
}

fn build_chain(scrutinee: &Expr, arms: Vec<Arm>, otherwise: Option<Block>) -> (r: Option<Block>)
    ensures
        opt_view(r) == chain(
            scrutinee@,
            arms_view(arms@),
            opt_view(otherwise),
        ),
{
    let ghost all = arms_view(arms@);
    let ghost end = opt_view(otherwise);
    let mut arms = arms;
    let mut r = otherwise;
    assert(all.skip(all.len() as int) =~= Seq::<ArmV>::empty());
    while arms.len() > 0
        invariant
            arms@.len() <= all.len(),
            arms_view(arms@) == all.take(arms@.len() as int),
            opt_view(r) == chain(scrutinee@, all.skip(arms@.len() as int), end),
        decreases arms@.len(),
    {
        let ghost n = arms@.len() as int;
        let ghost before = arms@;
        let arm = arms.pop().unwrap();
        proof {
            assert(arm@ == arms_view(before)[n - 1]);
            assert(all.take(n)[n - 1] == all[n - 1]);
            assert(all.skip(n - 1).skip(1) =~= all.skip(n));
            assert(all.skip(n - 1)[0] == all[n - 1]);
            assert(arms_view(arms@) =~= all.take(n - 1)) by {
                assert forall|k: int| 0 <= k < n - 1 implies arms_view(arms@)[k] == all.take(
                    n - 1,
                )[k] by {
                    assert(arms_view(before)[k] == all.take(n)[k]);
                }
            }
        }
        let span = arm.body.span;
        let s = new_arm_stmt(scrutinee, arm, r);
        let mut statements: Vec<Stmt> = Vec::new();
        statements.push(s);
        proof {
            assert(stmts_view(statements@) =~= seq![s@]);
        }
        let b = Block { statements, span };
        assert(b@ == BlockV { statements: seq![s@], span });
        r = Some(b);
    }
    assert(all.skip(0) =~= all);
    r
}

fn find_match_end(s: &Vec<Stmt>, at: usize) -> (r: Option<usize>)
    requires
        at < s@.len(),
    ensures
        match r {
            Some(end) => at < end < s@.len() && match_end(stmts_view(s@).skip(at as int)) == Some(
                end - at,
            ),
            None => match_end(stmts_view(s@).skip(at as int)) is None,
        },
{
    let ghost rest = stmts_view(s@).skip(at as int);
    assert(rest[0] == s@[at as int]@);
    match get_stmt_call(&s[at]) {
        Some(c) => {
            if !calls(c, "__match_begin__") || c.positional_args.len() == 0 {
                return None;
            }
        },
        None => {
            return None;
        },
    }
    let total: usize = s.len();
    let mut i: usize = at + 1;
    while i < total
        invariant
            at < i <= s@.len(),
            total == s@.len(),
            match_end(rest) == end_from(rest, 1),
            rest == stmts_view(s@).skip(at as int),
            end_from(rest, 1) == end_from(rest, i - at),
        decreases s@.len() - i,
    {
        assert(rest[i - at] == s@[i as int]@);
        if stmt_calls(&s[i], "__match_end__") {
            return Some(i);
        }
        i = i + 1;
    }
    None
}

fn build_match(s: &Vec<Stmt>, at: usize, end: usize) -> (r: Vec<Stmt>)
    requires
        at < end < s@.len(),
        match_end(stmts_view(s@).skip(at as int)) == Some(end - at),
    ensures
        stmts_view(r@) == match_stmts(stmts_view(s@).skip(at as int), end - at),
{
    let ghost rest = stmts_view(s@).skip(at as int);
    let ghost inner = rest.subrange(1, end - at);
    assert(rest[0] == s@[at as int]@);
    let none: Vec<Stmt> = Vec::new();
    assert(stmts_view(none@) =~= Seq::<StmtV>::empty());
    let call = match get_stmt_call(&s[at]) {
        Some(c) => c,
        None => {
            return none;
        },
    };
    assert(call@.positional_args[0] == call.positional_args@[0]@);
    let scrutinee = &call.positional_args[0];
    let mut arms: Vec<Arm> = Vec::new();
    let mut otherwise: Option<Block> = None;
    assert(arms_view(arms@) =~= pattern_arms(inner.take(0)));
    for i in at + 1..end
        invariant
            at < end < s@.len(),
            rest == stmts_view(s@).skip(at as int),
            inner == rest.subrange(1, end - at),
            arms_view(arms@) == pattern_arms(inner.take(i - at - 1)),
            opt_view(otherwise) == wildcard_body(inner.take(i - at - 1)),
    {
        proof {
            assert(inner.take(i - at).drop_last() =~= inner.take(i - at - 1));
            assert(inner.take(i - at).last() == s@[i as int]@);
        }
        match get_arm(&s[i]) {
            Some(arm) => {
                if same(&arm.pattern, "__wildcard__") {
                    if otherwise.is_none() {
                        otherwise = Some(arm.body);
                    }
                } else {
                    assert(arms_view(arms@.push(arm)) =~= arms_view(arms@).push(arm@));
                    arms.push(arm);
                }
            },
            None => {},
        }
    }
    assert(inner.take(inner.len() as int) =~= inner);
    match build_chain(scrutinee, arms, otherwise) {
        Some(b) => {
            assert(b@ == BlockV { statements: stmts_view(b.statements@), span: b.span });
            b.statements
        },
        None => none,
    }
}

/// Lower the match at position `at`, if there is one.
fn lower_match_at(s: &mut Vec<Stmt>, at: usize) -> (found: bool)
    requires
        at < old(s)@.len(),
    ensures
        found == (match_end(stmts_view(old(s)@).skip(at as int)) is Some),
        stmts_view(final(s)@) == stmts_view(old(s)@).take(at as int) + first_lowered(
            stmts_view(old(s)@).skip(at as int),
        ),
{
    let ghost cur = stmts_view(s@);
    let ghost rest = cur.skip(at as int);
    match find_match_end(s, at) {
        Some(end) => {
            let total: usize = s.len();
            assert(end < total);
            let mut out = build_match(s, at, end);
            let ghost out_view = stmts_view(out@);
            let mut tail = s.split_off(end + 1);
            s.truncate(at);
            s.append(&mut out);
            s.append(&mut tail);
            assert(stmts_view(s@) =~= cur.take(at as int) + (out_view + rest.skip(end - at + 1)));
            true
        },
        None => {
            assert(cur =~= cur.take(at as int) + rest);
            false
        },
    }
}

fn lower_matches(body: Vec<Stmt>) -> (out: Vec<Stmt>)
    ensures
        stmts_view(out@) == lowered(stmts_view(body@)),
{
    let ghost all = stmts_view(body@);
    let mut s = body;
    let mut i: usize = 0;
    proof {
        assert(all.skip(0) =~= all);
        assert(all.take(0) + lowered(all) =~= lowered(all));
    }
    while i < s.len()
        invariant
            i <= s@.len(),
            all == stmts_view(body@),
            stmts_view(s@).take(i as int) + lowered(stmts_view(s@).skip(i as int)) == lowered(all),
        decreases weight(stmts_view(s@).skip(i as int)),
    {
        let ghost cur = stmts_view(s@);
        let ghost rest = cur.skip(i as int);
        proof {
            rest_is_lighter(rest);
        }
        let found = lower_match_at(&mut s, i);
        let ghost next = stmts_view(s@);
        if found {
            assert(next.take(i as int) =~= cur.take(i as int));
            assert(next.skip(i as int) =~= first_lowered(rest));
        } else {
            proof {
                assert(next =~= cur);
                assert(next.skip(i + 1) =~= rest.skip(1));
                assert(next.take(i + 1) + lowered(rest.skip(1)) =~= cur.take(i as int) + (
                seq![rest[0]] + lowered(rest.skip(1))));
            }
            i = i + 1;
        }
    }
    proof {
        let v = stmts_view(s@);
        assert(v.take(i as int) =~= v);
        assert(v.skip(i as int) =~= Seq::<StmtV>::empty());
        assert(v + Seq::<StmtV>::empty() =~= v);
    }
    s
}

// ---------------------------------------------------------------------------
// The pass
// ---------------------------------------------------------------------------

/// The lowering of matches as a rewriting rule.
pub open spec fn match_rule() -> Rule<()> {
    Rule {
        expr: |st: (), e: ExprV| (e, st),
        block: |s: Seq<StmtV>| lowered(s),
    }
}

struct MatchBlocks {}

impl Rewriter for MatchBlocks {
    type State = ();

    closed spec fn rule(&self) -> Rule<()> {
        match_rule()
    }

    fn apply_expr(&self, st: &mut (), e: Expr) -> (out: Expr) {
        e
    }

    fn apply_block(&self, s: Vec<Stmt>) -> (out: Vec<Stmt>) {
        lower_matches(s)
    }
}

/// Turn every match into an `if` chain that compares the scrutinee with the
/// patterns from the first to the last; a wildcard arm becomes the last `else`.
pub fn lower_match_blocks(program: &mut Program)
    ensures
        final(program)@ == walk_program(match_rule(), (), old(program)@).0,
{
    let mut declarations: Vec<Decl> = Vec::new();
    std::mem::swap(&mut program.declarations, &mut declarations);
    let mut st: () = ();
    program.declarations = rewrite_decls(&MatchBlocks {  }, &mut st, declarations);
}

// ---------------------------------------------------------------------------
// Laws
// ---------------------------------------------------------------------------

/// What an `if` chain of `n` links runs when the scrutinee has value `v`.
pub open spec fn chain_runs(b: Option<BlockV>, n: nat, v: Seq<char>) -> Option<BlockV>
    decreases n,
{
    if n == 0 {
        b
    } else {
        match b {
            Some(block) => match block.statements[0].kind {
                StmtKindV::If { condition, then_block, else_block, span: _ } => {
                    match condition.kind {
                        ExprKindV::Binary { op: BinaryOp::Eq, left: _, right } => if *right
                            == string_expr(v, right.span) {
                            Some(then_block)
                        } else {
                            chain_runs(else_block, (n - 1) as nat, v)
                        },
                        _ => None,
                    }
                },
                _ => None,
            },
            None => None,
        }
    }
}

/// The body of the first arm with the pattern `v`, or `otherwise`.
pub open spec fn first_arm(arms: Seq<ArmV>, otherwise: Option<BlockV>, v: Seq<char>) -> Option<
    BlockV,
>
    decreases arms.len(),
{
    if arms.len() == 0 {
        otherwise
    } else if arms[0].pattern == v {
        Some(arms[0].body)
    } else {
        first_arm(arms.skip(1), otherwise, v)
    }
}

/// The chain of a match runs the body of the first arm whose pattern equals
/// the scrutinee, and the wildcard's body if there is none.
pub proof fn chain_runs_first_arm(
    scrutinee: ExprV,
    arms: Seq<ArmV>,
    otherwise: Option<BlockV>,
    v: Seq<char>,
)
    ensures
        chain_runs(chain(scrutinee, arms, otherwise), arms.len(), v) == first_arm(
            arms,
            otherwise,
            v,
        ),
    decreases arms.len(),
{
    if arms.len() > 0 {
        chain_runs_first_arm(scrutinee, arms.skip(1), otherwise, v);
        let span = arms[0].body.span;
        let pattern = string_expr(arms[0].pattern, span);
        assert(pattern == string_expr(v, span) <==> arms[0].pattern == v);
    }
}

/// The law that no statement of a block begins a match.
pub open spec fn no_match_law() -> Law {
    Law {
        p: |e: ExprV| true,
        q: |s: Seq<StmtV>|
            forall|i: int|
                0 <= i < s.len() ==> !is_stmt_call_of(#[trigger] s[i], "__match_begin__"@),
    }
}

proof fn nothing_to_lower(s: Seq<StmtV>)
    requires
        forall|i: int| 0 <= i < s.len() ==> !is_stmt_call_of(#[trigger] s[i], "__match_begin__"@),
    ensures
        lowered(s) == s,
    decreases s.len(),
{
    if s.len() > 0 {
        assert(match_end(s) is None);
        let rest = s.skip(1);
        assert forall|i: int| 0 <= i < rest.len() implies !is_stmt_call_of(
            #[trigger] rest[i],
            "__match_begin__"@,
        ) by {
            assert(rest[i] == s[i + 1]);
        }
        nothing_to_lower(rest);
        assert(seq![s[0]] + rest =~= s);
    } else {
        assert(s =~= Seq::<StmtV>::empty());
    }
}

/// A program without a match marker stays as it is.
pub proof fn without_matches_unchanged(p: ProgramV)
    requires
        in_program(no_match_law(), p),
    ensures
        walk_program(match_rule(), (), p).0 == p,
{
    let r = match_rule();
    let l = no_match_law();
    assert forall|s: Seq<StmtV>| (l.q)(s) implies (#[trigger] (r.block)(s)) == s by {
        nothing_to_lower(s);
    }
    settled_program(r, l, (), p);
}

/// Whether no match with a scrutinee and an end marker starts anywhere in a
/// block.
pub open spec fn no_span(s: Seq<StmtV>) -> bool {
    forall|i: int| 0 <= i < s.len() ==> match_end(#[trigger] s.skip(i)) is None
}

/// The law that no block holds a match with a scrutinee and an end marker.
pub open spec fn no_span_law() -> Law {
    Law { p: |e: ExprV| true, q: |s: Seq<StmtV>| no_span(s) }
}

/// Without an end marker from `from` on, there is none at `k`.
proof fn no_end_from(s: Seq<StmtV>, from: int, k: int)
    requires
        0 <= from <= k < s.len(),
        end_from(s, from) is None,
    ensures
        !is_stmt_call_of(s[k], "__match_end__"@),
    decreases s.len() - from,
{
    if from < k {
        no_end_from(s, from + 1, k);
    }
}

/// No match has its end marker where there are no end markers.
proof fn no_ends_no_span(s: Seq<StmtV>)
    requires
        forall|k: int| 0 <= k < s.len() ==> !is_stmt_call_of(#[trigger] s[k], "__match_end__"@),
    ensures
        no_span(s),
        lowered(s) == s,
    decreases s.len(),
{
    assert forall|i: int| 0 <= i < s.len() implies match_end(#[trigger] s.skip(i)) is None by {
        let rest = s.skip(i);
        if match_end(rest) is Some {
            end_is_in_range(rest, 1);
            assert(rest[match_end(rest)->0] == s[i + match_end(rest)->0]);
        }
    }
    if s.len() > 0 {
        assert(s.skip(0) =~= s);
        let rest = s.skip(1);
        assert forall|k: int| 0 <= k < rest.len() implies !is_stmt_call_of(
            #[trigger] rest[k],
            "__match_end__"@,
        ) by {
            assert(rest[k] == s[k + 1]);
        }
        no_ends_no_span(rest);
        assert(seq![s[0]] + rest =~= s);
    } else {
        assert(s =~= Seq::<StmtV>::empty());
    }
}

/// Lowering the matches of a block leaves none that has its end marker.
pub proof fn block_keeps_no_match(s: Seq<StmtV>)
    ensures
        no_span(lowered(s)),
    decreases weight(s),
{
    if s.len() > 0 {
        rest_is_lighter(s);
        if match_end(s) is Some {
            block_keeps_no_match(first_lowered(s));
        } else {
            let rest = s.skip(1);
            block_keeps_no_match(rest);
            let out = lowered(s);
            assert forall|i: int| 0 <= i < out.len() implies match_end(#[trigger] out.skip(i))
                is None by {
                if i > 0 {
                    assert(out.skip(i) =~= lowered(rest).skip(i - 1));
                } else if is_stmt_call_of(s[0], "__match_begin__"@) && stmt_call(
                    s[0],
                )->0.positional_args.len() > 0 {
                    assert forall|k: int| 0 <= k < rest.len() implies !is_stmt_call_of(
                        #[trigger] rest[k],
                        "__match_end__"@,
                    ) by {
                        no_end_from(s, 1, k + 1);
                    }
                    no_ends_no_span(rest);
                    assert(out.skip(0) =~= s);
                } else {
                    assert(out.skip(0)[0] == s[0]);
                }
            }
        }
    }
}

/// The arms of a match, and its wildcard, keep the law.
proof fn arms_in_law(s: Seq<StmtV>)
    requires
        in_stmts(no_span_law(), s),
    ensures
        forall|k: int|
            0 <= k < pattern_arms(s).len() ==> in_block(
                no_span_law(),
                (#[trigger] pattern_arms(s)[k]).body,
            ),
        wildcard_body(s) is Some ==> in_block(no_span_law(), wildcard_body(s)->0),
    decreases s.len(),
{
    if s.len() > 0 {
        let front = s.drop_last();
        assert forall|i: int| 0 <= i < front.len() implies in_stmt(
            no_span_law(),
            #[trigger] front[i],
        ) by {
            assert(front[i] == s[i]);
        }
        arms_in_law(front);
        assert(in_stmt(no_span_law(), s[s.len() - 1]));
        match s.last().kind {
            StmtKindV::Block(b) => {
                if arm_of(s.last()) is Some {
                    let body = arm_of(s.last())->0.body;
                    assert forall|i: int| 0 <= i < body.statements.len() implies match_end(
                        #[trigger] body.statements.skip(i),
                    ) is None && in_stmt(no_span_law(), body.statements[i]) by {
                        assert(body.statements.skip(i) =~= b.statements.skip(i + 1));
                        assert(body.statements[i] == b.statements[i + 1]);
                    }
                    assert(in_block(no_span_law(), body));
                }
            },
            _ => {},
        }
        let arms = pattern_arms(s);
        assert forall|k: int| 0 <= k < arms.len() implies in_block(
            no_span_law(),
            (#[trigger] arms[k]).body,
        ) by {
            if k < pattern_arms(front).len() {
                assert(arms[k] == pattern_arms(front)[k]);
            }
        }
    }
}

proof fn chain_in_law(scrutinee: ExprV, arms: Seq<ArmV>, otherwise: Option<BlockV>)
    requires
        in_expr(no_span_law(), scrutinee),
        forall|k: int|
            0 <= k < arms.len() ==> in_block(no_span_law(), (#[trigger] arms[k]).body),
        otherwise is Some ==> in_block(no_span_law(), otherwise->0),
    ensures
        chain(scrutinee, arms, otherwise) is Some ==> in_block(
            no_span_law(),
            chain(scrutinee, arms, otherwise)->0,
        ),
    decreases arms.len(),
{
    if arms.len() > 0 {
        let rest = arms.skip(1);
        assert forall|k: int| 0 <= k < rest.len() implies in_block(
            no_span_law(),
            (#[trigger] rest[k]).body,
        ) by {
            assert(rest[k] == arms[k + 1]);
        }
        chain_in_law(scrutinee, rest, otherwise);
        let link = arm_stmt(scrutinee, arms[0], chain(scrutinee, rest, otherwise));
        let b = chain(scrutinee, arms, otherwise)->0;
        assert(in_block(no_span_law(), arms[0].body));
        assert(in_expr(no_span_law(), string_expr(arms[0].pattern, arms[0].body.span)));
        match link.kind {
            StmtKindV::If { condition, .. } => {
                assert(in_expr(no_span_law(), condition));
            },
            _ => {},
        }
        assert(in_stmt(no_span_law(), link));
        assert forall|i: int| 0 <= i < b.statements.len() implies match_end(
            #[trigger] b.statements.skip(i),
        ) is None by {
            assert(b.statements.skip(i)[0] == link);
        }
    }
}

proof fn lowered_in_law(s: Seq<StmtV>)
    requires
        in_stmts(no_span_law(), s),
    ensures
        in_stmts(no_span_law(), lowered(s)),
    decreases weight(s),
{
    let l = no_span_law();
    if s.len() > 0 {
        rest_is_lighter(s);
        match match_end(s) {
            Some(end) => {
                end_is_in_range(s, 1);
                let inner = s.subrange(1, end);
                assert forall|i: int| 0 <= i < inner.len() implies in_stmt(
                    l,
                    #[trigger] inner[i],
                ) by {
                    assert(inner[i] == s[i + 1]);
                }
                arms_in_law(inner);
                let scrutinee = stmt_call(s[0])->0.positional_args[0];
                assert(in_stmt(l, s[0]));
                assert(in_call(l, stmt_call(s[0])->0));
                chain_in_law(scrutinee, pattern_arms(inner), wildcard_body(inner));
                let now = first_lowered(s);
                let out = match_stmts(s, end);
                assert forall|i: int| 0 <= i < now.len() implies in_stmt(l, #[trigger] now[i]) by {
                    if i < out.len() {
                        assert(now[i] == out[i]);
                    } else {
                        assert(now[i] == s[i - out.len() + end + 1]);
                    }
                }
                lowered_in_law(now);
            },
            None => {
                let rest = s.skip(1);
                assert forall|i: int| 0 <= i < rest.len() implies in_stmt(
                    l,
                    #[trigger] rest[i],
                ) by {
                    assert(rest[i] == s[i + 1]);
                }
                lowered_in_law(rest);
                let out = lowered(s);
                assert forall|i: int| 0 <= i < out.len() implies in_stmt(l, #[trigger] out[i]) by {
                    if i > 0 {
                        assert(out[i] == lowered(rest)[i - 1]);
                    } else {
                        assert(out[0] == s[0]);
                    }
                }
            },
        }
    }
}

/// After the pass no block of the program holds a match with its end marker.
pub proof fn matches_are_gone(p: ProgramV)
    ensures
        in_program(no_span_law(), walk_program(match_rule(), (), p).0),
{
    let r = match_rule();
    let l = no_span_law();
    assert forall|s: Seq<StmtV>| in_stmts(l, s) implies (l.q)(#[trigger] (r.block)(s)) && in_stmts(
        l,
        (r.block)(s),
    ) by {
        block_keeps_no_match(s);
        lowered_in_law(s);
    }
    assert(establishes(r, l, any_state::<()>()));
    establish_program(r, l, any_state::<()>(), (), p);
}

} // verus!
