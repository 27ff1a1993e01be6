//! Stylesheet text: semicolons that may be left out, and extraction from a
//! program.

use vstd::prelude::*;

use crate::ast::{stmts_view, views, Decl, DeclKind, Function, Program, Stmt, StmtKind};
use crate::model::{DeclKindV, DeclV, StmtKindV, StmtV};
use crate::shape::{get_string_value, string_value};
use crate::text::{names_view, same, to_chars};

verus! {

// ---------------------------------------------------------------------------
// White space
// ---------------------------------------------------------------------------

/// Whether a character has the Unicode property `White_Space`.
pub open spec fn is_space(c: char) -> bool {
    let n = c as u32;
    (9 <= n <= 13) || n == 32 || n == 0x85 || n == 0xA0 || n == 0x1680 || (0x2000 <= n <= 0x200A)
        || n == 0x2028 || n == 0x2029 || n == 0x202F || n == 0x205F || n == 0x3000
}

pub fn char_is_space(c: char) -> (r: bool)
    ensures
        r == is_space(c),
{
    let n: u32 = c as u32;
    (9 <= n && n <= 13) || n == 32 || n == 0x85 || n == 0xA0 || n == 0x1680 || (0x2000 <= n && n
        <= 0x200A) || n == 0x2028 || n == 0x2029 || n == 0x202F || n == 0x205F || n == 0x3000
}

/// A text without the white space at its end.
pub open spec fn trim_end(s: Seq<char>) -> Seq<char>
    decreases s.len(),
{
    if s.len() > 0 && is_space(s.last()) {
        trim_end(s.drop_last())
    } else {
        s
    }
}

/// A text without the white space at its start.
pub open spec fn trim_start(s: Seq<char>) -> Seq<char>
    decreases s.len(),
{
    if s.len() > 0 && is_space(s[0]) {
        trim_start(s.skip(1))
    } else {
        s
    }
}

// ---------------------------------------------------------------------------
// Lines
// ---------------------------------------------------------------------------

/// The complete lines of a text, each with its line feed, and the rest.
pub open spec fn split_lines(s: Seq<char>) -> (Seq<Seq<char>>, Seq<char>)
    decreases s.len(),
{
    if s.len() == 0 {
        (seq![], seq![])
    } else {
        let (done, rest) = split_lines(s.drop_last());
        if s.last() == '\n' {
            (done.push(rest.push('\n')), seq![])
        } else {
            (done, rest.push(s.last()))
        }
    }
}

/// The lines of a text, each with its line feed; the last may have none.
pub open spec fn lines(s: Seq<char>) -> Seq<Seq<char>> {
    let (done, rest) = split_lines(s);
    if rest.len() > 0 {
        done.push(rest)
    } else {
        done
    }
}

/// A line up to its last visible character; a blank line whole.
pub open spec fn line_body(line: Seq<char>) -> Seq<char> {
    if trim_end(line).len() == 0 {
        line
    } else {
        trim_end(line)
    }
}

/// The number of times that `c` occurs.
pub open spec fn count(s: Seq<char>, c: char) -> nat
    decreases s.len(),
{
    if s.len() == 0 {
        0
    } else {
        count(s.drop_last(), c) + if s.last() == c {
            1nat
        } else {
            0nat
        }
    }
}

/// How many braces a line opens more than it closes.
pub open spec fn opened(line: Seq<char>) -> int {
    count(line_body(line), '{') - count(line_body(line), '}')
}

/// Whether a line is a comment or goes on with one.
pub open spec fn is_comment(line: Seq<char>) -> bool {
    let s = trim_start(line_body(line));
    (s.len() >= 2 && s[0] == '/' && (s[1] == '/' || s[1] == '*')) || (s.len() >= 1 && s[0] == '*')
}

/// Whether a visible line may end in `c` without needing a semicolon.
pub open spec fn is_terminator(c: char) -> bool {
    c == ';' || c == '{' || c == '}' || c == ',' || c == '/' || c == '*'
}

/// Whether a line at brace depth `depth` needs a semicolon.
pub open spec fn needs_semicolon(depth: int, line: Seq<char>) -> bool {
    depth > 0 && !is_comment(line) && trim_end(line).len() > 0 && !is_terminator(
        trim_end(line).last(),
    )
}

/// A line with the semicolon that it needs before its trailing white space.
pub open spec fn line_injected(depth: int, line: Seq<char>) -> Seq<char> {
    let body = line_body(line);
    let tail = line.skip(body.len() as int);
    if needs_semicolon(depth, line) {
        body.push(';') + tail
    } else {
        body + tail
    }
}

/// The text of a list of lines with their semicolons, and the brace depth
/// after them.
pub open spec fn lines_injected(s: Seq<Seq<char>>) -> (Seq<char>, int)
    decreases s.len(),
{
    if s.len() == 0 {
        (seq![], 0)
    } else {
        let (text, depth) = lines_injected(s.drop_last());
        (text + line_injected(depth, s.last()), depth + opened(s.last()))
    }
}

/// A stylesheet with its semicolons.
pub open spec fn injected(s: Seq<char>) -> Seq<char> {
    lines_injected(lines(s)).0
}

// ---------------------------------------------------------------------------
// Carrying it out
// ---------------------------------------------------------------------------

/// Whether `v[from..to]`, without leading white space, is a comment.
fn starts_comment(v: &Vec<char>, from: usize, to: usize) -> (r: bool)
    requires
        from <= to <= v@.len(),
        v@.subrange(from as int, to as int) == line_body(v@.subrange(from as int, to as int)),
    ensures
        r == is_comment(v@.subrange(from as int, to as int)),
{
    let ghost s = v@.subrange(from as int, to as int);
    let mut i: usize = from;
    assert(s.skip(0) =~= s);
    while i < to && char_is_space(v[i])
        invariant
            from <= i <= to <= v@.len(),
            s == v@.subrange(from as int, to as int),
            trim_start(s) == trim_start(s.skip(i - from)),
        decreases to - i,
    {
        proof {
            assert(s.skip(i - from).skip(1) =~= s.skip(i + 1 - from));
            assert(s.skip(i - from)[0] == v@[i as int]);
        }
        i = i + 1;
    }
    proof {
        let t = s.skip(i - from);
        if i < to {
            assert(t[0] == v@[i as int]);
            if i + 1 < to {
                assert(t[1] == v@[i + 1]);
            }
        }
        assert(trim_start(s) == t);
    }
    if i >= to {
        return false;
    }
    if v[i] == '*' {
        return true;
    }
    v[i] == '/' && to - i >= 2 && (v[i + 1] == '/' || v[i + 1] == '*')
}

fn push_range(out: &mut String, v: &Vec<char>, from: usize, to: usize)
    requires
        from <= to <= v@.len(),
    ensures
        final(out)@ == old(out)@ + v@.subrange(from as int, to as int),
{
    let ghost out0 = out@;
    let mut i: usize = from;
    assert(out0 + v@.subrange(from as int, from as int) =~= out0);
    while i < to
        invariant
            from <= i <= to <= v@.len(),
            out@ == out0 + v@.subrange(from as int, i as int),
        decreases to - i,
    {
        out.push(v[i]);
        assert(out@ =~= out0 + v@.subrange(from as int, i + 1));
        i = i + 1;
    }
}

/// The end of `v[from..to]` without the white space at its end.
fn trimmed_end(v: &Vec<char>, from: usize, to: usize) -> (r: usize)
    requires
        from <= to <= v@.len(),
    ensures
        from <= r <= to,
        trim_end(v@.subrange(from as int, to as int)) == v@.subrange(from as int, r as int),
{
    let ghost s = v@.subrange(from as int, to as int);
    let mut r: usize = to;
    while r > from && char_is_space(v[r - 1])
        invariant
            from <= r <= to <= v@.len(),
            trim_end(s) == trim_end(v@.subrange(from as int, r as int)),
        decreases r,
    {
        proof {
            let t = v@.subrange(from as int, r as int);
            assert(t.drop_last() =~= v@.subrange(from as int, r - 1));
            assert(t.last() == v@[r - 1]);
        }
        r = r - 1;
    }
    proof {
        let t = v@.subrange(from as int, r as int);
        if r > from {
            assert(t.last() == v@[r - 1]);
        }
    }
    r
}

/// How many braces `v[from..to]` opens more than it closes.
fn braces(v: &Vec<char>, from: usize, to: usize) -> (r: i128)
    requires
        from <= to <= v@.len(),
    ensures
        r == count(v@.subrange(from as int, to as int), '{') - count(
            v@.subrange(from as int, to as int),
            '}',
        ),
        -(to - from) <= r <= to - from,
{
    let mut r: i128 = 0;
    let mut i: usize = from;
    while i < to
        invariant
            from <= i <= to <= v@.len(),
            r == count(v@.subrange(from as int, i as int), '{') - count(
                v@.subrange(from as int, i as int),
                '}',
            ),
            -(i - from) <= r <= i - from,
        decreases to - i,
    {
        proof {
            let t = v@.subrange(from as int, i + 1);
            assert(t.drop_last() =~= v@.subrange(from as int, i as int));
            assert(t.last() == v@[i as int]);
        }
        if v[i] == '{' {
            r = r + 1;
        } else if v[i] == '}' {
            r = r - 1;
        }
        i = i + 1;
    }
    r
}

fn push_line(out: &mut String, depth: i128, v: &Vec<char>, from: usize, to: usize) -> (r: i128)
    requires
        from < to <= v@.len(),
        -(from as int) <= depth <= from,
    ensures
        final(out)@ == old(out)@ + line_injected(
            depth as int,
            v@.subrange(from as int, to as int),
        ),
        r == depth + opened(v@.subrange(from as int, to as int)),
        -(to as int) <= r <= to,
{
    let ghost line = v@.subrange(from as int, to as int);
    let ghost out0 = out@;
    let visible = trimmed_end(v, from, to);
    let end = if visible == from {
        to
    } else {
        visible
    };
    let ghost body = v@.subrange(from as int, end as int);
    let ghost tail = v@.subrange(end as int, to as int);
    proof {
        assert(line_body(line) == body);
        assert(line.skip(body.len() as int) =~= tail);
        body_of_body(line);
    }
    push_range(out, v, from, end);
    if depth > 0 && visible > from {
        let last = v[visible - 1];
        assert(trim_end(line).last() == last);
        let comment = starts_comment(v, from, end);
        proof {
            comment_of_body(line);
        }
        if !comment && !(last == ';' || last == '{' || last == '}' || last == ',' || last == '/'
            || last == '*') {
            out.push(';');
            assert(out@ =~= out0 + body.push(';'));
        }
    }
    let ghost so_far = out@;
    push_range(out, v, end, to);
    assert(out@ =~= out0 + line_injected(depth as int, line));
    let opened_here: i128 = braces(v, from, end);
    depth + opened_here
}

/// The body of a line is its own body.
proof fn body_of_body(line: Seq<char>)
    ensures
        line_body(line_body(line)) == line_body(line),
        trim_end(trim_end(line)) == trim_end(line),
    decreases line.len(),
{
    if line.len() > 0 && is_space(line.last()) {
        body_of_body(line.drop_last());
    }
}

proof fn comment_of_body(line: Seq<char>)
    ensures
        is_comment(line_body(line)) == is_comment(line),
{
    body_of_body(line);
}

/// Append `;` to the lines inside braces that need one. Braces in strings and
/// comments count like any other.
pub fn auto_inject_semicolons(raw: &str) -> (r: String)
    ensures
        r@ == injected(raw@),
{
    let v = to_chars(raw);
    let total: usize = v.len();
    let mut out: String = String::new();
    let mut depth: i128 = 0;
    let mut start: usize = 0;
    let mut i: usize = 0;
    proof {
        assert(v@.take(0) =~= Seq::<char>::empty());
        assert(v@.subrange(0, 0) =~= Seq::<char>::empty());
        assert(out@ =~= lines_injected(Seq::<Seq<char>>::empty()).0);
    }
    while i < total
        invariant
            total == v@.len(),
            start <= i <= total,
            -(start as int) <= depth <= start,
            split_lines(v@.take(i as int)).1 == v@.subrange(start as int, i as int),
            (out@, depth as int) == lines_injected(split_lines(v@.take(i as int)).0),
        decreases total - i,
    {
        let ghost done = split_lines(v@.take(i as int)).0;
        proof {
            let t = v@.take(i + 1);
            assert(t.drop_last() =~= v@.take(i as int));
            assert(t.last() == v@[i as int]);
            assert(v@.subrange(start as int, i as int).push(v@[i as int]) =~= v@.subrange(
                start as int,
                i + 1,
            ));
        }
        i = i + 1;
        if v[i - 1] == '\n' {
            proof {
                let line = v@.subrange(start as int, i as int);
                assert(done.push(line).drop_last() =~= done);
                assert(done.push(line).last() == line);
            }
            depth = push_line(&mut out, depth, &v, start, i);
            start = i;
            assert(v@.subrange(i as int, i as int) =~= Seq::<char>::empty());
        }
    }
    proof {
        assert(v@.take(total as int) =~= v@);
        let done = split_lines(v@).0;
        let line = v@.subrange(start as int, total as int);
        assert(done.push(line).drop_last() =~= done);
    }
    if start < total {
        let _depth = push_line(&mut out, depth, &v, start, total);
    }
    out
}

// ---------------------------------------------------------------------------
// Extraction
// ---------------------------------------------------------------------------

/// The stylesheet texts that the statements `s` hold, with their semicolons.
pub open spec fn sheet_texts(s: Seq<StmtV>) -> Seq<Seq<char>>
    decreases s.len(),
{
    if s.len() == 0 {
        seq![]
    } else {
        let front = sheet_texts(s.drop_last());
        match s.last().kind {
            StmtKindV::Expression(e) => match string_value(e) {
                Some(text) => front.push(injected(text)),
                None => front,
            },
            _ => front,
        }
    }
}

/// Whether a declaration carries stylesheets.
pub open spec fn is_sheet(d: DeclV) -> bool {
    match d.kind {
        DeclKindV::Function(f) => f.name == "__blinc_stylesheet__"@,
        _ => false,
    }
}

/// The stylesheets of a list of declarations, in order.
pub open spec fn sheets(s: Seq<DeclV>) -> Seq<Seq<char>>
    decreases s.len(),
{
    if s.len() == 0 {
        seq![]
    } else {
        let front = sheets(s.drop_last());
        match s.last().kind {
            DeclKindV::Function(f) => if is_sheet(s.last()) {
                match f.body {
                    Some(b) => front + sheet_texts(b.statements),
                    None => front,
                }
            } else {
                front
            },
            _ => front,
        }
    }
}

/// The declarations that carry no stylesheets.
pub open spec fn without_sheets(s: Seq<DeclV>) -> Seq<DeclV> {
    s.filter(|d: DeclV| !is_sheet(d))
}

fn push_sheet_texts(statements: &Vec<Stmt>, out: &mut Vec<String>)
    ensures
        names_view(final(out)@) == names_view(old(out)@) + sheet_texts(stmts_view(statements@)),
{
    let ghost all = stmts_view(statements@);
    let ghost out0 = names_view(out@);
    assert(out0 + sheet_texts(all.take(0)) =~= out0);
    for i in 0..statements.len()
        invariant
            all == stmts_view(statements@),
            names_view(out@) == out0 + sheet_texts(all.take(i as int)),
    {
        proof {
            assert(all.take(i + 1).drop_last() =~= all.take(i as int));
            assert(all[i as int] == statements@[i as int]@);
        }
        match &statements[i].kind {
            StmtKind::Expression(e) => {
                assert(all[i as int].kind == StmtKindV::Expression(e@));
                match get_string_value(e) {
                    Some(text) => {
                        let ghost before = out@;
                        let sheet = auto_inject_semicolons(text.as_str());
                        out.push(sheet);
                        proof {
                            assert(names_view(out@) =~= names_view(before).push(sheet@));
                            assert(names_view(out@) =~= out0 + sheet_texts(all.take(i + 1)));
                        }
                    },
                    None => {},
                }
            },
            _ => {},
        }
    }
    assert(all.take(all.len() as int) =~= all);
}

/// Take the stylesheets out of a program and append them to `out`.
pub fn extract_and_strip_stylesheets(program: &mut Program, out: &mut Vec<String>)
    ensures
        final(program)@.declarations == without_sheets(old(program)@.declarations),
        final(program)@.type_registry == old(program)@.type_registry,
        names_view(final(out)@) == names_view(old(out)@) + sheets(old(program)@.declarations),
{
    let mut declarations: Vec<Decl> = Vec::new();
    std::mem::swap(&mut program.declarations, &mut declarations);
    let ghost all = views(declarations@);
    let ghost decls0 = declarations@;
    let ghost out0 = names_view(out@);
    let mut kept: Vec<Decl> = Vec::new();
    proof {
        reveal(Seq::filter);
        assert(views(kept@) =~= without_sheets(all.take(0)));
        assert(out0 + sheets(all.take(0)) =~= out0);
    }
    for d in it: declarations
        invariant
            it.seq() == decls0,
            all == views(decls0),
            views(kept@) == without_sheets(all.take(it.index() as int)),
            names_view(out@) == out0 + sheets(all.take(it.index() as int)),
    {
        let ghost i = it.index() as int;
        let ghost before = names_view(out@);
        proof {
            reveal(Seq::filter);
            assert(all.take(i + 1).drop_last() =~= all.take(i));
            assert(d@ == all[i]);
        }
        let sheet = match &d.kind {
            DeclKind::Function(f) => {
                if same(&f.name, "__blinc_stylesheet__") {
                    match &f.body {
                        Some(b) => {
                            assert(f@.body == Some(b@));
                            push_sheet_texts(&b.statements, out);
                            assert(names_view(out@) =~= out0 + sheets(all.take(i + 1)));
                        },
                        None => {},
                    }
                    true
                } else {
                    false
                }
            },
            _ => false,
        };
        if !sheet {
            assert(views(kept@.push(d)) =~= views(kept@).push(d@));
            kept.push(d);
        }
    }
    assert(all.take(all.len() as int) =~= all);
    program.declarations = kept;
}

// ---------------------------------------------------------------------------
// Injecting twice
// ---------------------------------------------------------------------------

/// The text of a list of lines.
pub open spec fn joined(s: Seq<Seq<char>>) -> Seq<char>
    decreases s.len(),
{
    if s.len() == 0 {
        seq![]
    } else {
        joined(s.drop_last()) + s.last()
    }
}

/// The lines with their semicolons.
pub open spec fn with_semicolons(s: Seq<Seq<char>>) -> Seq<Seq<char>> {
    Seq::new(s.len(), |i: int| line_injected(lines_injected(s.take(i)).1, s[i]))
}

/// Whether a text is one line.
pub open spec fn is_line(l: Seq<char>) -> bool {
    l.len() > 0 && forall|i: int| 0 <= i < l.len() - 1 ==> #[trigger] l[i] != '\n'
}

/// Whether texts are lines that follow one another.
pub open spec fn are_lines(s: Seq<Seq<char>>) -> bool {
    forall|i: int|
        0 <= i < s.len() ==> is_line(#[trigger] s[i]) && (i < s.len() - 1 ==> s[i].last() == '\n')
}

/// Injecting the semicolons line by line gives the whole text.
pub proof fn injected_is_joined(s: Seq<Seq<char>>)
    ensures
        lines_injected(s).0 == joined(with_semicolons(s)),
    decreases s.len(),
{
    if s.len() > 0 {
        let front = s.drop_last();
        injected_is_joined(front);
        let w = with_semicolons(s);
        assert(w.drop_last() =~= with_semicolons(front)) by {
            assert forall|i: int| 0 <= i < front.len() implies #[trigger] w.drop_last()[i]
                == with_semicolons(front)[i] by {
                assert(s.take(i) =~= front.take(i));
            }
        }
        assert(s.take(s.len() - 1) =~= front);
    }
}

proof fn split_gives_lines(s: Seq<char>)
    ensures
        ({
            let (done, rest) = split_lines(s);
            &&& forall|i: int|
                0 <= i < done.len() ==> is_line(#[trigger] done[i]) && done[i].last() == '\n'
            &&& forall|i: int| 0 <= i < rest.len() ==> #[trigger] rest[i] != '\n'
        }),
    decreases s.len(),
{
    if s.len() > 0 {
        split_gives_lines(s.drop_last());
        let (done0, rest0) = split_lines(s.drop_last());
        let (done, rest) = split_lines(s);
        assert forall|i: int| 0 <= i < done.len() implies is_line(#[trigger] done[i])
            && done[i].last() == '\n' by {
            if i < done0.len() {
                assert(done[i] == done0[i]);
            } else {
                let l = rest0.push('\n');
                assert forall|k: int| 0 <= k < l.len() - 1 implies #[trigger] l[k] != '\n' by {
                    assert(l[k] == rest0[k]);
                }
            }
        }
    }
}

/// The lines of a text are lines.
pub proof fn lines_are_lines(s: Seq<char>)
    ensures
        are_lines(lines(s)),
{
    split_gives_lines(s);
}

/// Text without a line feed goes to the rest.
proof fn split_after_rest(t: Seq<char>, x: Seq<char>)
    requires
        forall|i: int| 0 <= i < x.len() ==> #[trigger] x[i] != '\n',
    ensures
        split_lines(t + x) == (split_lines(t).0, split_lines(t).1 + x),
    decreases x.len(),
{
    if x.len() == 0 {
        assert(t + x =~= t);
        assert(split_lines(t).1 + x =~= split_lines(t).1);
    } else {
        let y = x.drop_last();
        assert forall|i: int| 0 <= i < y.len() implies #[trigger] y[i] != '\n' by {
            assert(y[i] == x[i]);
        }
        split_after_rest(t, y);
        assert((t + x).drop_last() =~= t + y);
        assert((t + x).last() == x[x.len() - 1]);
        assert((split_lines(t).1 + y).push(x.last()) =~= split_lines(t).1 + x);
    }
}

proof fn split_joined(s: Seq<Seq<char>>)
    requires
        are_lines(s),
        s.len() > 0 ==> s.last().last() == '\n',
    ensures
        split_lines(joined(s)) == (s, Seq::<char>::empty()),
    decreases s.len(),
{
    if s.len() > 0 {
        let front = s.drop_last();
        let last = s.last();
        assert forall|i: int| 0 <= i < front.len() implies is_line(#[trigger] front[i]) && (i
            < front.len() - 1 ==> front[i].last() == '\n') by {
            assert(front[i] == s[i]);
        }
        if front.len() > 0 {
            assert(front.last() == s[s.len() - 2]);
        }
        split_joined(front);
        let x = last.drop_last();
        assert(is_line(s[s.len() - 1]));
        assert forall|i: int| 0 <= i < x.len() implies #[trigger] x[i] != '\n' by {
            assert(x[i] == last[i]);
        }
        split_after_rest(joined(front), x);
        assert(joined(s).drop_last() =~= joined(front) + x);
        assert(joined(s).last() == '\n');
        assert((Seq::<char>::empty() + x).push('\n') =~= last);
        assert(front.push(last) =~= s);
    } else {
        assert(s =~= Seq::<Seq<char>>::empty());
    }
}

proof fn lines_of_joined(s: Seq<Seq<char>>)
    requires
        are_lines(s),
    ensures
        lines(joined(s)) == s,
{
    if s.len() == 0 {
        split_joined(s);
    } else if s.last().last() == '\n' {
        split_joined(s);
    } else {
        let front = s.drop_last();
        let last = s.last();
        assert forall|i: int| 0 <= i < front.len() implies is_line(#[trigger] front[i]) && (i
            < front.len() - 1 ==> front[i].last() == '\n') by {
            assert(front[i] == s[i]);
        }
        if front.len() > 0 {
            assert(front.last() == s[s.len() - 2]);
        }
        split_joined(front);
        assert(is_line(s[s.len() - 1]));
        assert forall|i: int| 0 <= i < last.len() implies #[trigger] last[i] != '\n' by {
        }
        split_after_rest(joined(front), last);
        assert(Seq::<char>::empty() + last =~= last);
        assert(front.push(last) =~= s);
    }
}

/// What is cut off at the end of a line is white space, and all of it.
pub proof fn trimmed_is_space(l: Seq<char>)
    ensures
        trim_end(l).len() <= l.len(),
        l.take(trim_end(l).len() as int) == trim_end(l),
        forall|i: int| trim_end(l).len() <= i < l.len() ==> is_space(#[trigger] l[i]),
        trim_end(l).len() > 0 ==> !is_space(trim_end(l).last()),
    decreases l.len(),
{
    if l.len() > 0 && is_space(l.last()) {
        let m = l.drop_last();
        trimmed_is_space(m);
        assert(l.take(trim_end(l).len() as int) =~= m.take(trim_end(m).len() as int));
        assert forall|i: int| trim_end(l).len() <= i < l.len() implies is_space(
            #[trigger] l[i],
        ) by {
            if i < m.len() {
                assert(m[i] == l[i]);
            }
        }
    } else {
        assert(l.take(l.len() as int) =~= l);
    }
}

/// White space after a visible end is cut off.
proof fn trim_end_of(b: Seq<char>, t: Seq<char>)
    requires
        b.len() > 0,
        !is_space(b.last()),
        forall|i: int| 0 <= i < t.len() ==> is_space(#[trigger] t[i]),
    ensures
        trim_end(b + t) == b,
    decreases t.len(),
{
    if t.len() == 0 {
        assert(b + t =~= b);
    } else {
        let u = t.drop_last();
        assert forall|i: int| 0 <= i < u.len() implies is_space(#[trigger] u[i]) by {
            assert(u[i] == t[i]);
        }
        trim_end_of(b, u);
        assert((b + t).drop_last() =~= b + u);
        assert((b + t).last() == t[t.len() - 1]);
    }
}

proof fn count_push(s: Seq<char>, x: char, c: char)
    ensures
        count(s.push(x), c) == count(s, c) + if x == c {
            1nat
        } else {
            0nat
        },
{
    assert(s.push(x).drop_last() =~= s);
}

/// An injected line needs no further semicolon, opens as many braces as the
/// line did, and is still one line.
proof fn line_injected_settles(depth: int, l: Seq<char>)
    requires
        is_line(l),
    ensures
        line_injected(depth, line_injected(depth, l)) == line_injected(depth, l),
        opened(line_injected(depth, l)) == opened(l),
        is_line(line_injected(depth, l)),
        line_injected(depth, l).last() == '\n' <==> l.last() == '\n',
{
    let body = line_body(l);
    let tail = l.skip(body.len() as int);
    let out = line_injected(depth, l);
    trimmed_is_space(l);
    if needs_semicolon(depth, l) {
        let b = body.push(';');
        assert forall|i: int| 0 <= i < tail.len() implies is_space(#[trigger] tail[i]) by {
            assert(tail[i] == l[body.len() + i]);
        }
        assert(!is_space(';'));
        trim_end_of(b, tail);
        assert(out == b + tail);
        assert(line_body(out) == b);
        assert(out.skip(b.len() as int) =~= tail);
        count_push(body, ';', '{');
        count_push(body, ';', '}');
        assert forall|i: int| 0 <= i < out.len() - 1 implies #[trigger] out[i] != '\n' by {
            if i < body.len() {
                assert(out[i] == body[i]);
                assert(body[i] == l[i]);
                if i == l.len() - 1 {
                    assert(body.last() == l.last());
                    assert(is_space('\n'));
                }
            } else if i > body.len() {
                assert(out[i] == tail[i - body.len() - 1]);
                assert(tail[i - body.len() - 1] == l[i - 1]);
            }
        }
        if tail.len() > 0 {
            assert(out.last() == tail.last());
            assert(tail.last() == l.last());
        } else {
            assert(out.last() == ';');
            assert(l.last() == body.last()) by {
                assert(body =~= l);
            }
            assert(is_space('\n'));
        }
    } else {
        assert(out =~= l) by {
            assert(l =~= l.take(body.len() as int) + l.skip(body.len() as int));
        }
    }
}

proof fn semicolons_settle(s: Seq<Seq<char>>)
    requires
        are_lines(s),
    ensures
        are_lines(with_semicolons(s)),
        lines_injected(with_semicolons(s)).1 == lines_injected(s).1,
        with_semicolons(with_semicolons(s)) == with_semicolons(s),
    decreases s.len(),
{
    let w = with_semicolons(s);
    if s.len() > 0 {
        let front = s.drop_last();
        assert forall|i: int| 0 <= i < front.len() implies is_line(#[trigger] front[i]) && (i
            < front.len() - 1 ==> front[i].last() == '\n') by {
            assert(front[i] == s[i]);
        }
        semicolons_settle(front);
        let v = with_semicolons(front);
        assert(w.drop_last() =~= v) by {
            assert forall|i: int| 0 <= i < front.len() implies #[trigger] w.drop_last()[i]
                == v[i] by {
                assert(s.take(i) =~= front.take(i));
            }
        }
        let n = s.len() - 1;
        let depth = lines_injected(front).1;
        assert(s.take(n) =~= front);
        assert(is_line(s[n]));
        line_injected_settles(depth, s.last());
        assert(w.last() == line_injected(depth, s.last()));
        assert forall|i: int| 0 <= i < w.len() implies is_line(#[trigger] w[i]) && (i < w.len() - 1
            ==> w[i].last() == '\n') by {
            if i < n {
                assert(w[i] == v[i]);
                if i == n - 1 {
                    assert(s[i].last() == '\n');
                    assert(s.take(i) =~= front.take(i));
                    assert(is_line(s[i]));
                    line_injected_settles(lines_injected(s.take(i)).1, s[i]);
                }
            }
        }
        let ww = with_semicolons(w);
        assert forall|i: int| 0 <= i < w.len() implies #[trigger] ww[i] == w[i] by {
            if i < n {
                assert(w.take(i) =~= v.take(i));
                assert(with_semicolons(v)[i] == v[i]);
            } else {
                assert(w.take(n) =~= v);
            }
        }
        assert(ww =~= w);
    } else {
        assert(w =~= s);
        assert(with_semicolons(w) =~= w);
    }
}

/// Injecting semicolons twice does what injecting them once does.
pub proof fn injecting_twice(s: Seq<char>)
    ensures
        injected(injected(s)) == injected(s),
{
    let l = lines(s);
    lines_are_lines(s);
    injected_is_joined(l);
    semicolons_settle(l);
    let w = with_semicolons(l);
    lines_of_joined(w);
    injected_is_joined(w);
}

} // verus!
