//! Where a stylesheet gets its semicolons, and which stylesheets a program has.

use vstd::prelude::*;

use crate::model::{DeclKindV, DeclV, ExprKindV, LiteralV, StmtKindV, StmtV};
use crate::plain::{
    filter_is_selection, is_selection, kept_below, kept_below_selects, same_selection, selects,
    taken_at,
};
use crate::stylesheet::{
    count, injected, injected_is_joined, is_comment, is_line, is_sheet, is_space, is_terminator,
    joined, line_body, line_injected, lines, lines_are_lines, lines_injected, sheet_texts, sheets,
    split_lines, trim_end, trim_start, trimmed_is_space, with_semicolons, without_sheets,
};

verus! {

// ---------------------------------------------------------------------------
// Lines
// ---------------------------------------------------------------------------

/// Whether a character is white space: one of the twenty-five that Unicode
/// counts as such.
pub open spec fn is_white(c: char) -> bool {
    ||| '\u{9}' <= c <= '\u{d}'
    ||| c == ' '
    ||| c == '\u{85}'
    ||| c == '\u{a0}'
    ||| c == '\u{1680}'
    ||| '\u{2000}' <= c <= '\u{200a}'
    ||| c == '\u{2028}'
    ||| c == '\u{2029}'
    ||| c == '\u{202f}'
    ||| c == '\u{205f}'
    ||| c == '\u{3000}'
}

/// Whether the first visible character of a line is at `u`.
pub open spec fn first_visible(line: Seq<char>, u: int) -> bool {
    0 <= u < line.len() && !is_white(line[u]) && forall|j: int|
        0 <= j < u ==> is_white(#[trigger] line[j])
}

/// Whether the last visible character of a line is at `v`.
pub open spec fn last_visible(line: Seq<char>, v: int) -> bool {
    0 <= v < line.len() && !is_white(line[v]) && forall|j: int|
        v < j < line.len() ==> is_white(#[trigger] line[j])
}

/// Whether a comment starts, or goes on, at `u`: with `//`, `/*` or `*`.
pub open spec fn comment_at(line: Seq<char>, u: int) -> bool {
    line[u] == '*' || (line[u] == '/' && u + 1 < line.len() && (line[u + 1] == '/' || line[u + 1]
        == '*'))
}

/// How many braces a text opens more than it closes.
pub open spec fn brace_depth(text: Seq<char>) -> int {
    text.to_multiset().count('{') - text.to_multiset().count('}')
}

/// Whether a line is the other one, which stands in `depth` braces, with the
/// semicolon that it needs. It needs one inside braces, if it is no comment
/// and its last visible character is none of `;`, `{`, `}`, `,`, `/` and `*`;
/// the semicolon goes right after that character.
pub open spec fn is_terminated(out: Seq<char>, line: Seq<char>, depth: int) -> bool {
    &&& (forall|j: int| 0 <= j < line.len() ==> is_white(#[trigger] line[j])) ==> out == line
    &&& forall|u: int, v: int|
        first_visible(line, u) && #[trigger] last_visible(line, v) && #[trigger] comment_at(line, u)
            ==> out == line
    &&& forall|u: int, v: int|
        first_visible(line, u) && #[trigger] last_visible(line, v) && !(#[trigger] comment_at(
            line,
            u,
        )) ==> out == if depth > 0 && !";{},/*"@.contains(line[v]) {
            line.take(v + 1) + seq![';'] + line.skip(v + 1)
        } else {
            line
        }
}

/// Whether a text is made of lines: a line feed ends a line, and only the last
/// line may have none.
pub open spec fn is_made_of(text: Seq<char>, s: Seq<Seq<char>>) -> bool {
    &&& s.flatten() == text
    &&& forall|i: int| 0 <= i < s.len() ==> (#[trigger] s[i]).len() > 0
    &&& forall|i: int, j: int|
        0 <= i < s.len() && 0 <= j < s[i].len() - 1 ==> #[trigger] s[i][j] != '\n'
    &&& forall|i: int| 0 <= i < s.len() - 1 ==> (#[trigger] s[i]).last() == '\n'
}

proof fn joined_is_flat(s: Seq<Seq<char>>)
    ensures
        joined(s) == s.flatten(),
    decreases s.len(),
{
    s.lemma_flatten_and_flatten_alt_are_equivalent();
    if s.len() > 0 {
        joined_is_flat(s.drop_last());
        s.drop_last().lemma_flatten_and_flatten_alt_are_equivalent();
    }
}

proof fn split_joins(s: Seq<char>)
    ensures
        joined(split_lines(s).0) + split_lines(s).1 == s,
    decreases s.len(),
{
    if s.len() > 0 {
        let front = s.drop_last();
        split_joins(front);
        let (done, rest) = split_lines(front);
        if s.last() == '\n' {
            let more = done.push(rest.push('\n'));
            assert(more.drop_last() =~= done);
            assert(joined(more) =~= joined(done) + rest.push('\n'));
            assert(joined(done) + rest.push('\n') =~= (joined(done) + rest).push('\n'));
            assert(s =~= front.push('\n'));
            assert(joined(more) + Seq::<char>::empty() =~= s);
        } else {
            assert(joined(done) + rest.push(s.last()) =~= (joined(done) + rest).push(s.last()));
            assert(s =~= front.push(s.last()));
        }
    } else {
        assert(joined(split_lines(s).0) + split_lines(s).1 =~= s);
    }
}

proof fn lines_join(s: Seq<char>)
    ensures
        joined(lines(s)) == s,
{
    split_joins(s);
    let (done, rest) = split_lines(s);
    if rest.len() > 0 {
        assert(done.push(rest).drop_last() =~= done);
    } else {
        assert(joined(done) + rest =~= joined(done));
    }
}

proof fn counting(s: Seq<char>, c: char)
    ensures
        count(s, c) == s.to_multiset().count(c),
    decreases s.len(),
{
    broadcast use vstd::seq_lib::group_to_multiset_ensures;

    if s.len() > 0 {
        counting(s.drop_last(), c);
        assert(s =~= s.drop_last().push(s.last()));
    } else {
        assert(s.to_multiset().len() == 0);
    }
}

proof fn count_of_sum(a: Seq<char>, b: Seq<char>, c: char)
    ensures
        count(a + b, c) == count(a, c) + count(b, c),
    decreases b.len(),
{
    if b.len() == 0 {
        assert(a + b =~= a);
    } else {
        count_of_sum(a, b.drop_last(), c);
        assert((a + b).drop_last() =~= a + b.drop_last());
        assert((a + b).last() == b.last());
    }
}

proof fn count_of_trimmed(l: Seq<char>, c: char)
    requires
        !is_space(c),
    ensures
        count(trim_end(l), c) == count(l, c),
    decreases l.len(),
{
    if l.len() > 0 && is_space(l.last()) {
        count_of_trimmed(l.drop_last(), c);
    }
}

proof fn depth_of(s: Seq<Seq<char>>)
    ensures
        lines_injected(s).1 == brace_depth(joined(s)),
    decreases s.len(),
{
    let t = joined(s);
    counting(t, '{');
    counting(t, '}');
    if s.len() > 0 {
        let front = s.drop_last();
        depth_of(front);
        counting(joined(front), '{');
        counting(joined(front), '}');
        count_of_sum(joined(front), s.last(), '{');
        count_of_sum(joined(front), s.last(), '}');
        count_of_trimmed(s.last(), '{');
        count_of_trimmed(s.last(), '}');
    }
}

/// White space is what Unicode counts as such.
pub proof fn white_is_space(c: char)
    ensures
        is_white(c) <==> is_space(c),
{
}

/// Leading white space is trimmed, and nothing else.
pub proof fn start_of(s: Seq<char>) -> (u: int)
    ensures
        0 <= u <= s.len(),
        trim_start(s) == s.skip(u),
        forall|j: int| 0 <= j < u ==> is_space(#[trigger] s[j]),
        u < s.len() ==> !is_space(s[u]),
    decreases s.len(),
{
    if s.len() > 0 && is_space(s[0]) {
        let rest = s.skip(1);
        let u = start_of(rest);
        assert(rest.skip(u) =~= s.skip(u + 1));
        assert forall|j: int| 0 <= j < u + 1 implies is_space(#[trigger] s[j]) by {
            if j > 0 {
                assert(rest[j - 1] == s[j]);
            }
        }
        u + 1
    } else {
        assert(s.skip(0) =~= s);
        0
    }
}

proof fn line_is_terminated(depth: int, line: Seq<char>)
    ensures
        is_terminated(line_injected(depth, line), line, depth),
{
    let out = line_injected(depth, line);
    trimmed_is_space(line);
    let t = trim_end(line);
    let body = line_body(line);
    assert forall|c: char| #[trigger] is_white(c) == is_space(c) by {
        white_is_space(c);
    }
    assert(body + line.skip(body.len() as int) =~= line);
    if forall|j: int| 0 <= j < line.len() ==> is_white(#[trigger] line[j]) {
        if t.len() > 0 {
            assert(line[t.len() - 1] == t.last());
        }
        assert(out == line);
    }
    assert forall|u: int, v: int|
        first_visible(line, u) && #[trigger] last_visible(line, v) implies out == if depth > 0
        && !(#[trigger] comment_at(line, u)) && !";{},/*"@.contains(line[v]) {
        line.take(v + 1) + seq![';'] + line.skip(v + 1)
    } else {
        line
    } by {
        // The body ends at the last visible character.
        assert(t.len() == v + 1) by {
            if t.len() <= v {
                assert(is_space(line[v]));
            }
            if t.len() > v + 1 {
                assert(line[t.len() - 1] == t.last());
                assert(is_white(line[t.len() - 1]));
            }
        }
        assert(t.last() == line[v]);
        assert(body == t);
        let w = start_of(body);
        assert(w == u) by {
            if w < u {
                assert(is_white(line[w]));
                assert(body[w] == line[w]);
            }
            if u < w {
                assert(body[u] == line[u]);
                assert(is_space(body[u]));
            }
        }
        let b = body.skip(u);
        assert(b[0] == line[u]);
        if u + 1 < body.len() {
            assert(b[1] == line[u + 1]);
        }
        if comment_at(line, u) && line[u] == '/' {
            assert(!is_space('/') && !is_space('*'));
            assert(u + 1 <= v) by {
                if u + 1 > v {
                    assert(is_white(line[u + 1]));
                }
            }
        }
        assert(is_comment(line) == comment_at(line, u));
        reveal_strlit(";{},/*");
        let marks = ";{},/*"@;
        assert(marks.contains(line[v]) <==> is_terminator(line[v])) by {
            assert(marks[0] == ';' && marks[1] == '{' && marks[2] == '}' && marks[3] == ','
                && marks[4] == '/' && marks[5] == '*');
            assert(marks.len() == 6);
            if marks.contains(line[v]) {
                let i = choose|i: int| 0 <= i < marks.len() && marks[i] == line[v];
            }
        }
        assert(body =~= line.take(v + 1));
        assert(body.push(';') + line.skip(v + 1) =~= line.take(v + 1) + seq![';'] + line.skip(
            v + 1,
        ));
    }
}

/// A stylesheet is injected line by line. Every line gets the semicolon that
/// it needs by the braces of the text before it, and nothing else is changed.
pub proof fn lines_are_terminated(text: Seq<char>) -> (r: (Seq<Seq<char>>, Seq<Seq<char>>))
    ensures
        is_made_of(text, r.0),
        r.1.len() == r.0.len(),
        injected(text) == r.1.flatten(),
        forall|i: int|
            0 <= i < r.0.len() ==> is_terminated(
                #[trigger] r.1[i],
                r.0[i],
                brace_depth(r.0.take(i).flatten()),
            ),
{
    let s = lines(text);
    let out = with_semicolons(s);
    lines_are_lines(text);
    lines_join(text);
    joined_is_flat(s);
    joined_is_flat(out);
    injected_is_joined(s);
    assert forall|i: int| 0 <= i < s.len() implies (#[trigger] s[i]).len() > 0 by {
        assert(is_line(s[i]));
    }
    assert forall|i: int, j: int|
        0 <= i < s.len() && 0 <= j < s[i].len() - 1 implies #[trigger] s[i][j] != '\n' by {
        assert(is_line(s[i]));
    }
    assert forall|i: int| 0 <= i < s.len() implies is_terminated(
        #[trigger] out[i],
        s[i],
        brace_depth(s.take(i).flatten()),
    ) by {
        depth_of(s.take(i));
        joined_is_flat(s.take(i));
        line_is_terminated(lines_injected(s.take(i)).1, s[i]);
    }
    (s, out)
}

// ---------------------------------------------------------------------------
// Stylesheets
// ---------------------------------------------------------------------------

/// Whether a declaration carries stylesheets.
pub open spec fn carries_sheets(d: DeclV) -> bool {
    d.kind matches DeclKindV::Function(f) && f.name == "__blinc_stylesheet__"@
}

/// Whether a statement is a string literal.
pub open spec fn is_text(s: StmtV) -> bool {
    s.kind matches StmtKindV::Expression(e) && e.kind matches ExprKindV::Literal(LiteralV::String(_))
}

/// Whether texts are the stylesheets of a declaration: the string literals of
/// its body, with their semicolons.
pub open spec fn are_sheets_of(out: Seq<Seq<char>>, d: DeclV) -> bool {
    if carries_sheets(d) && d.kind->Function_0.body is Some {
        let s = d.kind->Function_0.body->0.statements;
        exists|at: Seq<int>| #[trigger] are_sheets_at(out, s, at)
    } else {
        out.len() == 0
    }
}

/// Whether texts are the stylesheets that stand at some places of a body.
pub open spec fn are_sheets_at(out: Seq<Seq<char>>, s: Seq<StmtV>, at: Seq<int>) -> bool {
    &&& selects(at, s.len() as int, |k: int| is_text(s[k]))
    &&& out.len() == at.len()
    &&& forall|i: int|
        0 <= i < out.len() ==> is_sheet_text(#[trigger] out[i], s[at[i]])
}

/// Whether a text is the stylesheet that a string literal holds.
pub open spec fn is_sheet_text(out: Seq<char>, s: StmtV) -> bool {
    s.kind matches StmtKindV::Expression(e) && (e.kind matches ExprKindV::Literal(
        LiteralV::String(text),
    ) && out == injected(text))
}

proof fn texts_at(s: Seq<StmtV>, n: nat)
    requires
        n <= s.len(),
    ensures
        ({
            let at = kept_below(n, |k: int| is_text(s[k]));
            let out = sheet_texts(s.take(n as int));
            out.len() == at.len() && forall|i: int|
                0 <= i < out.len() ==> is_sheet_text(#[trigger] out[i], s[at[i]])
        }),
    decreases n,
{
    if n > 0 {
        let m = (n - 1) as nat;
        texts_at(s, m);
        assert(s.take(n as int).drop_last() =~= s.take(m as int));
        let last = s[m as int];
        assert(s.take(n as int).last() == last);
        let at0 = kept_below(m, |k: int| is_text(s[k]));
        let at = kept_below(n, |k: int| is_text(s[k]));
        let out0 = sheet_texts(s.take(m as int));
        let out = sheet_texts(s.take(n as int));
        assert forall|i: int| 0 <= i < out.len() implies is_sheet_text(
            #[trigger] out[i],
            s[at[i]],
        ) by {
            if i < out0.len() {
                assert(out[i] == out0[i]);
                assert(at[i] == at0[i]);
            }
        }
    }
}

proof fn sheets_by_declaration(s: Seq<DeclV>) -> (parts: Seq<Seq<Seq<char>>>)
    ensures
        parts.len() == s.len(),
        parts.flatten() == sheets(s),
        forall|i: int| 0 <= i < s.len() ==> are_sheets_of(#[trigger] parts[i], s[i]),
    decreases s.len(),
{
    if s.len() == 0 {
        let parts: Seq<Seq<Seq<char>>> = seq![];
        assert(parts.flatten() =~= sheets(s));
        parts
    } else {
        let d = s.last();
        let front = sheets_by_declaration(s.drop_last());
        let last: Seq<Seq<char>> = match d.kind {
            DeclKindV::Function(f) => if is_sheet(d) && f.body is Some {
                sheet_texts(f.body->0.statements)
            } else {
                seq![]
            },
            _ => seq![],
        };
        let parts = front.push(last);
        parts.lemma_flatten_and_flatten_alt_are_equivalent();
        front.lemma_flatten_and_flatten_alt_are_equivalent();
        assert(parts.drop_last() =~= front);
        assert(parts.flatten() =~= front.flatten() + last);
        assert(sheets(s) =~= sheets(s.drop_last()) + last);
        assert(are_sheets_of(last, d)) by {
            match d.kind {
                DeclKindV::Function(f) => {
                    if is_sheet(d) && f.body is Some {
                        let st = f.body->0.statements;
                        texts_at(st, st.len());
                        assert(st.take(st.len() as int) =~= st);
                        kept_below_selects(st.len(), |k: int| is_text(st[k]));
                        assert(are_sheets_at(last, st, kept_below(st.len(), |k: int| is_text(st[k]))));
                    }
                },
                _ => {},
            }
        }
        assert forall|i: int| 0 <= i < s.len() implies are_sheets_of(#[trigger] parts[i], s[i]) by {
            if i < front.len() {
                assert(parts[i] == front[i]);
                assert(s.drop_last()[i] == s[i]);
            }
        }
        parts
    }
}

/// The stylesheets of a program are the string literals in the bodies of the
/// functions `__blinc_stylesheet__`, in the order of the source. Those
/// functions are dropped and the other declarations stand in their order.
pub proof fn stylesheets_are_extracted(s: Seq<DeclV>) -> (parts: Seq<Seq<Seq<char>>>)
    ensures
        parts.len() == s.len(),
        sheets(s) == parts.flatten(),
        forall|i: int| 0 <= i < s.len() ==> are_sheets_of(#[trigger] parts[i], s[i]),
        is_selection(without_sheets(s), s, |i: int| !carries_sheets(s[i])),
{
    let f = |d: DeclV| !is_sheet(d);
    filter_is_selection(s, f);
    let a = |i: int| f(s[i]);
    let b = |i: int| !carries_sheets(s[i]);
    let at = choose|at: Seq<int>| #[trigger]
        selects(at, s.len() as int, a) && s.filter(f) == taken_at(s, at);
    assert forall|i: int| 0 <= i < s.len() implies #[trigger] a(i) == b(i) by {}
    same_selection(at, s.len() as int, a, b);
    sheets_by_declaration(s)
}

} // verus!
