//! What the host functions do with numbers, texts and styles.

use vstd::prelude::*;
use vstd::utf8::{encode_utf8, is_ascii_chars, is_ascii_chars_encode_utf8, valid_utf8};

use crate::host::{
    first_dot, frame, frame_text, framed_text_reads_back, int_frame, is_frame, joined_frame,
    le_bytes, le_value, live_handles, name_to_read, payload, signal_name, split_words, text_drawn,
    text_or_stand_in, triggered_event, trim, unquoted, words, written_text, DslOpV,
};
use crate::overlay::{overlaid, RenderProps, RenderPropsOverlay};
use crate::plain::{filter_is_selection, is_selection, same_selection, selects, taken_at};
use crate::sheet_laws::{first_visible, is_white, last_visible, start_of, white_is_space};
use crate::stylesheet::{is_space, trim_end, trimmed_is_space};
use crate::text::{decimal, digit_char, signed_decimal};

verus! {

// ---------------------------------------------------------------------------
// Numbers
// ---------------------------------------------------------------------------

/// The digit that a character stands for.
pub open spec fn digit_value(c: char) -> int {
    c as int - '0' as int
}

/// The number that a text of digits stands for: every digit counts ten times
/// what it would count one place further right.
pub open spec fn read_decimal(s: Seq<char>) -> int
    decreases s.len(),
{
    if s.len() == 0 {
        0
    } else {
        10 * read_decimal(s.drop_last()) + digit_value(s.last())
    }
}

/// A natural number is written in decimal digits that read back as the number,
/// without leading zeros.
pub proof fn decimal_reads_back(n: nat)
    ensures
        read_decimal(decimal(n)) == n,
        decimal(n).len() > 0,
        forall|i: int| 0 <= i < decimal(n).len() ==> '0' <= #[trigger] decimal(n)[i] <= '9',
        decimal(n).len() > 1 ==> decimal(n)[0] != '0',
        decimal(n)[0] == '0' ==> n == 0,
    decreases n,
{
    if n < 10 {
        let s = decimal(n);
        assert(s.drop_last() =~= Seq::<char>::empty());
        assert(read_decimal(s.drop_last()) == 0);
        assert(digit_char(n) as int == 48 + n);
    } else {
        decimal_reads_back(n / 10);
        let s = decimal(n);
        let front = decimal(n / 10);
        assert(s.drop_last() =~= front);
        assert(digit_char(n % 10) as int == 48 + n % 10);
        assert forall|i: int| 0 <= i < s.len() implies '0' <= #[trigger] s[i] <= '9' by {
            if i < front.len() {
                assert(s[i] == front[i]);
            }
        }
        assert(s[0] == front[0]);
        assert(n / 10 > 0);
    }
}

/// A negative number is written as its absolute value after a minus sign.
pub proof fn signed_decimal_reads_back(n: int)
    ensures
        n >= 0 ==> read_decimal(signed_decimal(n)) == n && signed_decimal(n)[0] != '-',
        n < 0 ==> signed_decimal(n)[0] == '-' && read_decimal(signed_decimal(n).skip(1)) == -n,
{
    if n < 0 {
        decimal_reads_back((-n) as nat);
        assert(signed_decimal(n).skip(1) =~= decimal((-n) as nat));
    } else {
        decimal_reads_back(n as nat);
    }
}

// ---------------------------------------------------------------------------
// Frames
// ---------------------------------------------------------------------------

/// Whether bytes start with a number in four bytes, the lowest first.
pub open spec fn starts_with_number(b: Seq<u8>, n: int) -> bool {
    b.len() >= 4 && n == b[0] + b[1] * 0x100 + b[2] * 0x1_0000 + b[3] * 0x100_0000
}

/// The frame of a text is its length, in four bytes with the lowest first, and
/// its bytes.
pub proof fn frame_is_length_and_bytes(s: Seq<char>)
    requires
        encode_utf8(s).len() <= u32::MAX,
    ensures
        frame(s).len() == 4 + encode_utf8(s).len(),
        starts_with_number(frame(s), encode_utf8(s).len() as int),
        frame(s).skip(4) == encode_utf8(s),
{
    let n = encode_utf8(s).len() as u32;
    let b = le_bytes(n);
    assert(frame(s).skip(4) =~= encode_utf8(s));
    assert(b[0] as int == n as int % 256);
    assert(b[1] as int == n as int / 256 % 256);
    assert(b[2] as int == n as int / 65536 % 256);
    assert(b[3] as int == n as int / 16777216 % 256);
    digits_of(n as int);
}

proof fn digits_of(n: int)
    requires
        0 <= n <= u32::MAX,
    ensures
        n == n % 256 + (n / 256 % 256) * 0x100 + (n / 65536 % 256) * 0x1_0000 + (n / 16777216 % 256)
            * 0x100_0000,
{
    assert(n / 256 / 256 == n / 65536);
    assert(n / 65536 / 256 == n / 16777216);
    assert(n / 16777216 < 256);
}

/// Bytes that start with a length carry the text whose bytes follow: as many
/// as the length says, whatever comes after them.
pub proof fn frame_carries_text(b: Seq<u8>, s: Seq<char>, n: int)
    requires
        starts_with_number(b, n),
        n == encode_utf8(s).len(),
        n <= i32::MAX,
        4 + n <= b.len(),
        b.subrange(4, 4 + n) == encode_utf8(s),
    ensures
        is_frame(b),
        frame_text(b) == Some(s),
        text_or_stand_in(Some(b)) == s,
        signal_name(Some(b)) == Some(unquoted(s)),
{
    framed_text_reads_back(s);
    assert(payload(frame(s)) == payload(b)) by {
        frame_is_length_and_bytes(s);
        assert(le_value(frame(s)) == n);
        assert(frame(s).subrange(4, 4 + n) =~= frame(s).skip(4));
    }
}

/// A missing frame reads as the empty text and names nothing. Bytes that are
/// no text read as a notice and name nothing either.
pub proof fn missing_frames_name_nothing(b: Seq<u8>)
    requires
        is_frame(b),
        !valid_utf8(b.subrange(4, 4 + le_value(b))),
    ensures
        text_or_stand_in(None).len() == 0,
        signal_name(None) is None,
        text_or_stand_in(Some(b)) == "<invalid utf-8>"@,
        signal_name(Some(b)) is None,
{
}

/// Joining two frames gives a frame that carries the first text and after it
/// the second. A missing frame adds nothing.
pub proof fn joined_frame_carries_both(a: Seq<u8>, b: Seq<u8>, s: Seq<char>, t: Seq<char>)
    requires
        frame_text(a) == Some(s),
        frame_text(b) == Some(t),
        encode_utf8(s + t).len() <= i32::MAX,
        encode_utf8(s).len() <= i32::MAX,
        encode_utf8(t).len() <= i32::MAX,
    ensures
        frame_text(joined_frame(Some(a), Some(b))) == Some(s + t),
        frame_text(joined_frame(Some(a), None)) == Some(s),
        frame_text(joined_frame(None, Some(b))) == Some(t),
{
    framed_text_reads_back(s + t);
    framed_text_reads_back(s);
    framed_text_reads_back(t);
    let none: Seq<char> = seq![];
    assert(s + none =~= s);
    assert(none + t =~= t);
}

/// A formatted number is a frame whose text reads back as the number.
pub proof fn formatted_number_reads_back(n: i32)
    ensures
        frame_text(int_frame(n)) is Some,
        n >= 0 ==> read_decimal(frame_text(int_frame(n))->0) == n,
        n < 0 ==> frame_text(int_frame(n))->0[0] == '-' && read_decimal(
            frame_text(int_frame(n))->0.skip(1),
        ) == -n,
{
    let s = signed_decimal(n as int);
    let m: nat = if n < 0 {
        (-n) as nat
    } else {
        n as nat
    };
    decimal_reads_back(m);
    decimal_is_short(m);
    assert forall|i: int| 0 <= i < s.len() implies '-' <= #[trigger] s[i] <= '9' by {
        if n < 0 && i > 0 {
            assert(s[i] == decimal(m)[i - 1]);
        } else if n >= 0 {
            assert(s[i] == decimal(m)[i]);
        }
    }
    assert(is_ascii_chars(s));
    is_ascii_chars_encode_utf8(s);
    framed_text_reads_back(s);
    signed_decimal_reads_back(n as int);
}

proof fn decimal_is_short(n: nat)
    ensures
        decimal(n).len() <= n / 2 + 1,
    decreases n,
{
    if n >= 10 {
        decimal_is_short(n / 10);
    }
}

/// What is read, written or drawn is the text of a frame without the quotes
/// around it. Of a missing frame nothing is read or drawn, and the empty text
/// is written. Where the bytes are no text, a notice is read and drawn, and the
/// empty text is written.
pub proof fn frames_are_read_and_written(
    b: Seq<u8>,
    s: Seq<char>,
    inner: Seq<char>,
    ops: Seq<DslOpV>,
)
    ensures
        frame_text(b) == Some(s) && s == seq!['"'] + inner + seq!['"'] ==> {
            &&& name_to_read(Some(b)) == Some(inner)
            &&& written_text(Some(b)) == inner
            &&& text_drawn(ops, Some(b)) == ops.push(DslOpV::Text(inner))
        },
        frame_text(b) == Some(s) && (forall|t: Seq<char>|
            s != #[trigger] (seq!['"'] + t) + seq!['"']) ==> {
            &&& name_to_read(Some(b)) == Some(s)
            &&& written_text(Some(b)) == s
            &&& text_drawn(ops, Some(b)) == ops.push(DslOpV::Text(s))
        },
        frame_text(b) is None ==> {
            &&& name_to_read(Some(b)) == Some("<invalid utf-8>"@)
            &&& written_text(Some(b)).len() == 0
            &&& text_drawn(ops, Some(b)) == ops.push(DslOpV::Text("<invalid utf-8>"@))
        },
        name_to_read(None) is None,
        written_text(None).len() == 0,
        text_drawn(ops, None) == ops,
{
    one_pair_of_quotes_is_lost(s, inner);
    reveal_strlit("<invalid utf-8>");
    assert("<invalid utf-8>"@[0] != '"');
}

/// A text loses the quotes around it, one pair of them; any other text stays
/// as it is.
pub proof fn one_pair_of_quotes_is_lost(s: Seq<char>, inner: Seq<char>)
    ensures
        s == seq!['"'] + inner + seq!['"'] ==> unquoted(s) == inner,
        (forall|t: Seq<char>| s != #[trigger] (seq!['"'] + t) + seq!['"']) ==> unquoted(s) == s,
{
    if s == seq!['"'] + inner + seq!['"'] {
        assert(s.subrange(1, s.len() - 1) =~= inner);
    }
    if s.len() >= 2 && s[0] == '"' && s.last() == '"' {
        let t = s.subrange(1, s.len() - 1);
        assert(s =~= (seq!['"'] + t) + seq!['"']);
    }
}

// ---------------------------------------------------------------------------
// Words
// ---------------------------------------------------------------------------

/// Whether a text holds a word from `a` to `b`: a run of visible characters
/// that no visible character adjoins.
pub open spec fn is_word(s: Seq<char>, a: int, b: int) -> bool {
    &&& 0 <= a < b <= s.len()
    &&& forall|k: int| a <= k < b ==> !is_white(#[trigger] s[k])
    &&& a > 0 ==> is_white(s[a - 1])
    &&& b < s.len() ==> is_white(s[b])
}

/// Whether a text is the word that another one holds from `a` to `b`.
pub open spec fn is_word_at(out: Seq<char>, s: Seq<char>, a: int, b: int) -> bool {
    is_word(s, a, b) && out == s.subrange(a, b)
}

/// Whether words are those of a text, from the first to the last: `from` and
/// `to` say where they stand.
pub open spec fn are_words(
    out: Seq<Seq<char>>,
    s: Seq<char>,
    from: Seq<int>,
    to: Seq<int>,
) -> bool {
    &&& from.len() == out.len() && to.len() == out.len()
    &&& forall|i: int|
        0 <= i < out.len() ==> is_word_at(#[trigger] out[i], s, from[i], to[i])
    &&& forall|i: int, j: int| 0 <= i < j < out.len() ==> #[trigger] to[i] < #[trigger] from[j]
    &&& forall|k: int|
        0 <= k < s.len() && !is_white(#[trigger] s[k]) ==> is_covered(from, to, k)
}

/// Whether a place is in one of the runs from `from` to `to`.
pub open spec fn is_covered(from: Seq<int>, to: Seq<int>, k: int) -> bool {
    exists|i: int| 0 <= i < from.len() && (#[trigger] from[i]) <= k && k < to[i]
}

/// Whether the words of a text so far stand at some places, with the last one
/// begun at `start`.
spec fn words_so_far(
    done: Seq<Seq<char>>,
    word: Seq<char>,
    s: Seq<char>,
    from: Seq<int>,
    to: Seq<int>,
) -> bool {
    let start = s.len() - word.len();
    &&& from.len() == done.len() && to.len() == done.len()
    &&& 0 <= start
    &&& word == s.skip(start)
    &&& forall|k: int| start <= k < s.len() ==> !is_white(#[trigger] s[k])
    &&& start > 0 ==> is_white(s[start - 1])
    &&& forall|i: int|
        0 <= i < done.len() ==> is_word_at(#[trigger] done[i], s, from[i], to[i]) && to[i] < start
    &&& forall|i: int, j: int| 0 <= i < j < done.len() ==> #[trigger] to[i] < #[trigger] from[j]
    &&& forall|k: int|
        0 <= k < start && !is_white(#[trigger] s[k]) ==> is_covered(from, to, k)
}

proof fn splitting(s: Seq<char>) -> (r: (Seq<int>, Seq<int>))
    ensures
        words_so_far(split_words(s).0, split_words(s).1, s, r.0, r.1),
    decreases s.len(),
{
    if s.len() == 0 {
        assert(s.skip(0) =~= Seq::<char>::empty());
        let none: Seq<int> = seq![];
        assert(words_so_far(split_words(s).0, split_words(s).1, s, none, none));
        (none, none)
    } else {
        let front = s.drop_last();
        let n = front.len() as int;
        let (from0, to0) = splitting(front);
        let (done0, word0) = split_words(front);
        let (done, word) = split_words(s);
        let start0 = n - word0.len();
        let c = s.last();
        white_is_space(c);
        assert forall|k: int|
            #![trigger s[k]]
            #![trigger front[k]]
            0 <= k < n implies s[k] == front[k] by {}
        if is_space(c) {
            let (from, to) = if word0.len() > 0 {
                (from0.push(start0), to0.push(n))
            } else {
                (from0, to0)
            };
            assert(word =~= s.skip(s.len() as int));
            assert forall|i: int| 0 <= i < done.len() implies is_word_at(
                #[trigger] done[i],
                s,
                from[i],
                to[i],
            ) && to[i] < s.len() by {
                if i < done0.len() {
                    assert(done[i] == done0[i]);
                    assert(is_word_at(done0[i], front, from0[i], to0[i]));
                    assert(front.subrange(from0[i], to0[i]) =~= s.subrange(from0[i], to0[i]));
                } else {
                    assert(done[i] == word0);
                    assert(front.skip(start0) =~= s.subrange(start0, n));
                    assert(is_word(s, start0, n));
                }
            }
            assert forall|k: int| 0 <= k < s.len() && !is_white(#[trigger] s[k]) implies is_covered(
                from,
                to,
                k,
            ) by {
                assert(k < n);
                assert(front[k] == s[k]);
                if k < start0 {
                    assert(is_covered(from0, to0, k));
                    let i = choose|i: int|
                        0 <= i < from0.len() && (#[trigger] from0[i]) <= k && k < to0[i];
                    assert(from[i] == from0[i] && to[i] == to0[i]);
                } else {
                    assert(from[done0.len() as int] == start0);
                }
            }
            assert forall|i: int, j: int| 0 <= i < j < done.len() implies #[trigger] to[i]
                < #[trigger] from[j] by {
                assert(done0[i] == done[i]);
                if j < done0.len() {
                    assert(to[i] == to0[i] && from[j] == from0[j]);
                } else {
                    assert(to0[i] < start0);
                }
            }
            assert(words_so_far(done, word, s, from, to));
            (from, to)
        } else {
            assert(done == done0);
            assert(word =~= s.skip(start0)) by {
                assert(word0 == front.skip(start0));
            }
            assert forall|i: int| 0 <= i < done.len() implies is_word_at(
                #[trigger] done[i],
                s,
                from0[i],
                to0[i],
            ) && to0[i] < start0 by {
                assert(done0[i] == done[i]);
                assert(is_word_at(done0[i], front, from0[i], to0[i]));
                assert(to0[i] < start0);
                assert(front[to0[i]] == s[to0[i]]);
                assert(front.subrange(from0[i], to0[i]) =~= s.subrange(from0[i], to0[i]));
            }
            assert forall|k: int| 0 <= k < start0 && !is_white(#[trigger] s[k]) implies is_covered(
                from0,
                to0,
                k,
            ) by {
                assert(front[k] == s[k]);
            }
            assert(s.len() - word.len() == start0);
            assert forall|k: int| start0 <= k < s.len() implies !is_white(#[trigger] s[k]) by {
                if k < n {
                    assert(front[k] == s[k]);
                }
            }
            if start0 > 0 {
                assert(s[start0 - 1] == front[start0 - 1]);
            }
            assert(words_so_far(done, word, s, from0, to0));
            (from0, to0)
        }
    }
}

/// The words of a text are its runs of visible characters, in their order.
pub proof fn words_are_visible_runs(s: Seq<char>) -> (r: (Seq<int>, Seq<int>))
    ensures
        are_words(words(s), s, r.0, r.1),
{
    let (from, to) = splitting(s);
    let (done, word) = split_words(s);
    let n = s.len() as int;
    let start = n - word.len();
    if word.len() > 0 {
        let f = from.push(start);
        let t = to.push(n);
        let out = done.push(word);
        assert(s.skip(start) =~= s.subrange(start, n));
        assert forall|i: int| 0 <= i < out.len() implies is_word_at(
            #[trigger] out[i],
            s,
            f[i],
            t[i],
        ) by {
            if i < done.len() {
                assert(out[i] == done[i]);
            }
        }
        assert forall|i: int, j: int| 0 <= i < j < out.len() implies #[trigger] t[i]
            < #[trigger] f[j] by {
            assert(done[i] == out[i]);
            if j < done.len() {
                assert(t[i] == to[i] && f[j] == from[j]);
            }
        }
        assert forall|k: int| 0 <= k < s.len() && !is_white(#[trigger] s[k]) implies is_covered(f, t, k) by {
            if k < start {
                assert(is_covered(from, to, k));
                let i = choose|i: int|
                    0 <= i < from.len() && (#[trigger] from[i]) <= k && k < to[i];
                assert(f[i] == from[i] && t[i] == to[i]);
            } else {
                assert(f[done.len() as int] == start);
            }
        }
        (f, t)
    } else {
        (from, to)
    }
}

// ---------------------------------------------------------------------------
// Children
// ---------------------------------------------------------------------------

/// The widgets of a child list are its handles other than 0, in their order.
pub proof fn null_handles_are_skipped(s: Seq<i64>)
    ensures
        is_selection(live_handles(s), s, |k: int| s[k] != 0),
{
    let f = |h: i64| h != 0;
    filter_is_selection(s, f);
    let a = |k: int| f(s[k]);
    let b = |k: int| s[k] != 0;
    let at = choose|at: Seq<int>| #[trigger]
        selects(at, s.len() as int, a) && s.filter(f) == taken_at(s, at);
    same_selection(at, s.len() as int, a, b);
}

// ---------------------------------------------------------------------------
// Triggers
// ---------------------------------------------------------------------------

/// Whether a text is the other one from its first to its last visible
/// character.
pub open spec fn is_bare(out: Seq<char>, s: Seq<char>) -> bool {
    &&& forall|u: int, v: int| #[trigger]
        first_visible(s, u) && #[trigger] last_visible(s, v) ==> out == s.subrange(u, v + 1)
    &&& (forall|k: int| 0 <= k < s.len() ==> is_white(#[trigger] s[k])) ==> out.len() == 0
}

proof fn trimming_bares(s: Seq<char>)
    ensures
        is_bare(trim(s), s),
{
    assert forall|c: char| #[trigger] is_white(c) == is_space(c) by {
        white_is_space(c);
    }
    let w = start_of(s);
    let t = s.skip(w);
    trimmed_is_space(t);
    let out = trim_end(t);
    assert forall|u: int, v: int| #[trigger]
        first_visible(s, u) && #[trigger] last_visible(s, v) implies out == s.subrange(
        u,
        v + 1,
    ) by {
        assert(w == u) by {
            if w < u {
                assert(is_white(s[w]));
            }
            if u < w {
                assert(is_space(s[u]));
            }
        }
        assert(u <= v) by {
            if v < u {
                assert(is_white(s[u]));
            }
        }
        assert(t[v - u] == s[v]);
        if out.len() <= v - u {
            assert(is_space(t[v - u]));
        }
        if out.len() > v - u + 1 {
            assert(t[out.len() - 1] == out.last());
            assert(s[w + out.len() - 1] == out.last());
            assert(is_white(s[w + out.len() - 1]));
        }
        assert(out =~= s.subrange(u, v + 1));
    }
    if forall|k: int| 0 <= k < s.len() ==> is_white(#[trigger] s[k]) {
        if w < s.len() {
            assert(is_white(s[w]));
        }
    }
}

proof fn dot_is_first(s: Seq<char>)
    ensures
        match first_dot(s) {
            Some(i) => 0 <= i < s.len() && s[i] == '.' && forall|k: int|
                0 <= k < i ==> #[trigger] s[k] != '.',
            None => forall|k: int| 0 <= k < s.len() ==> #[trigger] s[k] != '.',
        },
    decreases s.len(),
{
    if s.len() > 0 {
        let front = s.drop_last();
        dot_is_first(front);
        assert forall|k: int|
            #![trigger s[k]]
            #![trigger front[k]]
            0 <= k < front.len() implies s[k] == front[k] by {}
        if first_dot(s) is None {
            assert forall|k: int| 0 <= k < s.len() implies #[trigger] s[k] != '.' by {
                if k < front.len() {
                    assert(front[k] == s[k]);
                }
            }
        }
    }
}

/// A path `State.Event` dispatches its event on a machine that is in its
/// state, and nothing on a machine that is in no or another state. The first
/// full stop parts the two, and white space around either does not count. A
/// path without a full stop dispatches nothing.
pub proof fn path_dispatches_in_its_state(
    path: Seq<char>,
    current: Option<Seq<char>>,
    i: int,
) -> (r: (Seq<char>, Seq<char>))
    ensures
        (forall|k: int| 0 <= k < path.len() ==> #[trigger] path[k] != '.') ==> triggered_event(
            path,
            current,
        ) is None,
        0 <= i < path.len() && path[i] == '.' && (forall|k: int|
            0 <= k < i ==> #[trigger] path[k] != '.') ==> {
            let (state, event) = r;
            &&& is_bare(state, path.take(i))
            &&& is_bare(event, path.skip(i + 1))
            &&& current == Some(state) ==> triggered_event(path, current) == Some(event)
            &&& current != Some(state) ==> triggered_event(path, current) is None
        },
{
    dot_is_first(path);
    trimming_bares(path.take(i));
    trimming_bares(path.skip(i + 1));
    if 0 <= i < path.len() && path[i] == '.' && (forall|k: int|
        0 <= k < i ==> #[trigger] path[k] != '.') {
        let q = first_dot(path)->0;
        if q < i {
            assert(path[q] != '.');
        } else if i < q {
            assert(path[i] != '.');
        }
        assert(q == i);
    }
    (trim(path.take(i)), trim(path.skip(i + 1)))
}

// ---------------------------------------------------------------------------
// Styles
// ---------------------------------------------------------------------------

/// An overlay sets each property from the field of that name and from no
/// other: the property has the value of the field where there is one, and
/// stays as it was where there is none. A corner radius is for all corners.
pub proof fn overlay_sets_property_by_field(o: RenderPropsOverlay, base: RenderProps)
    ensures
        ({
            let out = overlaid(o, base);
            &&& o.background is Some ==> out.background == o.background
            &&& o.background is None ==> out.background == base.background
            &&& o.opacity is Some ==> out.opacity == o.opacity->0
            &&& o.opacity is None ==> out.opacity == base.opacity
            &&& o.corner_radius is Some ==> {
                &&& out.border_radius.top_left == o.corner_radius->0
                &&& out.border_radius.top_right == o.corner_radius->0
                &&& out.border_radius.bottom_left == o.corner_radius->0
                &&& out.border_radius.bottom_right == o.corner_radius->0
                &&& out.border_radius_explicit
            }
            &&& o.corner_radius is None ==> {
                &&& out.border_radius == base.border_radius
                &&& out.border_radius_explicit == base.border_radius_explicit
            }
            &&& o.border_width is Some ==> out.border_width == o.border_width->0
            &&& o.border_width is None ==> out.border_width == base.border_width
            &&& o.border_color is Some ==> out.border_color == o.border_color
            &&& o.border_color is None ==> out.border_color == base.border_color
        }),
{
}

} // verus!
