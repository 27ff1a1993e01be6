//! What the host functions compute behind their raw pointers: strings in
//! transit, the scene buffer, and the machine trigger.
//!
//! A string travels as its length in bytes, four bytes with the lowest first,
//! followed by its UTF-8 bytes. A missing frame stands for a null pointer.

use vstd::prelude::*;
use vstd::string::*;
use vstd::utf8::{
    decode_utf8, encode_utf8, encode_utf8_decode_utf8, encode_utf8_valid_utf8, valid_utf8,
};

use crate::ast::views;
use crate::stylesheet::{char_is_space, is_space, trim_end, trim_start};
use crate::text::{
    format_signed, from_chars, names_view, opt_name, opt_text, signed_decimal, to_chars,
};

verus! {

// ---------------------------------------------------------------------------
// Strings in transit
// ---------------------------------------------------------------------------

/// `std::str::from_utf8` gives back the text that some bytes encode exactly
/// when they are valid UTF-8.
#[verifier::external_body]
fn utf8_text(bytes: &Vec<u8>) -> (r: Option<String>)
    ensures
        match r {
            Some(s) => valid_utf8(bytes@) && s@ == decode_utf8(bytes@),
            None => !valid_utf8(bytes@),
        },
{
    match std::str::from_utf8(bytes.as_slice()) {
        Ok(s) => Some(s.to_owned()),
        Err(_) => None,
    }
}

/// The four bytes of a number, the lowest first.
pub open spec fn le_bytes(n: u32) -> Seq<u8> {
    seq![
        (n % 256) as u8,
        (n / 256 % 256) as u8,
        (n / 65536 % 256) as u8,
        (n / 16777216 % 256) as u8,
    ]
}

/// The number that four bytes stand for.
pub open spec fn le_value(b: Seq<u8>) -> int {
    b[0] + 256 * b[1] + 65536 * b[2] + 16777216 * b[3]
}

/// The frame of a text. The length is cut to 32 bits.
pub open spec fn frame(s: Seq<char>) -> Seq<u8> {
    le_bytes((encode_utf8(s).len() % 0x1_0000_0000) as u32) + encode_utf8(s)
}

/// Whether bytes are a frame: the length, which is no negative number, and at
/// least that many bytes.
pub open spec fn is_frame(b: Seq<u8>) -> bool {
    b.len() >= 4 && le_value(b) <= i32::MAX && 4 + le_value(b) <= b.len()
}

/// The bytes that a frame carries.
pub open spec fn payload(b: Seq<u8>) -> Seq<u8> {
    b.subrange(4, 4 + le_value(b))
}

/// The text that a frame carries, if its bytes are valid.
pub open spec fn frame_text(b: Seq<u8>) -> Option<Seq<char>> {
    if valid_utf8(payload(b)) {
        Some(decode_utf8(payload(b)))
    } else {
        None
    }
}

/// The text of a frame, with stand-ins for a missing one and for bytes that
/// are no text.
pub open spec fn text_or_stand_in(b: Option<Seq<u8>>) -> Seq<char> {
    match b {
        Some(bytes) => match frame_text(bytes) {
            Some(s) => s,
            None => "<invalid utf-8>"@,
        },
        None => seq![],
    }
}

/// The bytes behind an optional reference.
pub open spec fn frame_view(b: Option<&Vec<u8>>) -> Option<Seq<u8>> {
    match b {
        Some(v) => Some(v@),
        None => None,
    }
}

/// A missing frame, or one that is well formed.
pub open spec fn is_frame_or_null(b: Option<&Vec<u8>>) -> bool {
    b is Some ==> is_frame(b->0@)
}

/// The frame of a text.
pub fn blinc_string_alloc(s: &str) -> (b: Vec<u8>)
    ensures
        b@ == frame(s@),
{
    let bytes: &[u8] = s.as_bytes();
    let len: usize = bytes.len();
    let n: u32 = #[verifier::truncate] (len as u32);
    assert(n == (len as nat % 0x1_0000_0000) as u32) by {
        low_bits(len);
    }
    let mut b: Vec<u8> = Vec::new();
    b.push((n % 256) as u8);
    b.push((n / 256 % 256) as u8);
    b.push((n / 65536 % 256) as u8);
    b.push((n / 16777216 % 256) as u8);
    assert(b@ =~= le_bytes(n));
    for i in 0..len
        invariant
            len == bytes@.len(),
            b@ == le_bytes(n) + bytes@.take(i as int),
    {
        assert(bytes@.take(i + 1) =~= bytes@.take(i as int).push(bytes@[i as int]));
        b.push(bytes[i]);
        assert(b@ =~= le_bytes(n) + bytes@.take(i + 1));
    }
    assert(bytes@.take(len as int) =~= bytes@);
    b
}

proof fn low_bits(n: usize)
    ensures
        n as u32 == (n as nat % 0x1_0000_0000) as u32,
{
    let w = n as u64;
    assert(w as u32 == (w % 0x1_0000_0000) as u32) by (bit_vector);
    assert(n as u32 == w as u32);
}

/// The text of a frame; empty for a null pointer, and a stand-in where the
/// bytes are no text.
pub fn blinc_string_decode(b: Option<&Vec<u8>>) -> (r: String)
    requires
        is_frame_or_null(b),
    ensures
        r@ == text_or_stand_in(frame_view(b)),
{
    match b {
        Some(bytes) => match read_frame(bytes) {
            Some(s) => s,
            None => "<invalid utf-8>".to_owned(),
        },
        None => {
            let r: String = String::new();
            assert(r@ =~= Seq::<char>::empty());
            r
        },
    }
}

fn read_frame(b: &Vec<u8>) -> (r: Option<String>)
    requires
        is_frame(b@),
    ensures
        opt_text(r) == frame_text(b@),
{
    let n: u64 = b[0] as u64 + 256 * (b[1] as u64) + 65536 * (b[2] as u64) + 16777216 * (
    b[3] as u64);
    let len: usize = n as usize;
    let total: usize = b.len();
    let mut body: Vec<u8> = Vec::new();
    for i in 0..len
        invariant
            len == le_value(b@),
            4 + len <= total,
            total == b@.len(),
            body@ == b@.subrange(4, 4 + i),
    {
        assert(b@.subrange(4, 4 + i + 1) =~= b@.subrange(4, 4 + i).push(b@[4 + i]));
        body.push(b[4 + i]);
    }
    assert(body@ =~= payload(b@));
    utf8_text(&body)
}

/// Reading a frame gives back the text that was framed, as long as its length
/// is a positive 32-bit number.
pub proof fn framed_text_reads_back(s: Seq<char>)
    requires
        encode_utf8(s).len() <= i32::MAX,
    ensures
        is_frame(frame(s)),
        frame_text(frame(s)) == Some(s),
{
    let bytes = encode_utf8(s);
    let n = bytes.len() as u32;
    let b = frame(s);
    assert(b =~= le_bytes(n) + bytes);
    assert(le_value(b) == n) by {
        let r1 = n / 256;
        let r2 = n / 65536;
        let r3 = n / 16777216;
        assert(r2 == r1 / 256);
        assert(r3 == r2 / 256);
        assert(b[0] == n % 256);
        assert(b[1] == r1 % 256);
        assert(b[2] == r2 % 256);
        assert(b[3] == r3 % 256);
        assert(n == n % 256 + 256 * r1);
        assert(r1 == r1 % 256 + 256 * r2);
        assert(r2 == r2 % 256 + 256 * r3);
        assert(r3 < 256);
    }
    assert(payload(b) =~= bytes);
    encode_utf8_valid_utf8(s);
    encode_utf8_decode_utf8(s);
}

// ---------------------------------------------------------------------------
// Quotes
// ---------------------------------------------------------------------------

/// A text without the quotes around it. String literals keep theirs.
pub open spec fn unquoted(s: Seq<char>) -> Seq<char> {
    if s.len() >= 2 && s[0] == '"' && s.last() == '"' {
        s.subrange(1, s.len() - 1)
    } else {
        s
    }
}

fn strip_quotes(s: String) -> (r: String)
    ensures
        r@ == unquoted(s@),
{
    let v = to_chars(s.as_str());
    let n: usize = v.len();
    if n >= 2 && v[0] == '"' && v[n - 1] == '"' {
        from_chars(&v, 1, n - 1)
    } else {
        s
    }
}

/// The name that a frame carries, without its quotes. There is none for a null
/// pointer, nor for bytes that are no text.
pub open spec fn signal_name(b: Option<Seq<u8>>) -> Option<Seq<char>> {
    match b {
        Some(bytes) => match frame_text(bytes) {
            Some(s) => Some(unquoted(s)),
            None => None,
        },
        None => None,
    }
}

pub fn decode_signal_name(b: Option<&Vec<u8>>) -> (r: Option<String>)
    requires
        is_frame_or_null(b),
    ensures
        opt_text(r) == signal_name(frame_view(b)),
{
    match b {
        Some(bytes) => match read_frame(bytes) {
            Some(s) => Some(strip_quotes(s)),
            None => None,
        },
        None => None,
    }
}

/// The name in a frame that is to be read, without its quotes.
pub open spec fn name_to_read(b: Option<Seq<u8>>) -> Option<Seq<char>> {
    match b {
        Some(_) => Some(unquoted(text_or_stand_in(b))),
        None => None,
    }
}

/// The text in a frame that is to be written, without its quotes.
pub open spec fn written_text(b: Option<Seq<u8>>) -> Seq<char> {
    match signal_name(b) {
        Some(s) => s,
        None => seq![],
    }
}

/// The name of the signal that a host function is to read, without its
/// quotes; `None` for a null pointer. Bytes that are no text have a stand-in.
pub fn signal_to_read(b: Option<&Vec<u8>>) -> (r: Option<String>)
    requires
        is_frame_or_null(b),
    ensures
        opt_text(r) == name_to_read(frame_view(b)),
{
    match b {
        Some(_) => Some(strip_quotes(blinc_string_decode(b))),
        None => None,
    }
}

/// The text that a host function is to write to a signal, without its quotes;
/// empty for a null pointer and for bytes that are no text.
pub fn text_to_write(b: Option<&Vec<u8>>) -> (r: String)
    requires
        is_frame_or_null(b),
    ensures
        r@ == written_text(frame_view(b)),
{
    match decode_signal_name(b) {
        Some(s) => s,
        None => {
            let r: String = String::new();
            r
        },
    }
}

/// The machine and the path that a host function is called with; `None` when
/// one of them is missing or no text.
pub fn machine_and_path(fsm: Option<&Vec<u8>>, path: Option<&Vec<u8>>) -> (r: Option<
    (String, String),
>)
    requires
        is_frame_or_null(fsm),
        is_frame_or_null(path),
    ensures
        match r {
            Some((a, b)) => signal_name(frame_view(fsm)) == Some(a@) && signal_name(
                frame_view(path),
            ) == Some(b@),
            None => signal_name(frame_view(fsm)) is None || signal_name(frame_view(path)) is None,
        },
{
    match decode_signal_name(fsm) {
        Some(a) => match decode_signal_name(path) {
            Some(b) => Some((a, b)),
            None => None,
        },
        None => None,
    }
}

/// Quoting a text and taking the quotes away gives the text.
pub proof fn unquoted_undoes_quotes(s: Seq<char>)
    ensures
        unquoted(seq!['"'] + s + seq!['"']) == s,
{
    let q = seq!['"'] + s + seq!['"'];
    assert(q.subrange(1, q.len() - 1) =~= s);
}

// ---------------------------------------------------------------------------
// Child lists
// ---------------------------------------------------------------------------

/// The handles of a list but for the null ones.
pub open spec fn live_handles(s: Seq<i64>) -> Seq<i64> {
    s.filter(|h: i64| h != 0)
}

/// The widgets of a child list, in order: its handles but for the null ones.
/// A missing list stands for a null pointer and has none.
pub fn materialize_children(list: Option<&Vec<i64>>) -> (r: Vec<i64>)
    ensures
        r@ == match list {
            Some(v) => live_handles(v@),
            None => seq![],
        },
{
    let mut r: Vec<i64> = Vec::new();
    match list {
        Some(v) => {
            proof {
                reveal(Seq::filter);
                assert(v@.take(0).filter(|h: i64| h != 0) =~= Seq::<i64>::empty());
            }
            for i in 0..v.len()
                invariant
                    r@ == v@.take(i as int).filter(|h: i64| h != 0),
            {
                proof {
                    reveal(Seq::filter);
                    assert(v@.take(i + 1).drop_last() =~= v@.take(i as int));
                }
                if v[i] != 0 {
                    r.push(v[i]);
                }
            }
            assert(v@.take(v@.len() as int) =~= v@);
        },
        None => {},
    }
    r
}

// ---------------------------------------------------------------------------
// The scene buffer
// ---------------------------------------------------------------------------

/// A draw operation.
#[derive(Debug, PartialEq, Eq)]
pub enum DslOp {
    Text(String),
    IntText(i32),
}

/// View of [`DslOp`].
pub enum DslOpV {
    Text(Seq<char>),
    IntText(i32),
}

impl View for DslOp {
    type V = DslOpV;

    open spec fn view(&self) -> DslOpV {
        match *self {
            DslOp::Text(s) => DslOpV::Text(s@),
            DslOp::IntText(n) => DslOpV::IntText(n),
        }
    }
}

/// The operations since the buffer was last taken.
#[derive(Debug)]
pub struct SceneBuffer {
    pub ops: Vec<DslOp>,
}

impl View for SceneBuffer {
    type V = Seq<DslOpV>;

    open spec fn view(&self) -> Seq<DslOpV> {
        views(self.ops@)
    }
}

impl SceneBuffer {
    pub fn new() -> (b: SceneBuffer)
        ensures
            b@ == Seq::<DslOpV>::empty(),
    {
        let b = SceneBuffer { ops: Vec::new() };
        assert(b@ =~= Seq::<DslOpV>::empty());
        b
    }
}

/// Append an operation to the scene.
pub fn push_op(buffer: &mut SceneBuffer, op: DslOp)
    ensures
        final(buffer)@ == old(buffer)@.push(op@),
{
    buffer.ops.push(op);
    assert(buffer@ =~= old(buffer)@.push(op@));
}

/// Take everything out of the scene buffer.
pub fn take_scene_ops(buffer: &mut SceneBuffer) -> (ops: Vec<DslOp>)
    ensures
        views(ops@) == old(buffer)@,
        final(buffer)@ == Seq::<DslOpV>::empty(),
{
    let mut ops: Vec<DslOp> = Vec::new();
    std::mem::swap(&mut buffer.ops, &mut ops);
    assert(buffer@ =~= Seq::<DslOpV>::empty());
    ops
}

/// The operations after the text of a frame was drawn.
pub open spec fn text_drawn(ops: Seq<DslOpV>, b: Option<Seq<u8>>) -> Seq<DslOpV> {
    match name_to_read(b) {
        Some(text) => ops.push(DslOpV::Text(text)),
        None => ops,
    }
}

/// `$Blinc$text`: draw a text. A null pointer draws nothing.
pub fn blinc_text(buffer: &mut SceneBuffer, b: Option<&Vec<u8>>)
    requires
        is_frame_or_null(b),
    ensures
        final(buffer)@ == text_drawn(old(buffer)@, frame_view(b)),
{
    if b.is_some() {
        let text = blinc_string_decode(b);
        push_op(buffer, DslOp::Text(strip_quotes(text)));
    }
}

/// `$Blinc$text_int`: draw a number.
pub fn blinc_text_int(buffer: &mut SceneBuffer, n: i32)
    ensures
        final(buffer)@ == old(buffer)@.push(DslOpV::IntText(n)),
{
    push_op(buffer, DslOp::IntText(n));
}

// ---------------------------------------------------------------------------
// Interpolation
// ---------------------------------------------------------------------------

/// The frame of the decimal notation of a number.
pub open spec fn int_frame(n: i32) -> Seq<u8> {
    frame(signed_decimal(n as int))
}

/// The frame of the texts of two frames, joined.
pub open spec fn joined_frame(a: Option<Seq<u8>>, b: Option<Seq<u8>>) -> Seq<u8> {
    frame(text_or_stand_in(a) + text_or_stand_in(b))
}

/// `$Blinc$format_int`: the decimal notation of a number, framed.
pub fn blinc_format_int(n: i32) -> (b: Vec<u8>)
    ensures
        b@ == int_frame(n),
{
    let s = format_signed(n as i64);
    blinc_string_alloc(s.as_str())
}

/// `$Blinc$string_concat`: two texts joined, framed.
pub fn blinc_string_concat(a: Option<&Vec<u8>>, b: Option<&Vec<u8>>) -> (r: Vec<u8>)
    requires
        is_frame_or_null(a),
        is_frame_or_null(b),
    ensures
        r@ == joined_frame(frame_view(a), frame_view(b)),
{
    let mut s = blinc_string_decode(a);
    let t = blinc_string_decode(b);
    s.append(t.as_str());
    blinc_string_alloc(s.as_str())
}

// ---------------------------------------------------------------------------
// Class names
// ---------------------------------------------------------------------------

/// The words of a text that are complete, and the one it ends in.
pub open spec fn split_words(s: Seq<char>) -> (Seq<Seq<char>>, Seq<char>)
    decreases s.len(),
{
    if s.len() == 0 {
        (seq![], seq![])
    } else {
        let (done, word) = split_words(s.drop_last());
        if is_space(s.last()) {
            if word.len() > 0 {
                (done.push(word), seq![])
            } else {
                (done, word)
            }
        } else {
            (done, word.push(s.last()))
        }
    }
}

/// The words of a text, which white space separates.
pub open spec fn words(s: Seq<char>) -> Seq<Seq<char>> {
    let (done, word) = split_words(s);
    if word.len() > 0 {
        done.push(word)
    } else {
        done
    }
}

/// The class names that a text lists.
pub fn decoded_class_names(b: Option<&Vec<u8>>) -> (r: Vec<String>)
    requires
        is_frame_or_null(b),
    ensures
        names_view(r@) == words(text_or_stand_in(frame_view(b))),
{
    let text = blinc_string_decode(b);
    let v = to_chars(text.as_str());
    let total: usize = v.len();
    let mut r: Vec<String> = Vec::new();
    let mut start: usize = 0;
    let mut i: usize = 0;
    proof {
        assert(v@.take(0) =~= Seq::<char>::empty());
        assert(v@.subrange(0, 0) =~= Seq::<char>::empty());
        assert(names_view(r@) =~= Seq::<Seq<char>>::empty());
    }
    while i < total
        invariant
            total == v@.len(),
            start <= i <= total,
            split_words(v@.take(i as int)) == (
                names_view(r@),
                v@.subrange(start as int, i as int),
            ),
        decreases total - i,
    {
        proof {
            let t = v@.take(i + 1);
            assert(t.drop_last() =~= v@.take(i as int));
            assert(t.last() == v@[i as int]);
            assert(v@.subrange(start as int, i as int).push(v@[i as int]) =~= v@.subrange(
                start as int,
                i + 1,
            ));
            assert(v@.subrange(i + 1, i + 1) =~= Seq::<char>::empty());
        }
        if char_is_space(v[i]) {
            if start < i {
                let word = from_chars(&v, start, i);
                assert(names_view(r@.push(word)) =~= names_view(r@).push(word@));
                r.push(word);
            } else {
                assert(v@.subrange(start as int, i as int) =~= Seq::<char>::empty());
            }
            start = i + 1;
        }
        i = i + 1;
    }
    assert(v@.take(total as int) =~= v@);
    if start < total {
        let word = from_chars(&v, start, total);
        assert(names_view(r@.push(word)) =~= names_view(r@).push(word@));
        r.push(word);
    }
    r
}

proof fn split_words_are_words(s: Seq<char>)
    ensures
        ({
            let (done, word) = split_words(s);
            &&& forall|i: int|
                0 <= i < done.len() ==> (#[trigger] done[i]).len() > 0 && forall|k: int|
                    0 <= k < done[i].len() ==> !is_space(#[trigger] done[i][k])
            &&& forall|k: int| 0 <= k < word.len() ==> !is_space(#[trigger] word[k])
        }),
    decreases s.len(),
{
    if s.len() > 0 {
        split_words_are_words(s.drop_last());
        let (done0, word0) = split_words(s.drop_last());
        let (done, word) = split_words(s);
        assert forall|i: int| 0 <= i < done.len() implies (#[trigger] done[i]).len() > 0
            && forall|k: int| 0 <= k < done[i].len() ==> !is_space(#[trigger] done[i][k]) by {
            if i < done0.len() {
                assert(done[i] == done0[i]);
            } else {
                assert(done[i] == word0);
            }
        }
    }
}

/// No class name is empty, and none holds white space.
pub proof fn words_are_words(s: Seq<char>)
    ensures
        forall|i: int|
            0 <= i < words(s).len() ==> (#[trigger] words(s)[i]).len() > 0 && forall|k: int|
                0 <= k < words(s)[i].len() ==> !is_space(#[trigger] words(s)[i][k]),
{
    split_words_are_words(s);
}

// ---------------------------------------------------------------------------
// Triggers
// ---------------------------------------------------------------------------

/// A text without the white space around it.
pub open spec fn trim(s: Seq<char>) -> Seq<char> {
    trim_end(trim_start(s))
}

/// The position of the first full stop.
pub open spec fn first_dot(s: Seq<char>) -> Option<int>
    decreases s.len(),
{
    if s.len() == 0 {
        None
    } else {
        match first_dot(s.drop_last()) {
            Some(i) => Some(i),
            None => if s.last() == '.' {
                Some(s.len() - 1)
            } else {
                None
            },
        }
    }
}

/// The event that a trigger path `<State>.<Event>` dispatches on a machine
/// whose current state is `current`: its event, if the machine is in its
/// state.
pub open spec fn triggered_event(path: Seq<char>, current: Option<Seq<char>>) -> Option<Seq<char>> {
    match first_dot(path) {
        Some(i) => if current == Some(trim(path.take(i))) {
            Some(trim(path.skip(i + 1)))
        } else {
            None
        },
        None => None,
    }
}

fn trimmed_range(v: &Vec<char>, from: usize, to: usize) -> (r: String)
    requires
        from <= to <= v@.len(),
    ensures
        r@ == trim(v@.subrange(from as int, to as int)),
{
    let ghost s = v@.subrange(from as int, to as int);
    let mut a: usize = from;
    assert(s.skip(0) =~= s);
    while a < to && char_is_space(v[a])
        invariant
            from <= a <= to <= v@.len(),
            s == v@.subrange(from as int, to as int),
            trim_start(s) == trim_start(s.skip(a - from)),
        decreases to - a,
    {
        proof {
            assert(s.skip(a - from).skip(1) =~= s.skip(a + 1 - from));
            assert(s.skip(a - from)[0] == v@[a as int]);
        }
        a = a + 1;
    }
    proof {
        let t = s.skip(a - from);
        if a < to {
            assert(t[0] == v@[a as int]);
        }
        assert(trim_start(s) == t);
        assert(t =~= v@.subrange(a as int, to as int));
    }
    let ghost t = v@.subrange(a as int, to as int);
    let mut b: usize = to;
    while b > a && char_is_space(v[b - 1])
        invariant
            a <= b <= to <= v@.len(),
            trim_end(t) == trim_end(v@.subrange(a as int, b as int)),
        decreases b,
    {
        proof {
            let u = v@.subrange(a as int, b as int);
            assert(u.drop_last() =~= v@.subrange(a as int, b - 1));
            assert(u.last() == v@[b - 1]);
        }
        b = b - 1;
    }
    proof {
        let u = v@.subrange(a as int, b as int);
        if b > a {
            assert(u.last() == v@[b - 1]);
        }
    }
    from_chars(v, a, b)
}

/// The event to dispatch for a trigger path, if any. A path without a full
/// stop, and a machine that is in another state, dispatch nothing.
pub fn trigger_event(path: &str, current: Option<&String>) -> (r: Option<String>)
    ensures
        opt_text(r) == triggered_event(path@, opt_name(current)),
{
    let v = to_chars(path);
    let total: usize = v.len();
    let mut i: usize = 0;
    assert(v@.take(0) =~= Seq::<char>::empty());
    while i < total
        invariant
            i <= total,
            total == v@.len(),
            v@ == path@,
            first_dot(v@.take(i as int)) is None,
        decreases total - i,
    {
        proof {
            assert(v@.take(i + 1).drop_last() =~= v@.take(i as int));
            assert(v@.take(i + 1).last() == v@[i as int]);
        }
        if v[i] == '.' {
            proof {
                first_dot_stable(v@, i + 1);
                assert(v@.take(i as int) =~= v@.subrange(0, i as int));
                assert(v@.skip(i + 1) =~= v@.subrange(i + 1, total as int));
            }
            let state = trimmed_range(&v, 0, i);
            return match current {
                Some(c) => {
                    if *c == state {
                        Some(trimmed_range(&v, i + 1, total))
                    } else {
                        None
                    }
                },
                None => None,
            };
        }
        i = i + 1;
    }
    assert(v@.take(total as int) =~= v@);
    None
}

proof fn first_dot_stable(s: Seq<char>, n: int)
    requires
        0 <= n <= s.len(),
        first_dot(s.take(n)) is Some,
    ensures
        first_dot(s) == first_dot(s.take(n)),
    decreases s.len() - n,
{
    if n < s.len() {
        assert(s.take(n + 1).drop_last() =~= s.take(n));
        first_dot_stable(s, n + 1);
    } else {
        assert(s.take(n) =~= s);
    }
}

} // verus!
