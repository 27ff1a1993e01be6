//! Text operations with exact meanings over sequences of characters.

use vstd::prelude::*;
use vstd::string::*;

verus! {

/// `String::push` appends one character.
pub assume_specification[ std::string::String::push ](s: &mut std::string::String, c: char)
    ensures
        final(s)@ == old(s)@.push(c),
;

/// The view of a borrowed optional name.
pub open spec fn opt_name(o: Option<&String>) -> Option<Seq<char>> {
    match o {
        Some(s) => Some(s@),
        None => None,
    }
}

/// Whether a name reads as `b`.
pub fn same(a: &String, b: &str) -> (r: bool)
    ensures
        r == (a@ == b@),
{
    let owned: String = b.to_owned();
    *a == owned
}

pub fn concat(a: &str, b: &str) -> (r: String)
    ensures
        r@ == a@ + b@,
{
    let mut r: String = a.to_owned();
    r.append(b);
    r
}

/// The characters of a text.
pub fn to_chars(s: &str) -> (r: Vec<char>)
    ensures
        r@ == s@,
{
    let mut r: Vec<char> = Vec::new();
    for c in it: s.chars()
        invariant
            it.seq() == s@,
            r@ == s@.take(it.index() as int),
    {
        proof {
            let i = it.index() as int;
            assert(s@.take(i + 1) =~= s@.take(i).push(s@[i]));
        }
        r.push(c);
    }
    assert(s@.take(s@.len() as int) =~= s@);
    r
}

/// The text made of the characters `v[from..to]`.
pub fn from_chars(v: &Vec<char>, from: usize, to: usize) -> (r: String)
    requires
        from <= to <= v@.len(),
    ensures
        r@ == v@.subrange(from as int, to as int),
{
    let mut r: String = String::new();
    let mut i: usize = from;
    proof {
        assert(v@.subrange(from as int, from as int) =~= Seq::<char>::empty());
    }
    while i < to
        invariant
            from <= i <= to <= v@.len(),
            r@ == v@.subrange(from as int, i as int),
        decreases to - i,
    {
        proof {
            assert(v@.subrange(from as int, i + 1) =~= v@.subrange(from as int, i as int).push(
                v@[i as int],
            ));
        }
        r.push(v[i]);
        i = i + 1;
    }
    r
}

// ---------------------------------------------------------------------------
// Prefixes and suffixes
// ---------------------------------------------------------------------------

pub open spec fn has_prefix(s: Seq<char>, p: Seq<char>) -> bool {
    p.len() <= s.len() && s.take(p.len() as int) == p
}

pub open spec fn has_suffix(s: Seq<char>, p: Seq<char>) -> bool {
    p.len() <= s.len() && s.skip(s.len() - p.len()) == p
}

fn chars_match_at(s: &Vec<char>, at: usize, p: &Vec<char>) -> (r: bool)
    requires
        at + p@.len() <= s@.len(),
    ensures
        r == (s@.subrange(at as int, at + p@.len()) == p@),
{
    let total: usize = s.len();
    let mut i: usize = 0;
    while i < p.len()
        invariant
            at + p@.len() <= s@.len(),
            s@.len() == total,
            i <= p@.len(),
            forall|k: int| 0 <= k < i ==> s@[at + k] == #[trigger] p@[k],
        decreases p@.len() - i,
    {
        if s[at + i] != p[i] {
            proof {
                assert(s@.subrange(at as int, at + p@.len())[i as int] != p@[i as int]);
            }
            return false;
        }
        i = i + 1;
    }
    assert(s@.subrange(at as int, at + p@.len()) =~= p@);
    true
}

pub fn starts_with(s: &str, p: &str) -> (r: bool)
    ensures
        r == has_prefix(s@, p@),
{
    let sc: Vec<char> = to_chars(s);
    let pc: Vec<char> = to_chars(p);
    if sc.len() < pc.len() {
        false
    } else {
        assert(s@.take(p@.len() as int) =~= s@.subrange(0, p@.len() as int));
        chars_match_at(&sc, 0, &pc)
    }
}

pub fn ends_with(s: &str, p: &str) -> (r: bool)
    ensures
        r == has_suffix(s@, p@),
{
    let sc: Vec<char> = to_chars(s);
    let pc: Vec<char> = to_chars(p);
    if sc.len() < pc.len() {
        false
    } else {
        let at: usize = sc.len() - pc.len();
        assert(s@.skip(at as int) =~= s@.subrange(at as int, at + p@.len()));
        chars_match_at(&sc, at, &pc)
    }
}

/// What stands between a prefix and a suffix that do not overlap.
pub open spec fn stripped(s: Seq<char>, prefix: Seq<char>, suffix: Seq<char>) -> Option<Seq<char>> {
    if has_prefix(s, prefix) && has_suffix(s.skip(prefix.len() as int), suffix) {
        Some(s.subrange(prefix.len() as int, s.len() - suffix.len()))
    } else {
        None
    }
}

pub fn strip_both(s: &str, prefix: &str, suffix: &str) -> (r: Option<String>)
    ensures
        opt_text(r) == stripped(s@, prefix@, suffix@),
{
    let sc: Vec<char> = to_chars(s);
    let pc: Vec<char> = to_chars(prefix);
    let qc: Vec<char> = to_chars(suffix);
    if sc.len() < pc.len() || sc.len() - pc.len() < qc.len() {
        return None;
    }
    let at: usize = sc.len() - qc.len();
    proof {
        assert(s@.take(prefix@.len() as int) =~= s@.subrange(0, prefix@.len() as int));
        let rest = s@.skip(prefix@.len() as int);
        assert(rest.skip(rest.len() - suffix@.len()) =~= s@.subrange(
            at as int,
            at + suffix@.len(),
        ));
    }
    if chars_match_at(&sc, 0, &pc) && chars_match_at(&sc, at, &qc) {
        Some(from_chars(&sc, pc.len(), at))
    } else {
        None
    }
}

/// The view of an optional text.
pub open spec fn opt_text(o: Option<String>) -> Option<Seq<char>> {
    match o {
        Some(s) => Some(s@),
        None => None,
    }
}

// ---------------------------------------------------------------------------
// Decimal numbers
// ---------------------------------------------------------------------------

pub open spec fn digit_char(d: nat) -> char {
    (48 + d) as char
}

/// The decimal notation of a natural number, without leading zeros.
pub open spec fn decimal(n: nat) -> Seq<char>
    decreases n,
{
    if n < 10 {
        seq![digit_char(n)]
    } else {
        decimal(n / 10).push(digit_char(n % 10))
    }
}

/// The decimal notation of an integer.
pub open spec fn signed_decimal(n: int) -> Seq<char> {
    if n < 0 {
        seq!['-'] + decimal((-n) as nat)
    } else {
        decimal(n as nat)
    }
}

fn digit(d: u64) -> (c: char)
    requires
        d < 10,
    ensures
        c == digit_char(d as nat),
{
    match d {
        0 => '0',
        1 => '1',
        2 => '2',
        3 => '3',
        4 => '4',
        5 => '5',
        6 => '6',
        7 => '7',
        8 => '8',
        _ => '9',
    }
}

pub fn append_decimal(out: &mut String, n: u64)
    ensures
        final(out)@ == old(out)@ + decimal(n as nat),
    decreases n,
{
    if n < 10 {
        out.push(digit(n));
        assert(out@ =~= old(out)@ + decimal(n as nat));
    } else {
        append_decimal(out, n / 10);
        out.push(digit(n % 10));
        assert(out@ =~= old(out)@ + decimal(n as nat));
    }
}

pub fn format_signed(n: i64) -> (r: String)
    ensures
        r@ == signed_decimal(n as int),
{
    let mut r: String = String::new();
    if n < 0 {
        r.push('-');
        let magnitude: u64 = if n == i64::MIN {
            9223372036854775808
        } else {
            (-n) as u64
        };
        append_decimal(&mut r, magnitude);
        assert(r@ =~= signed_decimal(n as int));
    } else {
        append_decimal(&mut r, n as u64);
        assert(r@ =~= signed_decimal(n as int));
    }
    r
}

/// Different numbers have different decimal notations.
pub proof fn decimal_injective(a: nat, b: nat)
    requires
        decimal(a) == decimal(b),
    ensures
        a == b,
    decreases a,
{
    decimal_len(a);
    decimal_len(b);
    if a < 10 {
        assert(decimal(a).len() == 1);
        assert(b < 10);
        assert(decimal(a)[0] == digit_char(a));
        assert(decimal(b)[0] == digit_char(b));
        assert(digit_char(a) as int == 48 + a && digit_char(b) as int == 48 + b);
    } else if b < 10 {
        assert(decimal(b).len() == 1);
    } else {
        assert(decimal(a).drop_last() =~= decimal(a / 10));
        assert(decimal(b).drop_last() =~= decimal(b / 10));
        decimal_injective(a / 10, b / 10);
        assert(decimal(a).last() == digit_char(a % 10));
        assert(decimal(b).last() == digit_char(b % 10));
        assert(digit_char(a % 10) as int == 48 + a % 10);
        assert(digit_char(b % 10) as int == 48 + b % 10);
        assert(a == 10 * (a / 10) + a % 10);
        assert(b == 10 * (b / 10) + b % 10);
    }
}

proof fn decimal_len(n: nat)
    ensures
        decimal(n).len() >= 1,
        n >= 10 ==> decimal(n).len() >= 2,
    decreases n,
{
    if n >= 10 {
        decimal_len(n / 10);
    }
}

// ---------------------------------------------------------------------------
// Lists of names
// ---------------------------------------------------------------------------

/// The names with every repetition after the first occurrence left out.
pub open spec fn distinct(s: Seq<Seq<char>>) -> Seq<Seq<char>>
    decreases s.len(),
{
    if s.len() == 0 {
        seq![]
    } else {
        let front = distinct(s.drop_last());
        if front.contains(s.last()) {
            front
        } else {
            front.push(s.last())
        }
    }
}

pub open spec fn names_view(v: Seq<String>) -> Seq<Seq<char>> {
    Seq::new(v.len(), |i: int| v[i]@)
}

pub fn contains_name(v: &Vec<String>, name: &String) -> (r: bool)
    ensures
        r == names_view(v@).contains(name@),
{
    let mut i: usize = 0;
    while i < v.len()
        invariant
            i <= v@.len(),
            forall|k: int| 0 <= k < i ==> (#[trigger] v@[k])@ != name@,
        decreases v@.len() - i,
    {
        if v[i] == *name {
            assert(names_view(v@)[i as int] == name@);
            return true;
        }
        i = i + 1;
    }
    proof {
        if names_view(v@).contains(name@) {
            let k = choose|k: int| 0 <= k < v@.len() && names_view(v@)[k] == name@;
            assert(v@[k]@ == name@);
        }
    }
    false
}

} // verus!
