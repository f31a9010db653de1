//! Verified text utilities: ASCII case folding, decimal and hexadecimal
//! rendering, number parsing, percent decoding, and `host:port` parsing.

use vstd::prelude::*;
use vstd::string::StrSliceExecFns;
use vstd::string::StringExecFns;
use vstd::string::StringSliceAdditionalSpecFns;

verus! {

/// ASCII lowercase of one character; characters outside `A..=Z` are unchanged.
pub open spec fn lower_char(c: char) -> char {
    match c {
        'A' => 'a',
        'B' => 'b',
        'C' => 'c',
        'D' => 'd',
        'E' => 'e',
        'F' => 'f',
        'G' => 'g',
        'H' => 'h',
        'I' => 'i',
        'J' => 'j',
        'K' => 'k',
        'L' => 'l',
        'M' => 'm',
        'N' => 'n',
        'O' => 'o',
        'P' => 'p',
        'Q' => 'q',
        'R' => 'r',
        'S' => 's',
        'T' => 't',
        'U' => 'u',
        'V' => 'v',
        'W' => 'w',
        'X' => 'x',
        'Y' => 'y',
        'Z' => 'z',
        _ => c,
    }
}

/// ASCII lowercase of a character sequence.
pub open spec fn lower_seq(s: Seq<char>) -> Seq<char> {
    s.map_values(|c: char| lower_char(c))
}

/// Two character sequences are equal up to ASCII case.
pub open spec fn eq_ignore_case_spec(a: Seq<char>, b: Seq<char>) -> bool {
    lower_seq(a) == lower_seq(b)
}

pub fn lower_char_exec(c: char) -> (r: char)
    ensures
        r == lower_char(c),
{
    match c {
        'A' => 'a',
        'B' => 'b',
        'C' => 'c',
        'D' => 'd',
        'E' => 'e',
        'F' => 'f',
        'G' => 'g',
        'H' => 'h',
        'I' => 'i',
        'J' => 'j',
        'K' => 'k',
        'L' => 'l',
        'M' => 'm',
        'N' => 'n',
        'O' => 'o',
        'P' => 'p',
        'Q' => 'q',
        'R' => 'r',
        'S' => 's',
        'T' => 't',
        'U' => 'u',
        'V' => 'v',
        'W' => 'w',
        'X' => 'x',
        'Y' => 'y',
        'Z' => 'z',
        _ => c,
    }
}

/// The characters of a string slice, in order.
pub fn str_chars(s: &str) -> (r: Vec<char>)
    ensures
        r@ == s@,
{
    let n: usize = s.unicode_len();
    let mut out: Vec<char> = Vec::new();
    let mut i: usize = 0;
    while i < n
        invariant
            n == s@.len(),
            i <= n,
            out@ == s@.take(i as int),
        decreases n - i,
    {
        out.push(s.get_char(i));
        proof {
            assert(out@ =~= s@.take(i + 1));
        }
        i = i + 1;
    }
    proof {
        assert(out@ =~= s@);
    }
    out
}

/// Relies on `String`'s `FromIterator<char>`: the collected string holds
/// exactly the given characters, in order.
#[verifier::external_body]
pub(crate) fn string_from_chars(v: &Vec<char>) -> (r: String)
    ensures
        r@ == v@,
{
    v.iter().collect()
}

/// ASCII-lowercases a string; only `A..=Z` are mapped.
pub fn to_ascii_lowercase(s: &str) -> (r: String)
    ensures
        r@ == lower_seq(s@),
{
    let cs = str_chars(s);
    let mut out: Vec<char> = Vec::new();
    let mut i: usize = 0;
    while i < cs.len()
        invariant
            i <= cs@.len(),
            cs@ == s@,
            out@ == lower_seq(s@.take(i as int)),
        decreases cs@.len() - i,
    {
        out.push(lower_char_exec(cs[i]));
        proof {
            assert(out@ =~= lower_seq(s@.take(i + 1)));
        }
        i = i + 1;
    }
    proof {
        assert(out@ =~= lower_seq(s@));
    }
    string_from_chars(&out)
}

/// Character-for-character equality of two string slices.
pub fn str_eq(a: &str, b: &str) -> (r: bool)
    ensures
        r == (a@ == b@),
{
    let na: usize = a.unicode_len();
    let nb: usize = b.unicode_len();
    if na != nb {
        proof {
            assert(a@ != b@);
        }
        return false;
    }
    let mut i: usize = 0;
    while i < na
        invariant
            na == a@.len(),
            na == b@.len(),
            i <= na,
            forall|j: int| 0 <= j < i ==> a@[j] == b@[j],
        decreases na - i,
    {
        if a.get_char(i) != b.get_char(i) {
            return false;
        }
        i = i + 1;
    }
    proof {
        assert(a@ =~= b@);
    }
    true
}

/// Equality of two string slices up to ASCII case.
pub fn eq_ignore_ascii_case(a: &str, b: &str) -> (r: bool)
    ensures
        r == eq_ignore_case_spec(a@, b@),
{
    let na: usize = a.unicode_len();
    let nb: usize = b.unicode_len();
    if na != nb {
        proof {
            assert(lower_seq(a@).len() != lower_seq(b@).len());
        }
        return false;
    }
    let mut i: usize = 0;
    while i < na
        invariant
            na == a@.len(),
            na == b@.len(),
            i <= na,
            forall|j: int| 0 <= j < i ==> lower_char(a@[j]) == lower_char(b@[j]),
        decreases na - i,
    {
        if lower_char_exec(a.get_char(i)) != lower_char_exec(b.get_char(i)) {
            proof {
                assert(lower_seq(a@)[i as int] != lower_seq(b@)[i as int]);
            }
            return false;
        }
        i = i + 1;
    }
    proof {
        assert(lower_seq(a@) =~= lower_seq(b@));
    }
    true
}

/// `p` is a prefix of `s`.
pub open spec fn starts_with_spec(s: Seq<char>, p: Seq<char>) -> bool {
    p.len() <= s.len() && s.take(p.len() as int) == p
}

pub fn str_starts_with(s: &str, p: &str) -> (r: bool)
    ensures
        r == starts_with_spec(s@, p@),
{
    let ns: usize = s.unicode_len();
    let np: usize = p.unicode_len();
    if np > ns {
        return false;
    }
    let mut i: usize = 0;
    while i < np
        invariant
            ns == s@.len(),
            np == p@.len(),
            np <= ns,
            i <= np,
            forall|j: int| 0 <= j < i ==> s@[j] == p@[j],
        decreases np - i,
    {
        if s.get_char(i) != p.get_char(i) {
            proof {
                assert(s@.take(p@.len() as int)[i as int] != p@[i as int]);
            }
            return false;
        }
        i = i + 1;
    }
    proof {
        assert(s@.take(p@.len() as int) =~= p@);
    }
    true
}

/// `p` occurs somewhere in `s` as a contiguous run.
pub open spec fn contains_seq(s: Seq<char>, p: Seq<char>) -> bool {
    exists|i: int|
        0 <= i && i + p.len() <= s.len() && #[trigger] s.subrange(i, i + p.len() as int) == p
}

pub fn str_contains(s: &str, p: &str) -> (r: bool)
    ensures
        r == contains_seq(s@, p@),
{
    let cs = str_chars(s);
    let cp = str_chars(p);
    let ns: usize = cs.len();
    let np: usize = cp.len();
    if np > ns {
        return false;
    }
    let mut i: usize = 0;
    while i <= ns - np
        invariant
            cs@ == s@,
            cp@ == p@,
            ns == cs@.len(),
            np == cp@.len(),
            np <= ns,
            i <= cs@.len(),
            forall|k: int|
                0 <= k < i ==> #[trigger] s@.subrange(k, k + p@.len() as int) != p@,
        decreases cs@.len() - i,
    {
        let mut j: usize = 0;
        let mut all: bool = true;
        while j < np
            invariant
                cs@ == s@,
                cp@ == p@,
                ns == cs@.len(),
                np == cp@.len(),
                i <= ns - np,
                np <= ns,
                j <= np,
                all == (forall|m: int| 0 <= m < j ==> s@[i + m] == p@[m]),
            decreases cp@.len() - j,
        {
            if cs[i + j] != cp[j] {
                all = false;
                proof {
                    assert(s@[i + j] != p@[j as int]);
                }
                j = np;
            } else {
                j = j + 1;
            }
        }
        if all {
            proof {
                assert(s@.subrange(i as int, i + p@.len() as int) =~= p@);
            }
            return true;
        }
        proof {
            assert(s@.subrange(i as int, i + p@.len() as int)[choose|m: int|
                0 <= m < p@.len() && s@[i + m] != p@[m]] != p@[choose|m: int|
                0 <= m < p@.len() && s@[i + m] != p@[m]]);
            assert(s@.subrange(i as int, i + p@.len() as int) != p@);
        }
        i = i + 1;
    }
    proof {
        if contains_seq(s@, p@) {
            let w = choose|w: int|
                0 <= w && w + p@.len() <= s@.len() && #[trigger] s@.subrange(
                    w,
                    w + p@.len() as int,
                ) == p@;
            assert(w < i);
            assert(s@.subrange(w, w + p@.len() as int) != p@);
        }
    }
    false
}

/// The empty string, with its view known empty.
pub fn empty_str() -> (r: &'static str)
    ensures
        r@ == Seq::<char>::empty(),
{
    proof {
        reveal_strlit("");
    }
    ""
}

/// The decimal digit character for `d`, which must be below ten.
pub open spec fn dec_digit(d: nat) -> char {
    hex_digit(d)
}

/// The lowercase hexadecimal digit character for `d`, which must be below sixteen.
pub open spec fn hex_digit(d: nat) -> char {
    if d == 0 {
        '0'
    } else if d == 1 {
        '1'
    } else if d == 2 {
        '2'
    } else if d == 3 {
        '3'
    } else if d == 4 {
        '4'
    } else if d == 5 {
        '5'
    } else if d == 6 {
        '6'
    } else if d == 7 {
        '7'
    } else if d == 8 {
        '8'
    } else if d == 9 {
        '9'
    } else if d == 10 {
        'a'
    } else if d == 11 {
        'b'
    } else if d == 12 {
        'c'
    } else if d == 13 {
        'd'
    } else if d == 14 {
        'e'
    } else {
        'f'
    }
}

/// Decimal rendering of `n` without leading zeros (`0` renders as `"0"`).
pub open spec fn dec_str(n: nat) -> Seq<char>
    decreases n,
{
    if n < 10 {
        seq![dec_digit(n)]
    } else {
        dec_str(n / 10).push(dec_digit(n % 10))
    }
}

fn digit_str(d: u64) -> (r: &'static str)
    requires
        d < 10,
    ensures
        r@ == seq![dec_digit(d as nat)],
{
    proof {
        reveal_strlit("0");
        reveal_strlit("1");
        reveal_strlit("2");
        reveal_strlit("3");
        reveal_strlit("4");
        reveal_strlit("5");
        reveal_strlit("6");
        reveal_strlit("7");
        reveal_strlit("8");
        reveal_strlit("9");
    }
    let r = match d {
        0 => "0",
        1 => "1",
        2 => "2",
        3 => "3",
        4 => "4",
        5 => "5",
        6 => "6",
        7 => "7",
        8 => "8",
        _ => "9",
    };
    proof {
        assert(r@ =~= seq![dec_digit(d as nat)]);
    }
    r
}

/// Renders `n` in decimal.
pub fn u64_to_string(n: u64) -> (r: String)
    ensures
        r@ == dec_str(n as nat),
    decreases n,
{
    if n < 10 {
        let mut s = String::new();
        s.append(digit_str(n));
        s
    } else {
        let mut s = u64_to_string(n / 10);
        s.append(digit_str(n % 10));
        s
    }
}

/// Decimal rendering of a signed number: a minus sign for negatives.
pub open spec fn dec_str_i64(n: int) -> Seq<char> {
    if n < 0 {
        seq!['-'] + dec_str((-n) as nat)
    } else {
        dec_str(n as nat)
    }
}

/// Renders `n` in decimal, with a leading `-` when negative.
pub fn i64_to_string(n: i64) -> (r: String)
    ensures
        r@ == dec_str_i64(n as int),
{
    if n >= 0 {
        u64_to_string(n as u64)
    } else {
        let mut s = String::new();
        proof {
            reveal_strlit("-");
        }
        s.append("-");
        let mag: u64 = if n == i64::MIN {
            9223372036854775808u64
        } else {
            (-n) as u64
        };
        let m = u64_to_string(mag);
        s.append(m.as_str());
        proof {
            assert(s@ =~= dec_str_i64(n as int));
        }
        s
    }
}

/// Fixed-width lowercase hexadecimal rendering of `n`.
pub open spec fn hex_str_fixed(n: nat, width: nat) -> Seq<char>
    decreases width,
{
    if width == 0 {
        Seq::empty()
    } else {
        hex_str_fixed(n / 16, (width - 1) as nat).push(hex_digit(n % 16))
    }
}

fn hex_digit_str(d: u64) -> (r: &'static str)
    requires
        d < 16,
    ensures
        r@ == seq![hex_digit(d as nat)],
{
    if d < 10 {
        digit_str(d)
    } else {
        proof {
            reveal_strlit("a");
            reveal_strlit("b");
            reveal_strlit("c");
            reveal_strlit("d");
            reveal_strlit("e");
            reveal_strlit("f");
        }
        let r = match d {
            10 => "a",
            11 => "b",
            12 => "c",
            13 => "d",
            14 => "e",
            _ => "f",
        };
        proof {
            assert(r@ =~= seq![hex_digit(d as nat)]);
        }
        r
    }
}

/// Renders `n` as exactly `width` lowercase hex digits (zero padded).
pub fn u64_to_hex_fixed(n: u64, width: u8) -> (r: String)
    ensures
        r@ == hex_str_fixed(n as nat, width as nat),
    decreases width,
{
    if width == 0 {
        let s = String::new();
        proof {
            assert(s@ =~= hex_str_fixed(n as nat, 0));
        }
        s
    } else {
        let mut s = u64_to_hex_fixed(n / 16, width - 1);
        s.append(hex_digit_str(n % 16));
        s
    }
}

/// The numeric value of a decimal digit character, if it is one.
pub open spec fn dec_digit_value(c: char) -> Option<nat> {
    match c {
        '0' => Some(0nat),
        '1' => Some(1nat),
        '2' => Some(2nat),
        '3' => Some(3nat),
        '4' => Some(4nat),
        '5' => Some(5nat),
        '6' => Some(6nat),
        '7' => Some(7nat),
        '8' => Some(8nat),
        '9' => Some(9nat),
        _ => None,
    }
}

pub open spec fn all_dec_digits(s: Seq<char>) -> bool {
    forall|i: int| 0 <= i < s.len() ==> #[trigger] dec_digit_value(s[i]) is Some
}

/// The number denoted by a sequence of decimal digit characters.
pub open spec fn dec_seq_value(s: Seq<char>) -> nat
    decreases s.len(),
{
    if s.len() == 0 {
        0
    } else {
        dec_seq_value(s.drop_last()) * 10 + dec_digit_value(s.last()).unwrap_or(0nat)
    }
}

fn dec_digit_value_exec(c: char) -> (r: Option<u64>)
    ensures
        r is Some <==> dec_digit_value(c) is Some,
        r is Some ==> r.unwrap() as nat == dec_digit_value(c).unwrap(),
{
    match c {
        '0' => Some(0u64),
        '1' => Some(1u64),
        '2' => Some(2u64),
        '3' => Some(3u64),
        '4' => Some(4u64),
        '5' => Some(5u64),
        '6' => Some(6u64),
        '7' => Some(7u64),
        '8' => Some(8u64),
        '9' => Some(9u64),
        _ => None,
    }
}

/// The digit run of a number string after an optional leading `+`.
pub open spec fn unsigned_body(s: Seq<char>) -> Seq<char> {
    if s.len() > 0 && s[0] == '+' {
        s.drop_first()
    } else {
        s
    }
}

/// Whether `s` parses as an unsigned decimal number no larger than `bound`,
/// in the manner of the standard parser: an optional `+`, then one or more
/// decimal digits.
pub open spec fn parses_as_u64_within(s: Seq<char>, bound: nat) -> bool {
    let b = unsigned_body(s);
    b.len() > 0 && all_dec_digits(b) && dec_seq_value(b) <= bound
}

/// Parses an unsigned decimal number of at most `bound`, as the standard
/// parser would (optional `+`, digits only, no surrounding spaces).
#[verifier::rlimit(50)]
pub fn parse_u64_bounded(s: &str, bound: u64) -> (r: Option<u64>)
    ensures
        r is Some <==> parses_as_u64_within(s@, bound as nat),
        r is Some ==> r.unwrap() as nat == dec_seq_value(unsigned_body(s@)),
{
    let cs = str_chars(s);
    let start: usize = if cs.len() > 0 && cs[0] == '+' {
        1
    } else {
        0
    };
    proof {
        assert(unsigned_body(s@) =~= s@.skip(start as int));
    }
    if cs.len() == start {
        return None;
    }
    let ghost body = s@.skip(start as int);
    let mut acc: u64 = 0;
    let mut i: usize = start;
    while i < cs.len()
        invariant
            cs@ == s@,
            body == s@.skip(start as int),
            unsigned_body(s@) == body,
            start <= i <= cs@.len(),
            start <= cs@.len(),
            all_dec_digits(body.take(i - start)),
            acc as nat == dec_seq_value(body.take(i - start)),
            acc <= bound,
        decreases cs@.len() - i,
    {
        let d = match dec_digit_value_exec(cs[i]) {
            Some(d) => d,
            None => {
                proof {
                    assert(dec_digit_value(body[i - start]) is None);
                    assert(!all_dec_digits(body));
                }
                return None;
            },
        };
        if acc > bound / 10 || (acc == bound / 10 && d > bound % 10) {
            proof {
                let pre = body.take(i - start + 1);
                assert(pre.drop_last() =~= body.take(i - start));
                assert(dec_seq_value(pre) > bound);
                lemma_dec_seq_value_monotone(body, i - start + 1);
            }
            return None;
        }
        proof {
            let pre = body.take(i - start + 1);
            assert(pre.drop_last() =~= body.take(i - start));
            assert(pre.last() == body[i - start]);
        }
        acc = acc * 10 + d;
        i = i + 1;
    }
    proof {
        assert(body.take(body.len() as int) =~= body);
    }
    Some(acc)
}

/// A prefix of a digit run denotes no more than the whole run.
proof fn lemma_dec_seq_value_monotone(s: Seq<char>, k: int)
    requires
        0 <= k <= s.len(),
    ensures
        dec_seq_value(s.take(k)) <= dec_seq_value(s),
    decreases s.len() - k,
{
    if k < s.len() {
        let t = s.take(k + 1);
        assert(t.drop_last() =~= s.take(k));
        assert(dec_seq_value(s.take(k)) <= dec_seq_value(t));
        lemma_dec_seq_value_monotone(s, k + 1);
        assert(s.take(s.len() as int) =~= s);
    } else {
        assert(s.take(k) =~= s);
    }
}

/// The index of the first occurrence of `c` in `s`, or `-1`.
pub open spec fn find_first(s: Seq<char>, c: char) -> int
    decreases s.len(),
{
    if s.len() == 0 {
        -1
    } else if s[0] == c {
        0
    } else {
        let r = find_first(s.drop_first(), c);
        if r < 0 {
            -1
        } else {
            r + 1
        }
    }
}

/// `find_first` returns a position of `c`, before which `c` does not occur,
/// or `-1` when `c` does not occur at all.
pub proof fn lemma_find_first(s: Seq<char>, c: char)
    ensures
        find_first(s, c) == -1 ==> forall|i: int| 0 <= i < s.len() ==> s[i] != c,
        find_first(s, c) != -1 ==> 0 <= find_first(s, c) < s.len() && s[find_first(s, c)] == c
            && forall|i: int| 0 <= i < find_first(s, c) ==> s[i] != c,
    decreases s.len(),
{
    if s.len() > 0 && s[0] != c {
        lemma_find_first(s.drop_first(), c);
        assert forall|i: int| 1 <= i < s.len() implies s.drop_first()[i - 1] == s[i] by {}
    }
}

/// A position holding `c`, before which `c` does not occur, is what
/// `find_first` returns.
pub proof fn lemma_find_first_unique(s: Seq<char>, c: char, p: int)
    requires
        0 <= p < s.len(),
        s[p] == c,
        forall|i: int| 0 <= i < p ==> s[i] != c,
    ensures
        find_first(s, c) == p,
    decreases s.len(),
{
    if p > 0 {
        assert forall|i: int| 0 <= i < p - 1 implies s.drop_first()[i] != c by {
            assert(s.drop_first()[i] == s[i + 1]);
        }
        assert(s.drop_first()[p - 1] == s[p]);
        lemma_find_first_unique(s.drop_first(), c, p - 1);
    }
}

/// The index of the last occurrence of `c` in `s`, or `-1`.
pub open spec fn find_last(s: Seq<char>, c: char) -> int
    decreases s.len(),
{
    if s.len() == 0 {
        -1
    } else if s.last() == c {
        s.len() - 1
    } else {
        find_last(s.drop_last(), c)
    }
}

/// A position holding `c`, after which `c` does not occur, is what
/// `find_last` returns.
pub proof fn lemma_find_last_unique(s: Seq<char>, c: char, p: int)
    requires
        0 <= p < s.len(),
        s[p] == c,
        forall|i: int| p < i < s.len() ==> s[i] != c,
    ensures
        find_last(s, c) == p,
    decreases s.len(),
{
    if p < s.len() - 1 {
        assert(s.last() != c);
        assert forall|i: int| p < i < s.len() - 1 implies s.drop_last()[i] != c by {}
        lemma_find_last_unique(s.drop_last(), c, p);
    }
}

/// When `c` occurs nowhere, `find_last` is `-1`.
pub proof fn lemma_find_last_none(s: Seq<char>, c: char)
    requires
        forall|i: int| 0 <= i < s.len() ==> s[i] != c,
    ensures
        find_last(s, c) == -1,
    decreases s.len(),
{
    if s.len() > 0 {
        lemma_find_last_none(s.drop_last(), c);
    }
}

/// The characters `cs[from..to]`, as a string.
pub fn chars_range_to_string(cs: &Vec<char>, from: usize, to: usize) -> (r: String)
    requires
        from <= to <= cs@.len(),
    ensures
        r@ == cs@.subrange(from as int, to as int),
{
    let mut out: Vec<char> = Vec::new();
    let mut i: usize = from;
    while i < to
        invariant
            from <= i <= to <= cs@.len(),
            out@ == cs@.subrange(from as int, i as int),
        decreases to - i,
    {
        out.push(cs[i]);
        proof {
            assert(out@ =~= cs@.subrange(from as int, i + 1));
        }
        i = i + 1;
    }
    string_from_chars(&out)
}

/// The numeric value of one hexadecimal digit byte, upper or lower case.
pub open spec fn hex_byte_value(b: u8) -> Option<u8> {
    if 48 <= b <= 57 {
        Some((b - 48) as u8)
    } else if 97 <= b <= 102 {
        Some((b - 97 + 10) as u8)
    } else if 65 <= b <= 70 {
        Some((b - 65 + 10) as u8)
    } else {
        None
    }
}

/// The value of a hex digit byte: `0-9`, `a-f` or `A-F`.
pub fn hex_value(byte: u8) -> (r: Option<u8>)
    ensures
        r == hex_byte_value(byte),
{
    if 48 <= byte && byte <= 57 {
        Some(byte - 48)
    } else if 97 <= byte && byte <= 102 {
        Some(byte - 97 + 10)
    } else if 65 <= byte && byte <= 70 {
        Some(byte - 65 + 10)
    } else {
        None
    }
}

/// Percent decoding over bytes: `%xy` becomes one byte; a `%` without two
/// hex digits after it rejects the whole input.
pub open spec fn percent_decode(bs: Seq<u8>) -> Option<Seq<u8>>
    decreases bs.len(),
{
    if bs.len() == 0 {
        Some(Seq::empty())
    } else if bs[0] == 37 {
        if bs.len() <= 2 {
            None
        } else {
            match (hex_byte_value(bs[1]), hex_byte_value(bs[2])) {
                (Some(hi), Some(lo)) => match percent_decode(bs.skip(3)) {
                    Some(t) => Some(seq![(hi * 16 + lo) as u8] + t),
                    None => None,
                },
                _ => None,
            }
        }
    } else {
        match percent_decode(bs.skip(1)) {
            Some(t) => Some(seq![bs[0]] + t),
            None => None,
        }
    }
}

/// Relies on `String::from_utf8`: it accepts exactly valid UTF-8 and
/// decodes it to the characters the bytes encode.
#[verifier::external_body]
fn string_from_utf8(bytes: Vec<u8>) -> (r: Option<String>)
    ensures
        (r is Some) == vstd::utf8::valid_utf8(bytes@),
        r is Some ==> r.unwrap()@ == vstd::utf8::decode_utf8(bytes@),
{
    String::from_utf8(bytes).ok()
}

/// Percent-decodes a string: `None` when a `%` lacks two hex digits or the
/// decoded bytes are not UTF-8.
#[verifier::loop_isolation(false)]
pub fn decode_percent(input: &str) -> (r: Option<String>)
    ensures
        match r {
            Some(out) => percent_decode(input.spec_bytes()) is Some && vstd::utf8::valid_utf8(
                percent_decode(input.spec_bytes()).unwrap(),
            ) && out@ == vstd::utf8::decode_utf8(percent_decode(input.spec_bytes()).unwrap()),
            None => percent_decode(input.spec_bytes()) is None || !vstd::utf8::valid_utf8(
                percent_decode(input.spec_bytes()).unwrap(),
            ),
        },
{
    let bytes = input.as_bytes();
    let ghost bs = input.spec_bytes();
    let n = bytes.len();
    let mut out: Vec<u8> = Vec::new();
    let mut i: usize = 0;
    proof {
        assert(bs.skip(0) =~= bs);
    }
    while i < n
        invariant
            i <= n,
            percent_decode(bs) == match percent_decode(bs.skip(i as int)) {
                Some(t) => Some(out@ + t),
                None => None::<Seq<u8>>,
            },
        decreases n - i,
    {
        if bytes[i] == 37 {
            if n - i <= 2 {
                proof {
                    assert(bs.skip(i as int).len() <= 2);
                }
                return None;
            }
            let hi = match hex_value(bytes[i + 1]) {
                Some(v) => v,
                None => {
                    proof {
                        assert(bs.skip(i as int)[1] == bs[i + 1]);
                    }
                    return None;
                },
            };
            let lo = match hex_value(bytes[i + 2]) {
                Some(v) => v,
                None => {
                    proof {
                        assert(bs.skip(i as int)[1] == bs[i + 1]);
                        assert(bs.skip(i as int)[2] == bs[i + 2]);
                    }
                    return None;
                },
            };
            let ghost before = out@;
            out.push(hi * 16 + lo);
            proof {
                assert(bs.skip(i as int)[1] == bs[i + 1]);
                assert(bs.skip(i as int)[2] == bs[i + 2]);
                assert(bs.skip(i as int).skip(3) =~= bs.skip(i + 3));
                assert forall|t: Seq<u8>| true implies before + (seq![(hi * 16 + lo) as u8] + t)
                    =~= out@ + t by {}
            }
            i = i + 3;
        } else {
            let ghost before = out@;
            out.push(bytes[i]);
            proof {
                assert(bs.skip(i as int)[0] == bs[i as int]);
                assert(bs.skip(i as int).skip(1) =~= bs.skip(i + 1));
                assert forall|t: Seq<u8>| true implies before + (seq![bs[i as int]] + t) =~= out@
                    + t by {}
            }
            i = i + 1;
        }
    }
    proof {
        assert(bs.skip(n as int) =~= Seq::<u8>::empty());
        assert(out@ + Seq::<u8>::empty() =~= out@);
    }
    string_from_utf8(out)
}

/// The reading of an upstream address: `[v6host]:port` when it opens with a
/// bracket, else `host:port` split at the last colon; the host must be
/// nonempty and the port must parse as a `u16`.
pub open spec fn parse_host_port_spec(s: Seq<char>) -> Option<(Seq<char>, u16)> {
    if s.len() > 0 && s[0] == '[' {
        let rest = s.skip(1);
        let e = find_first(rest, ']');
        if e < 0 {
            None
        } else {
            let host = rest.take(e);
            let after = rest.skip(e + 1);
            if host.len() > 0 && after.len() > 0 && after[0] == ':' && parses_as_u64_within(
                after.skip(1),
                65535,
            ) {
                Some((host, dec_seq_value(unsigned_body(after.skip(1))) as u16))
            } else {
                None
            }
        }
    } else {
        let cpos = find_last(s, ':');
        if cpos < 0 {
            None
        } else {
            let host = s.take(cpos);
            if host.len() == 0 {
                None
            } else if parses_as_u64_within(s.skip(cpos + 1), 65535) {
                Some((host, dec_seq_value(unsigned_body(s.skip(cpos + 1))) as u16))
            } else {
                None
            }
        }
    }
}

/// Splits an upstream address into host and port.
#[verifier::loop_isolation(false)]
pub fn parse_host_port(address: &str) -> (r: Option<(String, u16)>)
    ensures
        match r {
            Some((host, port)) => parse_host_port_spec(address@) == Some((host@, port)),
            None => parse_host_port_spec(address@) is None,
        },
{
    let cs = str_chars(address);
    let n = cs.len();
    if n > 0 && cs[0] == '[' {
        let ghost rest = address@.skip(1);
        // Find the closing bracket.
        let mut e: usize = 1;
        while e < n && cs[e] != ']'
            invariant
                1 <= e <= n,
                forall|k: int| 1 <= k < e ==> cs@[k] != ']',
            decreases n - e,
        {
            e = e + 1;
        }
        if e == n {
            proof {
                lemma_find_first(rest, ']');
                if find_first(rest, ']') >= 0 {
                    assert(rest[find_first(rest, ']')] == ']');
                    assert(cs@[1 + find_first(rest, ']')] == ']');
                }
            }
            return None;
        }
        proof {
            assert(rest[e - 1] == ']');
            assert forall|k: int| 0 <= k < e - 1 implies rest[k] != ']' by {
                assert(rest[k] == cs@[1 + k]);
            }
            lemma_find_first_unique(rest, ']', e - 1);
            assert(rest.take(e - 1) =~= address@.subrange(1, e as int));
            assert(rest.skip(e as int) =~= address@.skip(e + 1));
        }
        if e + 1 >= n || cs[e + 1] != ':' {
            if e + 1 < n {
                proof {
                    assert(address@.skip(e + 1)[0] == cs@[e + 1]);
                }
            }
            return None;
        }
        if e == 1 {
            return None;
        }
        let host = chars_range_to_string(&cs, 1, e);
        let port_str = chars_range_to_string(&cs, e + 2, n);
        proof {
            assert(address@.skip(e + 1)[0] == cs@[e + 1]);
            assert(address@.skip(e + 1).skip(1) =~= address@.subrange(e + 2, n as int));
        }
        match parse_u16(port_str.as_str()) {
            Some(port) => Some((host, port)),
            None => None,
        }
    } else {
        // Find the last colon.
        let mut cpos: usize = n;
        let mut found: bool = false;
        while cpos > 0 && !found
            invariant
                cpos <= n,
                !found ==> forall|k: int| cpos <= k < n ==> cs@[k] != ':',
                found ==> cpos < n && cs@[cpos as int] == ':' && forall|k: int|
                    cpos < k < n ==> cs@[k] != ':',
            decreases cpos,
        {
            if cs[cpos - 1] == ':' {
                cpos = cpos - 1;
                found = true;
            } else {
                cpos = cpos - 1;
            }
        }
        if !found {
            proof {
                lemma_find_last_none(address@, ':');
            }
            return None;
        }
        proof {
            lemma_find_last_unique(address@, ':', cpos as int);
            assert(address@.take(cpos as int) =~= address@.subrange(0, cpos as int));
            assert(address@.skip(cpos + 1) =~= address@.subrange(cpos + 1, n as int));
        }
        if cpos == 0 {
            return None;
        }
        let host = chars_range_to_string(&cs, 0, cpos);
        let port_str = chars_range_to_string(&cs, cpos + 1, n);
        match parse_u16(port_str.as_str()) {
            Some(port) => Some((host, port)),
            None => None,
        }
    }
}

/// Parses a port number, as the standard `u16` parser would.
pub fn parse_u16(s: &str) -> (r: Option<u16>)
    ensures
        r is Some <==> parses_as_u64_within(s@, u16::MAX as nat),
        r is Some ==> r.unwrap() as nat == dec_seq_value(unsigned_body(s@)),
{
    match parse_u64_bounded(s, 65535) {
        Some(v) => Some(v as u16),
        None => None,
    }
}

} // verus!
