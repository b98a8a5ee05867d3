//! Character-sequence helpers: decimal rendering and parsing, whitespace
//! trimming, line splitting, and substring containment. These are the
//! building blocks of the on-disk entry format.

use vstd::prelude::*;

verus! {

/// The ten decimal digit characters.
pub open spec fn is_digit_char(c: char) -> bool {
    c == '0' || c == '1' || c == '2' || c == '3' || c == '4' || c == '5' || c == '6' || c == '7'
        || c == '8' || c == '9'
}

/// Numeric value of a decimal digit character (0 for a non-digit).
pub open spec fn digit_val(c: char) -> nat {
    if c == '1' {
        1
    } else if c == '2' {
        2
    } else if c == '3' {
        3
    } else if c == '4' {
        4
    } else if c == '5' {
        5
    } else if c == '6' {
        6
    } else if c == '7' {
        7
    } else if c == '8' {
        8
    } else if c == '9' {
        9
    } else {
        0
    }
}

/// The digit character for a value below ten ('0' for anything else).
pub open spec fn digit_char(d: nat) -> char {
    if d == 1 {
        '1'
    } else if d == 2 {
        '2'
    } else if d == 3 {
        '3'
    } else if d == 4 {
        '4'
    } else if d == 5 {
        '5'
    } else if d == 6 {
        '6'
    } else if d == 7 {
        '7'
    } else if d == 8 {
        '8'
    } else if d == 9 {
        '9'
    } else {
        '0'
    }
}

/// The decimal representation of `n`, most significant digit first, with no
/// leading zeros (a single `'0'` for zero).
pub open spec fn dec_digits(n: nat) -> Seq<char>
    decreases n,
{
    if n < 10 {
        seq![digit_char(n)]
    } else {
        dec_digits(n / 10).push(digit_char(n % 10))
    }
}

/// The numeric value of a digit string, read most significant digit first.
pub open spec fn dec_val(s: Seq<char>) -> nat
    decreases s.len(),
{
    if s.len() == 0 {
        0
    } else {
        dec_val(s.drop_last()) * 10 + digit_val(s.last())
    }
}

/// Whether every character of `s` is a decimal digit.
pub open spec fn all_digits(s: Seq<char>) -> bool {
    forall|i: int| 0 <= i < s.len() ==> is_digit_char(#[trigger] s[i])
}

/// What a nonempty, all-digit string denotes as a `u32`; `None` when the
/// string is empty, holds a non-digit, or denotes a value over `u32::MAX`.
pub open spec fn parse_u32(s: Seq<char>) -> Option<u32> {
    if s.len() > 0 && all_digits(s) && dec_val(s) <= u32::MAX {
        Some(dec_val(s) as u32)
    } else {
        None
    }
}

/// The decimal representation consists of digits and denotes `n` back.
pub proof fn lemma_dec_digits(n: nat)
    ensures
        dec_digits(n).len() >= 1,
        all_digits(dec_digits(n)),
        dec_val(dec_digits(n)) == n,
    decreases n,
{
    if n < 10 {
        assert(dec_digits(n) =~= seq![digit_char(n)]);
        assert(dec_val(dec_digits(n)) == dec_val(seq![digit_char(n)].drop_last()) * 10 + digit_val(
            digit_char(n),
        ));
        assert(seq![digit_char(n)].drop_last() =~= Seq::<char>::empty());
    } else {
        lemma_dec_digits(n / 10);
        let s = dec_digits(n);
        assert(s =~= dec_digits(n / 10).push(digit_char(n % 10)));
        assert(s.drop_last() =~= dec_digits(n / 10));
        assert(s.last() == digit_char(n % 10));
        assert(dec_val(s) == (n / 10) * 10 + (n % 10));
        assert((n / 10) * 10 + (n % 10) == n) by (nonlinear_arith);
    }
}

/// Round trip: parsing the decimal representation of a `u32` gives it back.
pub proof fn lemma_parse_dec_digits(n: u32)
    ensures
        parse_u32(dec_digits(n as nat)) == Some(n),
{
    lemma_dec_digits(n as nat);
}

/// The digit character for a value below ten, as a one-character string.
fn digit_str(d: u32) -> (r: &'static str)
    requires
        d < 10,
    ensures
        r@ =~= seq![digit_char(d as nat)],
{
    proof {
        reveal_strlit("0");
        reveal_strlit("1");
        reveal_strlit("2");
        reveal_strlit("3");
        reveal_strlit("4");
        reveal_strlit("5");
        reveal_strlit("6");
        reveal_strlit("7");
        reveal_strlit("8");
        reveal_strlit("9");
    }
    if d == 0 {
        "0"
    } else if d == 1 {
        "1"
    } else if d == 2 {
        "2"
    } else if d == 3 {
        "3"
    } else if d == 4 {
        "4"
    } else if d == 5 {
        "5"
    } else if d == 6 {
        "6"
    } else if d == 7 {
        "7"
    } else if d == 8 {
        "8"
    } else {
        "9"
    }
}

/// Appends the decimal representation of `n` to `out`.
pub fn push_dec_u32(out: &mut String, n: u32)
    ensures
        final(out)@ == old(out)@ + dec_digits(n as nat),
    decreases n,
{
    if n >= 10 {
        push_dec_u32(out, n / 10);
    }
    out.append(digit_str(n % 10));
    proof {
        assert(final(out)@ =~= old(out)@ + dec_digits(n as nat));
    }
}

/// Appends the decimal representation of `n` to `out`.
pub fn push_dec_u16(out: &mut String, n: u16)
    ensures
        final(out)@ == old(out)@ + dec_digits(n as nat),
{
    push_dec_u32(out, n as u32);
}

/// Appends one character to a string.
///
/// Relies on `String::push`: appends the given `char` to the end of this
/// `String`.
#[verifier::external_body]
pub(crate) fn push_char(s: &mut String, c: char)
    ensures
        final(s)@ == old(s)@ + seq![c],
{
    s.push(c);
}

/// The Unicode uppercase mapping of a character sequence.
pub uninterp spec fn upper_of(s: Seq<char>) -> Seq<char>;

/// Relies on `str::to_uppercase`: returns the uppercase equivalent of the
/// string, a function of its characters alone.
#[verifier::external_body]
pub(crate) fn to_uppercase_str(s: &str) -> (r: String)
    ensures
        r@ == upper_of(s@),
{
    s.to_uppercase()
}

/// ASCII whitespace, as stripped around the PID annotation.
pub open spec fn is_space_char(c: char) -> bool {
    c == ' ' || c == '\t' || c == '\r' || c == '\n'
}

/// `s` without its leading whitespace.
pub open spec fn trim_front(s: Seq<char>) -> Seq<char>
    decreases s.len(),
{
    if s.len() > 0 && is_space_char(s[0]) {
        trim_front(s.skip(1))
    } else {
        s
    }
}

/// `s` without its trailing whitespace.
pub open spec fn trim_back(s: Seq<char>) -> Seq<char>
    decreases s.len(),
{
    if s.len() > 0 && is_space_char(s.last()) {
        trim_back(s.drop_last())
    } else {
        s
    }
}

/// `s` without leading and trailing whitespace.
pub open spec fn trim(s: Seq<char>) -> Seq<char> {
    trim_back(trim_front(s))
}

/// Whether `c` is ASCII whitespace.
fn is_space(c: char) -> (r: bool)
    ensures
        r == is_space_char(c),
{
    c == ' ' || c == '\t' || c == '\r' || c == '\n'
}

/// The slice of `s` without leading and trailing whitespace.
pub fn trim_str<'a>(s: &'a str) -> (r: &'a str)
    ensures
        r@ == trim(s@),
{
    let len = s.unicode_len();
    proof {
        assert(s@.skip(0) =~= s@);
    }
    let mut a: usize = 0;
    while a < len && is_space(s.get_char(a))
        invariant
            a <= len,
            len == s@.len(),
            trim_front(s@) == trim_front(s@.skip(a as int)),
        decreases len - a,
    {
        proof {
            assert(s@.skip(a as int).skip(1) =~= s@.skip(a as int + 1));
        }
        a = a + 1;
    }
    proof {
        if a == len {
            assert(s@.skip(a as int) =~= Seq::<char>::empty());
        }
        assert(trim_front(s@) =~= s@.subrange(a as int, len as int));
    }
    let mut b: usize = len;
    while b > a && is_space(s.get_char(b - 1))
        invariant
            a <= b <= len,
            len == s@.len(),
            trim_front(s@) == s@.subrange(a as int, len as int),
            trim(s@) == trim_back(s@.subrange(a as int, b as int)),
        decreases b,
    {
        proof {
            let cur = s@.subrange(a as int, b as int);
            assert(cur.last() == s@[b - 1]);
            assert(cur.drop_last() =~= s@.subrange(a as int, b as int - 1));
        }
        b = b - 1;
    }
    proof {
        let cur = s@.subrange(a as int, b as int);
        if b == a {
            assert(cur =~= Seq::<char>::empty());
        }
        assert(trim(s@) == cur);
    }
    s.substring_char(a, b)
}

/// Whether `p` compares equal to `s` character for character.
pub fn str_eq(p: &str, s: &str) -> (r: bool)
    ensures
        r == (p@ == s@),
{
    let plen = p.unicode_len();
    let slen = s.unicode_len();
    if plen != slen {
        return false;
    }
    let mut i: usize = 0;
    while i < plen
        invariant
            i <= plen,
            plen == p@.len() == slen == s@.len(),
            forall|j: int| 0 <= j < i ==> p@[j] == s@[j],
        decreases plen - i,
    {
        if p.get_char(i) != s.get_char(i) {
            return false;
        }
        i = i + 1;
    }
    proof {
        assert(p@ =~= s@);
    }
    true
}

/// Whether `p` is a prefix of `s`.
pub fn str_is_prefix(p: &str, s: &str) -> (r: bool)
    ensures
        r == p@.is_prefix_of(s@),
{
    let plen = p.unicode_len();
    let slen = s.unicode_len();
    if plen > slen {
        return false;
    }
    let mut i: usize = 0;
    while i < plen
        invariant
            i <= plen,
            plen == p@.len(),
            slen == s@.len(),
            plen <= slen,
            forall|j: int| 0 <= j < i ==> p@[j] == s@[j],
        decreases plen - i,
    {
        if p.get_char(i) != s.get_char(i) {
            proof {
                assert(p@[i as int] != s@.subrange(0, plen as int)[i as int]);
            }
            return false;
        }
        i = i + 1;
    }
    proof {
        assert(p@ =~= s@.subrange(0, plen as int));
    }
    true
}

/// One string occurring inside another, as a contiguous run of characters.
pub open spec fn contains_seq(h: Seq<char>, n: Seq<char>) -> bool {
    exists|i: int| 0 <= i && i + n.len() <= h.len() && n =~= #[trigger] h.subrange(i, i + n.len())
}

/// Whether `n` matches `h` at position `i`.
fn match_at(h: &str, n: &str, i: usize, hlen: usize, nlen: usize) -> (r: bool)
    requires
        hlen == h@.len(),
        nlen == n@.len(),
        i + nlen <= hlen,
    ensures
        r == (n@ == h@.subrange(i as int, i + n@.len())),
{
    let mut j: usize = 0;
    while j < nlen
        invariant
            j <= nlen,
            hlen == h@.len(),
            nlen == n@.len(),
            i + nlen <= hlen,
            forall|k: int| 0 <= k < j ==> n@[k] == h@[i + k],
        decreases nlen - j,
    {
        if n.get_char(j) != h.get_char(i + j) {
            proof {
                assert(n@[j as int] != h@.subrange(i as int, i + n@.len())[j as int]);
            }
            return false;
        }
        j = j + 1;
    }
    proof {
        assert(n@ =~= h@.subrange(i as int, i + n@.len()));
    }
    true
}

/// Whether `h` contains `n` as a substring.
pub fn str_contains(h: &str, n: &str) -> (r: bool)
    ensures
        r == contains_seq(h@, n@),
{
    let hlen = h.unicode_len();
    let nlen = n.unicode_len();
    if nlen > hlen {
        return false;
    }
    if nlen == 0 {
        proof {
            assert(n@ =~= h@.subrange(0, 0 + n@.len() as int));
        }
        return true;
    }
    let mut i: usize = 0;
    while i <= hlen - nlen
        invariant
            i <= hlen - nlen + 1,
            1 <= nlen <= hlen,
            hlen == h@.len(),
            nlen == n@.len(),
            forall|k: int| 0 <= k < i ==> n@ != #[trigger] h@.subrange(k, k + n@.len()),
        decreases hlen - nlen - i + 1,
    {
        if match_at(h, n, i, hlen, nlen) {
            proof {
                assert(0 <= i as int && i as int + n@.len() <= h@.len() && n@ =~= h@.subrange(
                    i as int,
                    i + n@.len(),
                ));
            }
            return true;
        }
        i = i + 1;
    }
    false
}

/// A prefix of a digit string denotes no more than the whole string.
proof fn lemma_dec_val_take_le(s: Seq<char>, i: int)
    requires
        0 <= i <= s.len(),
    ensures
        dec_val(s.take(i)) <= dec_val(s),
    decreases s.len(),
{
    if i == s.len() {
        assert(s.take(i) =~= s);
    } else {
        assert(s.drop_last().take(i) =~= s.take(i));
        lemma_dec_val_take_le(s.drop_last(), i);
    }
}

/// Numeric value of a digit character, or `None` for a non-digit.
fn digit_of(c: char) -> (r: Option<u32>)
    ensures
        match r {
            Some(d) => is_digit_char(c) && d == digit_val(c) && d < 10,
            None => !is_digit_char(c),
        },
{
    match c {
        '0' => Some(0),
        '1' => Some(1),
        '2' => Some(2),
        '3' => Some(3),
        '4' => Some(4),
        '5' => Some(5),
        '6' => Some(6),
        '7' => Some(7),
        '8' => Some(8),
        '9' => Some(9),
        _ => None,
    }
}

/// Parses a nonempty all-digit string as a `u32`; `None` on an empty string,
/// a non-digit, or overflow.
pub fn parse_u32_str(s: &str) -> (r: Option<u32>)
    ensures
        r == parse_u32(s@),
{
    let len = s.unicode_len();
    if len == 0 {
        return None;
    }
    let mut val: u32 = 0;
    let mut i: usize = 0;
    while i < len
        invariant
            i <= len,
            len == s@.len(),
            all_digits(s@.take(i as int)),
            val == dec_val(s@.take(i as int)),
        decreases len - i,
    {
        let c = s.get_char(i);
        let d = match digit_of(c) {
            Some(d) => d,
            None => {
                proof {
                    assert(!is_digit_char(s@[i as int]));
                }
                return None;
            },
        };
        proof {
            assert(s@.take(i + 1).drop_last() =~= s@.take(i as int));
            assert(s@.take(i + 1).last() == s@[i as int]);
            assert(dec_val(s@.take(i + 1)) == dec_val(s@.take(i as int)) * 10 + digit_val(
                s@[i as int],
            ));
        }
        let shifted = match val.checked_mul(10) {
            Some(v) => v,
            None => {
                proof {
                    lemma_dec_val_take_le(s@, i + 1);
                }
                return None;
            },
        };
        val = match shifted.checked_add(d) {
            Some(v) => v,
            None => {
                proof {
                    lemma_dec_val_take_le(s@, i + 1);
                }
                return None;
            },
        };
        proof {
            assert(all_digits(s@.take(i + 1))) by {
                assert(forall|j: int|
                    0 <= j < i + 1 ==> is_digit_char(#[trigger] s@.take(i + 1)[j]));
            }
        }
        i = i + 1;
    }
    proof {
        assert(s@.take(len as int) =~= s@);
    }
    Some(val)
}

/// Index of the first newline in `s`, or -1 when there is none.
pub open spec fn first_nl(s: Seq<char>) -> int
    decreases s.len(),
{
    if s.len() == 0 {
        -1
    } else if s[0] == '\n' {
        0
    } else if first_nl(s.skip(1)) < 0 {
        -1
    } else {
        first_nl(s.skip(1)) + 1
    }
}

/// `first_nl` points at the first newline, or reports that there is none.
pub proof fn lemma_first_nl(s: Seq<char>)
    ensures
        first_nl(s) == -1 || (0 <= first_nl(s) < s.len()),
        first_nl(s) == -1 ==> forall|j: int| 0 <= j < s.len() ==> #[trigger] s[j] != '\n',
        first_nl(s) >= 0 ==> s[first_nl(s)] == '\n',
        first_nl(s) >= 0 ==> forall|j: int| 0 <= j < first_nl(s) ==> #[trigger] s[j] != '\n',
    decreases s.len(),
{
    if s.len() == 0 {
    } else if s[0] == '\n' {
    } else {
        lemma_first_nl(s.skip(1));
        assert(forall|j: int| 1 <= j < s.len() ==> #[trigger] s[j] == s.skip(1)[j - 1]);
    }
}

/// `s` without a single trailing carriage return, if it has one.
pub open spec fn strip_cr(s: Seq<char>) -> Seq<char> {
    if s.len() > 0 && s.last() == '\r' {
        s.drop_last()
    } else {
        s
    }
}

/// The lines of `s`: split at newlines, each line without its terminator and
/// without one trailing carriage return; a final line terminator opens no
/// further empty line, and an empty text has no lines.
pub open spec fn split_lines(s: Seq<char>) -> Seq<Seq<char>>
    decreases s.len(),
{
    if s.len() == 0 {
        Seq::empty()
    } else {
        let i = first_nl(s);
        if 0 <= i < s.len() {
            seq![strip_cr(s.take(i))] + split_lines(s.skip(i + 1))
        } else {
            seq![strip_cr(s)]
        }
    }
}

/// The PID annotation read from what follows the marker on its line: after
/// trimming whitespace the text must be exactly `(pid=` + digits + `)`, and
/// the digits must parse as a `u32`.
pub open spec fn parse_pid_rest(rest: Seq<char>) -> Option<u32> {
    let t = trim(rest);
    if t.len() >= 6 && t[0] == '(' && t[1] == 'p' && t[2] == 'i' && t[3] == 'd' && t[4] == '='
        && t.last() == ')' {
        parse_u32(t.subrange(5, t.len() - 1))
    } else {
        None
    }
}

/// The PID annotation of the first marker-prefixed line, if any; `None` when
/// no line starts with the marker or that line's annotation does not parse.
pub open spec fn pid_of_lines(lines: Seq<Seq<char>>, marker: Seq<char>) -> Option<u32>
    decreases lines.len(),
{
    if lines.len() == 0 {
        None
    } else if marker.is_prefix_of(lines[0]) {
        parse_pid_rest(lines[0].skip(marker.len() as int))
    } else {
        pid_of_lines(lines.skip(1), marker)
    }
}

/// The creator PID recorded in a managed file's content, if any.
pub open spec fn pid_of(content: Seq<char>, marker: Seq<char>) -> Option<u32> {
    pid_of_lines(split_lines(content), marker)
}

/// Position of the first newline of `s`, or `None` when there is none.
fn find_nl(s: &str, len: usize) -> (r: Option<usize>)
    requires
        len == s@.len(),
    ensures
        match r {
            Some(i) => i < len && first_nl(s@) == i,
            None => first_nl(s@) == -1,
        },
{
    let mut i: usize = 0;
    while i < len
        invariant
            i <= len,
            len == s@.len(),
            forall|j: int| 0 <= j < i ==> #[trigger] s@[j] != '\n',
        decreases len - i,
    {
        if s.get_char(i) == '\n' {
            proof {
                lemma_first_nl(s@);
            }
            return Some(i);
        }
        i = i + 1;
    }
    proof {
        lemma_first_nl(s@);
    }
    None
}

/// Parses the text following the marker on its line as a PID annotation.
fn parse_pid_rest_str(rest: &str) -> (r: Option<u32>)
    ensures
        r == parse_pid_rest(rest@),
{
    let t = trim_str(rest);
    let tlen = t.unicode_len();
    if tlen < 6 {
        return None;
    }
    if t.get_char(0) == '(' && t.get_char(1) == 'p' && t.get_char(2) == 'i' && t.get_char(3) == 'd'
        && t.get_char(4) == '=' && t.get_char(tlen - 1) == ')' {
        let mid = t.substring_char(5, tlen - 1);
        parse_u32_str(mid)
    } else {
        None
    }
}

/// The creator PID recorded in `content`: the PID annotation of the first
/// line that starts with `marker`, if it parses.
pub fn find_pid(content: &str, marker: &str) -> (r: Option<u32>)
    ensures
        r == pid_of(content@, marker@),
    decreases content@.len(),
{
    let len = content.unicode_len();
    if len == 0 {
        return None;
    }
    let nl = find_nl(content, len);
    let line_end: usize = match nl {
        Some(i) => i,
        None => len,
    };
    proof {
        if nl is Some {
            assert(content@.take(line_end as int).len() == line_end);
        } else {
            assert(content@.take(line_end as int) =~= content@);
        }
    }
    let mut e: usize = line_end;
    if e > 0 && content.get_char(e - 1) == '\r' {
        e = e - 1;
        proof {
            assert(content@.take(line_end as int).last() == content@[line_end - 1]);
            assert(content@.take(line_end as int).drop_last() =~= content@.take(e as int));
        }
    }
    let line = content.substring_char(0, e);
    proof {
        assert(line@ =~= content@.take(e as int));
        assert(line@ == strip_cr(content@.take(line_end as int)));
    }
    if str_is_prefix(marker, line) {
        let mlen = marker.unicode_len();
        let rest = line.substring_char(mlen, e);
        proof {
            assert(rest@ =~= line@.skip(mlen as int));
        }
        return parse_pid_rest_str(rest);
    }
    match nl {
        None => {
            proof {
                assert(split_lines(content@) =~= seq![strip_cr(content@)]);
                let lines = split_lines(content@);
                assert(lines[0] == line@);
                assert(lines.skip(1) =~= Seq::<Seq<char>>::empty());
                assert(pid_of_lines(Seq::<Seq<char>>::empty(), marker@) is None);
                assert(pid_of_lines(lines, marker@) is None);
            }
            None
        },
        Some(i) => {
            let tail = content.substring_char(i + 1, len);
            proof {
                assert(tail@ =~= content@.skip(i + 1));
                assert(split_lines(content@) =~= seq![
                    strip_cr(content@.take(i as int)),
                ] + split_lines(content@.skip(i + 1)));
                let lines = split_lines(content@);
                assert(lines[0] == line@);
                assert(lines.skip(1) =~= split_lines(tail@));
                assert(pid_of_lines(lines, marker@) == pid_of_lines(split_lines(tail@), marker@));
            }
            find_pid(tail, marker)
        },
    }
}

} // verus!
