//! Character-level helpers shared by the parsers: lines, substrings and
//! decimal numbers, each with the specification it is proved against.
use vstd::prelude::*;
use vstd::std_specs::iter::IteratorSpec;

verus! {

/// The characters of `s`, in order.
pub fn chars_of(s: &str) -> (r: Vec<char>)
    ensures
        r@ == s@,
{
    broadcast use vstd::string::axiom_spec_iter, vstd::string::next_postcondition;

    let mut it = s.chars();
    let mut r: Vec<char> = Vec::new();
    loop
        invariant
            it.decrease() is Some,
            r@ + it.remaining() == s@,
        ensures
            r@ == s@,
        decreases it.decrease()->0,
    {
        match it.next() {
            Some(c) => {
                r.push(c);
            },
            None => {
                break;
            },
        }
    }
    r
}

/// Relies on `String`'s `FromIterator<&char>`: the string made of those characters, in order.
#[verifier::external_body]
pub(crate) fn string_of(v: &Vec<char>) -> (r: String)
    ensures
        r@ == v@,
{
    v.iter().collect()
}

/// Index of the first line feed in `t`, or `t.len()` when there is none.
pub open spec fn newline_index(t: Seq<char>) -> nat
    decreases t.len(),
{
    if t.len() == 0 {
        0
    } else if t[0] == '\n' {
        0
    } else {
        1 + newline_index(t.drop_first())
    }
}

/// A line that ended with a line feed loses one carriage return before it.
pub open spec fn trim_cr(l: Seq<char>) -> Seq<char> {
    if l.len() > 0 && l.last() == '\r' {
        l.drop_last()
    } else {
        l
    }
}

/// The lines of `t` as `str::lines` yields them: split at each line feed,
/// one carriage return before a line feed dropped, and no empty line after
/// a final line feed.
pub open spec fn lines_of(t: Seq<char>) -> Seq<Seq<char>>
    decreases t.len(),
{
    if t.len() == 0 {
        seq![]
    } else {
        let k = newline_index(t);
        if k >= t.len() {
            seq![t]
        } else {
            seq![trim_cr(t.take(k as int))] + lines_of(t.skip((k + 1) as int))
        }
    }
}

/// The character sequences held by a sequence of vectors.
pub open spec fn views(v: Seq<Vec<char>>) -> Seq<Seq<char>> {
    v.map_values(|l: Vec<char>| l@)
}

proof fn lemma_newline_index(t: Seq<char>, j: int)
    requires
        0 <= j <= t.len(),
        forall|k: int| 0 <= k < j ==> t[k] != '\n',
        j == t.len() || t[j] == '\n',
    ensures
        newline_index(t) == j,
    decreases j,
{
    if j > 0 {
        lemma_newline_index(t.drop_first(), j - 1);
    }
}

/// The characters of `t` from `a` up to, not including, `b`.
pub fn slice_chars(t: &Vec<char>, a: usize, b: usize) -> (r: Vec<char>)
    requires
        a <= b <= t@.len(),
    ensures
        r@ == t@.subrange(a as int, b as int),
{
    let mut r: Vec<char> = Vec::new();
    let mut i: usize = a;
    while i < b
        invariant
            a <= i <= b,
            b <= t@.len(),
            r@ == t@.subrange(a as int, i as int),
        decreases b - i,
    {
        r.push(t[i]);
        i = i + 1;
    }
    r
}

/// Splits `t` into lines, as `lines_of` describes.
pub fn split_lines(t: &Vec<char>) -> (r: Vec<Vec<char>>)
    ensures
        views(r@) == lines_of(t@),
{
    let n = t.len();
    let mut out: Vec<Vec<char>> = Vec::new();
    let mut start: usize = 0;
    let mut i: usize = 0;
    assert(t@.skip(0) =~= t@);
    while i < n
        invariant
            n == t@.len(),
            start <= i <= n,
            forall|k: int| start <= k < i ==> t@[k] != '\n',
            lines_of(t@) == views(out@) + lines_of(t@.skip(start as int)),
        decreases n - i,
    {
        if t[i] == '\n' {
            let ghost rest = t@.skip(start as int);
            let ghost before = out@;
            proof {
                lemma_newline_index(rest, i - start);
                assert(rest.take(i - start) =~= t@.subrange(start as int, i as int));
                assert(rest.skip(i - start + 1) =~= t@.skip(i + 1));
            }
            let mut line = slice_chars(t, start, i);
            if line.len() > 0 && line[line.len() - 1] == '\r' {
                line.pop();
            }
            assert(line@ == trim_cr(rest.take(i - start)));
            out.push(line);
            assert(views(out@) =~= views(before).push(line@));
            assert(lines_of(t@) =~= views(out@) + lines_of(t@.skip(i + 1)));
            start = i + 1;
        }
        i = i + 1;
    }
    if start < n {
        let ghost rest = t@.skip(start as int);
        let ghost before = out@;
        proof {
            lemma_newline_index(rest, n - start);
            assert(rest =~= t@.subrange(start as int, n as int));
        }
        let line = slice_chars(t, start, n);
        out.push(line);
        assert(views(out@) =~= views(before).push(line@));
        assert(lines_of(t@) =~= views(out@));
    } else {
        assert(t@.skip(start as int) =~= Seq::<char>::empty());
        assert(lines_of(t@) =~= views(out@));
    }
    out
}

/// `n` occurs in `h` at position `i`.
pub open spec fn occurs_at(h: Seq<char>, n: Seq<char>, i: int) -> bool {
    0 <= i && i + n.len() <= h.len() && h.subrange(i, i + n.len()) == n
}

/// The first position at or after `i` where `n` occurs in `h`.
pub open spec fn find_from(h: Seq<char>, n: Seq<char>, i: int) -> Option<int>
    decreases h.len() + 1 - i,
{
    if i < 0 || i + n.len() > h.len() {
        None
    } else if occurs_at(h, n, i) {
        Some(i)
    } else {
        find_from(h, n, i + 1)
    }
}

/// `n` occurs somewhere in `h`.
pub open spec fn contains_chars(h: Seq<char>, n: Seq<char>) -> bool {
    find_from(h, n, 0) is Some
}

/// `h` begins with `n`.
pub open spec fn starts_with(h: Seq<char>, n: Seq<char>) -> bool {
    occurs_at(h, n, 0)
}

/// Whether `n` occurs in `h` at position `i`.
pub fn occurs_at_exec(h: &Vec<char>, n: &Vec<char>, i: usize) -> (r: bool)
    ensures
        r == occurs_at(h@, n@, i as int),
{
    if i > h.len() || n.len() > h.len() - i {
        return false;
    }
    let mut j: usize = 0;
    while j < n.len()
        invariant
            i + n@.len() <= h@.len(),
            h@.len() <= usize::MAX,
            j <= n@.len(),
            forall|k: int| 0 <= k < j ==> h@[i + k] == n@[k],
        decreases n@.len() - j,
    {
        if h[i + j] != n[j] {
            assert(h@.subrange(i as int, i + n@.len())[j as int] != n@[j as int]);
            return false;
        }
        j = j + 1;
    }
    assert(h@.subrange(i as int, i + n@.len()) =~= n@);
    true
}

/// The first position at or after `from` where `n` occurs in `h`.
pub fn find_chars(h: &Vec<char>, n: &Vec<char>, from: usize) -> (r: Option<usize>)
    ensures
        match r {
            Some(k) => find_from(h@, n@, from as int) == Some(k as int) && from <= k && occurs_at(
                h@,
                n@,
                k as int,
            ),
            None => find_from(h@, n@, from as int) is None,
        },
{
    if n.len() > h.len() {
        return None;
    }
    let last = h.len() - n.len();
    let mut i: usize = from;
    while i <= last
        invariant
            last == h@.len() - n@.len(),
            from <= i,
            find_from(h@, n@, from as int) == find_from(h@, n@, i as int),
        decreases last + 1 - i,
    {
        if occurs_at_exec(h, n, i) {
            return Some(i);
        }
        if i == last {
            assert(find_from(h@, n@, i + 1) is None);
            return None;
        }
        i = i + 1;
    }
    None
}

/// Whether `n` occurs somewhere in `h`.
pub fn contains_exec(h: &Vec<char>, n: &Vec<char>) -> (r: bool)
    ensures
        r == contains_chars(h@, n@),
{
    find_chars(h, n, 0).is_some()
}

/// An ASCII decimal digit.
pub open spec fn is_digit(c: char) -> bool {
    '0' <= c && c <= '9'
}

/// The value of an ASCII decimal digit.
pub open spec fn digit_value(c: char) -> nat {
    (c as int - '0' as int) as nat
}

/// Every character of `s` is an ASCII decimal digit.
pub open spec fn all_digits(s: Seq<char>) -> bool {
    forall|i: int| 0 <= i < s.len() ==> is_digit(#[trigger] s[i])
}

/// The value of a string of decimal digits, most significant first.
pub open spec fn decimal_value(s: Seq<char>) -> nat
    decreases s.len(),
{
    if s.len() == 0 {
        0
    } else {
        10 * decimal_value(s.drop_last()) + digit_value(s.last())
    }
}

/// The digits after an optional leading sign character `sign`.
pub open spec fn after_sign(s: Seq<char>, sign: char) -> Seq<char> {
    if s.len() > 0 && s[0] == sign {
        s.drop_first()
    } else {
        s
    }
}

/// What `usize::from_str` accepts: an optional `+`, then one or more
/// ASCII digits whose value fits in a `usize`.
pub open spec fn parse_usize_spec(s: Seq<char>) -> Option<usize> {
    let d = after_sign(s, '+');
    if d.len() > 0 && all_digits(d) && decimal_value(d) <= usize::MAX {
        Some(decimal_value(d) as usize)
    } else {
        None
    }
}

/// The digits of a signed integer: after one optional `+` or `-`.
pub open spec fn signed_digits(s: Seq<char>) -> Seq<char> {
    if s.len() > 0 && (s[0] == '+' || s[0] == '-') {
        s.drop_first()
    } else {
        s
    }
}

/// What `i64::from_str` accepts: an optional `+` or `-`, then one or more
/// ASCII digits whose signed value fits in an `i64`.
pub open spec fn parse_i64_spec(s: Seq<char>) -> Option<i64> {
    let d = signed_digits(s);
    let neg = s.len() > 0 && s[0] == '-';
    let v: int = if neg {
        -decimal_value(d)
    } else {
        decimal_value(d) as int
    };
    if d.len() > 0 && all_digits(d) && i64::MIN <= v <= i64::MAX {
        Some(v as i64)
    } else {
        None
    }
}

proof fn lemma_decimal_prefix_le(s: Seq<char>, k: int)
    requires
        0 <= k <= s.len(),
    ensures
        decimal_value(s.take(k)) <= decimal_value(s),
    decreases s.len(),
{
    if k < s.len() {
        lemma_decimal_prefix_le(s.drop_last(), k);
        assert(s.drop_last().take(k) =~= s.take(k));
    } else {
        assert(s.take(k) =~= s);
    }
}

proof fn lemma_decimal_step(s: Seq<char>, i: int, j: int)
    requires
        0 <= i < j <= s.len(),
    ensures
        decimal_value(s.subrange(i, j)) == 10 * decimal_value(s.subrange(i, j - 1)) + digit_value(
            s[j - 1],
        ),
{
    assert(s.subrange(i, j).drop_last() =~= s.subrange(i, j - 1));
}

/// Reads the digits `s[start..b]`, which hold no sign, as an unsigned value;
/// `None` when a character is not a digit or the value exceeds `limit`.
fn read_digits(s: &Vec<char>, start: usize, b: usize, limit: u64) -> (r: Option<u64>)
    requires
        start <= b <= s@.len(),
    ensures
        match r {
            Some(v) => all_digits(s@.subrange(start as int, b as int)) && v == decimal_value(
                s@.subrange(start as int, b as int),
            ) && v <= limit,
            None => !all_digits(s@.subrange(start as int, b as int)) || decimal_value(
                s@.subrange(start as int, b as int),
            ) > limit,
        },
{
    let mut v: u64 = 0;
    let mut i: usize = start;
    while i < b
        invariant
            start <= i <= b,
            b <= s@.len(),
            all_digits(s@.subrange(start as int, i as int)),
            v == decimal_value(s@.subrange(start as int, i as int)),
            v <= limit,
        decreases b - i,
    {
        let c = s[i];
        if !('0' <= c && c <= '9') {
            assert(!is_digit(s@.subrange(start as int, b as int)[i - start]));
            return None;
        }
        let d = (c as u32 - '0' as u32) as u64;
        proof {
            lemma_decimal_step(s@, start as int, i + 1);
            assert(s@.subrange(start as int, i + 1).drop_last() =~= s@.subrange(start as int, i as int));
        }
        let next = match v.checked_mul(10) {
            Some(m) => m.checked_add(d),
            None => None,
        };
        match next {
            Some(w) if w <= limit => {
                v = w;
            },
            _ => {
                proof {
                    let full = s@.subrange(start as int, b as int);
                    assert(full.take(i + 1 - start) =~= s@.subrange(start as int, i + 1));
                    if all_digits(full) {
                        lemma_decimal_prefix_le(full, i + 1 - start);
                    }
                }
                return None;
            },
        }
        i = i + 1;
        assert(all_digits(s@.subrange(start as int, i as int)));
    }
    Some(v)
}

/// Reads `s[a..b]` as `usize::from_str` would.
pub fn parse_usize(s: &Vec<char>, a: usize, b: usize) -> (r: Option<usize>)
    requires
        a <= b <= s@.len(),
    ensures
        r == parse_usize_spec(s@.subrange(a as int, b as int)),
{
    let ghost t = s@.subrange(a as int, b as int);
    let mut start = a;
    if a < b && s[a] == '+' {
        start = a + 1;
    }
    assert(after_sign(t, '+') =~= s@.subrange(start as int, b as int));
    if start == b {
        return None;
    }
    let limit: u64 = if usize::MAX as u64 <= u64::MAX { usize::MAX as u64 } else { u64::MAX };
    match read_digits(s, start, b, limit) {
        Some(v) => Some(v as usize),
        None => None,
    }
}

/// Reads `s[a..b]` as `i64::from_str` would.
pub fn parse_i64(s: &Vec<char>, a: usize, b: usize) -> (r: Option<i64>)
    requires
        a <= b <= s@.len(),
    ensures
        r == parse_i64_spec(s@.subrange(a as int, b as int)),
{
    let ghost t = s@.subrange(a as int, b as int);
    let mut start = a;
    let mut neg = false;
    if a < b && (s[a] == '+' || s[a] == '-') {
        neg = s[a] == '-';
        start = a + 1;
    }
    assert(signed_digits(t) =~= s@.subrange(start as int, b as int));
    if start == b {
        return None;
    }
    let limit: u64 = if neg { 0x8000_0000_0000_0000 } else { 0x7fff_ffff_ffff_ffff };
    match read_digits(s, start, b, limit) {
        Some(v) => {
            if neg {
                if v == 0x8000_0000_0000_0000 {
                    Some(i64::MIN)
                } else {
                    Some(-(v as i64))
                }
            } else {
                Some(v as i64)
            }
        },
        None => None,
    }
}

/// The decimal digits of `n`, most significant first, without leading zeros.
pub open spec fn show_nat(n: nat) -> Seq<char>
    decreases n,
{
    if n < 10 {
        seq![digit_char(n)]
    } else {
        show_nat(n / 10) + seq![digit_char(n % 10)]
    }
}

/// The ASCII digit for a value below ten.
pub open spec fn digit_char(d: nat) -> char {
    (d + '0' as nat) as char
}

/// `n` in decimal, with a `-` before a negative value.
pub open spec fn show_int(n: int) -> Seq<char> {
    if n < 0 {
        seq!['-'] + show_nat((-n) as nat)
    } else {
        show_nat(n as nat)
    }
}

/// `n` written in decimal, as `Display` writes an integer.
pub fn decimal_chars(n: i32) -> (r: Vec<char>)
    ensures
        r@ == show_int(n as int),
{
    let wide: i64 = n as i64;
    let orig: u64 = if wide < 0 { (-wide) as u64 } else { wide as u64 };
    let mut m: u64 = orig;
    let mut out: Vec<char> = Vec::new();
    let d = (m % 10) as u32;
    out.push(char_of_digit(d));
    m = m / 10;
    while m > 0
        invariant
            show_nat(orig as nat) == (if m > 0 { show_nat(m as nat) } else { seq![] }) + out@,
        decreases m,
    {
        let d = (m % 10) as u32;
        let ghost before = out@;
        out.insert(0, char_of_digit(d));
        assert(out@ =~= seq![digit_char((m % 10) as nat)] + before);
        m = m / 10;
    }
    if n < 0 {
        out.insert(0, '-');
    }
    out
}

/// The ASCII digit for `d`.
fn char_of_digit(d: u32) -> (c: char)
    requires
        d < 10,
    ensures
        c == digit_char(d as nat),
{
    if d == 0 { '0' }
    else if d == 1 { '1' }
    else if d == 2 { '2' }
    else if d == 3 { '3' }
    else if d == 4 { '4' }
    else if d == 5 { '5' }
    else if d == 6 { '6' }
    else if d == 7 { '7' }
    else if d == 8 { '8' }
    else { '9' }
}

} // verus!
