//! Character-level text helpers: decimal rendering, radix parsing, ASCII
//! case folding and Unicode white space.
use vstd::prelude::*;

verus! {

/// The ASCII digit for `d` in `0..=9`.
pub open spec fn digit_char(d: int) -> char {
    if d == 0 {
        '0'
    } else if d == 1 {
        '1'
    } else if d == 2 {
        '2'
    } else if d == 3 {
        '3'
    } else if d == 4 {
        '4'
    } else if d == 5 {
        '5'
    } else if d == 6 {
        '6'
    } else if d == 7 {
        '7'
    } else if d == 8 {
        '8'
    } else {
        '9'
    }
}

/// Decimal rendering of `n`, without leading zeros.
pub open spec fn decimal(n: nat) -> Seq<char>
    decreases n,
{
    if n < 10 {
        seq![digit_char(n as int)]
    } else {
        decimal(n / 10).push(digit_char((n % 10) as int))
    }
}

/// Decimal rendering of `n` padded on the left with `'0'` to at least
/// `width` characters.
pub open spec fn zero_padded(n: nat, width: nat) -> Seq<char> {
    let ds = decimal(n);
    if ds.len() < width {
        Seq::new((width - ds.len()) as nat, |i: int| '0') + ds
    } else {
        ds
    }
}

/// The value of an ASCII decimal digit, or -1.
pub open spec fn decimal_digit_value(c: char) -> int {
    if '0' <= c && c <= '9' {
        c as int - '0' as int
    } else {
        -1
    }
}

/// The value of an ASCII hexadecimal digit (either case), or -1.
pub open spec fn hex_digit_value(c: char) -> int {
    if '0' <= c && c <= '9' {
        c as int - '0' as int
    } else if 'a' <= c && c <= 'f' {
        c as int - 'a' as int + 10
    } else if 'A' <= c && c <= 'F' {
        c as int - 'A' as int + 10
    } else {
        -1
    }
}

/// Value of a digit string in `radix` (10 or 16); meaningful when every
/// character is a digit of that radix.
pub open spec fn digits_value(t: Seq<char>, radix: int) -> int
    decreases t.len(),
{
    if t.len() == 0 {
        0
    } else {
        digits_value(t.drop_last(), radix) * radix + if radix == 16 {
            hex_digit_value(t.last())
        } else {
            decimal_digit_value(t.last())
        }
    }
}

/// All characters of `t` are digits of `radix` (10 or 16).
pub open spec fn all_digits(t: Seq<char>, radix: int) -> bool {
    forall|i: int|
        0 <= i < t.len() ==> if radix == 16 {
            hex_digit_value(#[trigger] t[i]) >= 0
        } else {
            decimal_digit_value(t[i]) >= 0
        }
}

/// How an unsigned integer type parses text in `radix` (10 or 16): an
/// optional `'+'`, then at least one digit, the value not above `max`.
pub open spec fn parse_unsigned(t: Seq<char>, radix: int, max: int) -> Option<int> {
    let ds = if t.len() > 0 && t[0] == '+' {
        t.drop_first()
    } else {
        t
    };
    if ds.len() > 0 && all_digits(ds, radix) && digits_value(ds, radix) <= max {
        Some(digits_value(ds, radix))
    } else {
        None
    }
}

spec fn pow10(k: nat) -> nat
    decreases k,
{
    if k == 0 {
        1
    } else {
        10 * pow10((k - 1) as nat)
    }
}

proof fn lemma_decimal_len_le(n: nat, k: nat)
    requires
        n < pow10(k),
        k >= 1,
    ensures
        decimal(n).len() <= k,
    decreases k,
{
    reveal_with_fuel(pow10, 2);
    if n >= 10 {
        assert(k >= 2);
        lemma_decimal_len_le(n / 10, (k - 1) as nat);
    }
}

/// Number of characters in the decimal rendering of `n`.
pub fn decimal_len(n: u64) -> (len: usize)
    ensures
        len == decimal(n as nat).len(),
        1 <= len <= 20,
    decreases n,
{
    if n < 10 {
        1
    } else {
        let l = decimal_len(n / 10);
        proof {
            reveal_with_fuel(pow10, 20);
            assert(pow10(19) == 10000000000000000000nat);
            lemma_decimal_len_le((n / 10) as nat, 19);
        }
        l + 1
    }
}

/// The one-character string of the ASCII digit `d`.
fn digit_str(d: u64) -> (s: &'static str)
    requires
        d < 10,
    ensures
        s@ == seq![digit_char(d as int)],
{
    let all = "0123456789";
    proof {
        reveal_strlit("0123456789");
    }
    let s = all.substring_char(d as usize, d as usize + 1);
    assert(s@ =~= seq![digit_char(d as int)]);
    s
}

/// Appends the decimal rendering of `n` to `out`.
pub fn push_decimal(out: &mut String, n: u64)
    ensures
        final(out)@ == old(out)@ + decimal(n as nat),
    decreases n,
{
    if n >= 10 {
        push_decimal(out, n / 10);
    }
    out.append(digit_str(n % 10));
    proof {
        if n >= 10 {
            assert(decimal(n as nat) =~= decimal((n / 10) as nat).push(digit_char((n % 10) as int)));
        }
    }
    assert(out@ =~= old(out)@ + decimal(n as nat));
}

/// Appends `n` in decimal, padded on the left with `'0'` to at least
/// `width` characters (as `format!("{:0width$}", n)` does).
pub fn push_zero_padded(out: &mut String, n: u64, width: usize)
    ensures
        final(out)@ == old(out)@ + zero_padded(n as nat, width as nat),
{
    let len = decimal_len(n);
    let mut i = len;
    let ghost start = out@;
    while i < width
        invariant
            len == decimal(n as nat).len(),
            len <= i,
            i <= width || i == len,
            out@ == start + Seq::new((i - len) as nat, |j: int| '0'),
        decreases width - i,
    {
        out.append("0");
        proof {
            reveal_strlit("0");
        }
        assert(out@ =~= start + Seq::new((i + 1 - len) as nat, |j: int| '0'));
        i = i + 1;
    }
    let ghost mid = out@;
    push_decimal(out, n);
    assert(out@ =~= start + zero_padded(n as nat, width as nat));
}

} // verus!

verus! {

/// The characters of `s`, in order.
pub fn chars_of(s: &str) -> (cs: Vec<char>)
    ensures
        cs@ == s@,
{
    let mut cs: Vec<char> = Vec::new();
    for c in it: s.chars()
        invariant
            cs@ == it.seq().take(it.index() as int),
            it.seq() == s@,
    {
        cs.push(c);
    }
    cs
}

proof fn lemma_digits_value_prefix(t: Seq<char>, i: int, radix: int)
    requires
        0 <= i <= t.len(),
        all_digits(t, radix),
        radix == 10 || radix == 16,
    ensures
        digits_value(t.take(i), radix) <= digits_value(t, radix),
        0 <= digits_value(t.take(i), radix),
    decreases t.len() - i,
{
    if i < t.len() {
        lemma_digits_value_prefix(t, i + 1, radix);
        assert(t.take(i + 1).drop_last() =~= t.take(i));
        assert(t.take(i + 1).last() == t[i]);
        lemma_digits_value_nonneg(t.take(i), radix);
    } else {
        assert(t.take(i) =~= t);
        lemma_digits_value_nonneg(t, radix);
    }
}

proof fn lemma_digits_value_nonneg(t: Seq<char>, radix: int)
    requires
        all_digits(t, radix),
        radix == 10 || radix == 16,
    ensures
        0 <= digits_value(t, radix),
    decreases t.len(),
{
    if t.len() > 0 {
        assert(all_digits(t.drop_last(), radix)) by {
            assert forall|i: int| 0 <= i < t.drop_last().len() implies if radix == 16 {
                hex_digit_value(#[trigger] t.drop_last()[i]) >= 0
            } else {
                decimal_digit_value(t.drop_last()[i]) >= 0
            } by {
                assert(t.drop_last()[i] == t[i]);
            }
        }
        lemma_digits_value_nonneg(t.drop_last(), radix);
        assert(t.last() == t[t.len() - 1]);
    }
}

proof fn lemma_mul_add_bound(v: int, r: int, d: int, m: int)
    by (nonlinear_arith)
    requires
        r > 0,
        0 <= d <= m,
        v >= 0,
    ensures
        v > (m - d) / r ==> v * r + d > m,
        v <= (m - d) / r ==> v * r + d <= m,
{
}

/// The value of `c` as a digit of `radix` (10 or 16), if it is one.
fn digit_in_radix(c: char, radix: u64) -> (d: Option<u64>)
    requires
        radix == 10 || radix == 16,
    ensures
        d matches Some(v) ==> v as int == (if radix == 16 {
            hex_digit_value(c)
        } else {
            decimal_digit_value(c)
        }) && v < radix,
        d is None ==> (if radix == 16 {
            hex_digit_value(c)
        } else {
            decimal_digit_value(c)
        }) < 0,
{
    if '0' <= c && c <= '9' {
        Some((c as u64) - ('0' as u64))
    } else if radix == 16 && 'a' <= c && c <= 'f' {
        Some((c as u64) - ('a' as u64) + 10)
    } else if radix == 16 && 'A' <= c && c <= 'F' {
        Some((c as u64) - ('A' as u64) + 10)
    } else {
        None
    }
}

/// Parses `cs[lo..hi]` as an unsigned number of radix 10 or 16 with
/// an optional leading `'+'`, as `from_str_radix` does for an unsigned
/// type whose largest value is `max`.
pub fn parse_unsigned_range(cs: &Vec<char>, lo: usize, hi: usize, radix: u64, max: u64) -> (r:
    Option<u64>)
    requires
        lo <= hi <= cs@.len(),
        radix == 10 || radix == 16,
    ensures
        r matches Some(v) ==> parse_unsigned(cs@.subrange(lo as int, hi as int), radix as int, max as int) == Some(v as int),
        r is None ==> parse_unsigned(cs@.subrange(lo as int, hi as int), radix as int, max as int) is None,
{
    let ghost t = cs@.subrange(lo as int, hi as int);
    let mut start = lo;
    if lo < hi && cs[lo] == '+' {
        start = lo + 1;
    }
    let ghost ds = cs@.subrange(start as int, hi as int);
    assert(ds =~= if t.len() > 0 && t[0] == '+' {
        t.drop_first()
    } else {
        t
    });
    if start == hi {
        return None;
    }
    let mut value: u64 = 0;
    let mut i = start;
    while i < hi
        invariant
            lo <= start <= i <= hi <= cs@.len(),
            radix == 10 || radix == 16,
            ds == cs@.subrange(start as int, hi as int),
            t == cs@.subrange(lo as int, hi as int),
            ds == (if t.len() > 0 && t[0] == '+' {
                t.drop_first()
            } else {
                t
            }),
            all_digits(ds.take(i - start), radix as int),
            value as int == digits_value(ds.take(i - start), radix as int),
            value <= max,
        decreases hi - i,
    {
        let c = cs[i];
        proof {
            assert(ds[i - start] == c);
        }
        let d = match digit_in_radix(c, radix) {
            Some(d) => d,
            None => {
                proof {
                    assert(!all_digits(ds, radix as int));
                }
                return None;
            },
        };
        let ghost pre = ds.take(i - start);
        let ghost next = ds.take(i + 1 - start);
        assert(next.drop_last() =~= pre);
        assert(next.last() == c);
        assert(all_digits(next, radix as int)) by {
            assert forall|j: int| 0 <= j < next.len() implies if radix == 16 {
                hex_digit_value(#[trigger] next[j]) >= 0
            } else {
                decimal_digit_value(next[j]) >= 0
            } by {
                if j < pre.len() {
                    assert(next[j] == pre[j]);
                }
            }
        }
        if d > max || value > (max - d) / radix {
            proof {
                if d <= max {
                    lemma_mul_add_bound(value as int, radix as int, d as int, max as int);
                }
                if all_digits(ds, radix as int) {
                    lemma_digits_value_prefix(ds, i + 1 - start, radix as int);
                }
            }
            return None;
        }
        proof {
            lemma_mul_add_bound(value as int, radix as int, d as int, max as int);
        }
        value = value * radix + d;
        i = i + 1;
    }
    assert(ds.take(i - start) =~= ds);
    Some(value)
}

} // verus!

verus! {

/// Index of the first `c` in `s`, or -1.
pub open spec fn first_index_of(s: Seq<char>, c: char) -> int
    decreases s.len(),
{
    if s.len() == 0 {
        -1
    } else if s[0] == c {
        0
    } else {
        let r = first_index_of(s.drop_first(), c);
        if r < 0 {
            -1
        } else {
            r + 1
        }
    }
}

/// Index of the last `c` in `s`, or -1.
pub open spec fn last_index_of(s: Seq<char>, c: char) -> int
    decreases s.len(),
{
    if s.len() == 0 {
        -1
    } else if s.last() == c {
        s.len() - 1
    } else {
        last_index_of(s.drop_last(), c)
    }
}

/// `s` split at its first `c` (as `str::split_once`).
pub open spec fn split_once_spec(s: Seq<char>, c: char) -> Option<(Seq<char>, Seq<char>)> {
    let i = first_index_of(s, c);
    if i < 0 {
        None
    } else {
        Some((s.take(i), s.skip(i + 1)))
    }
}

/// `s` split at its last `c` (as `str::rsplit_once`).
pub open spec fn rsplit_once_spec(s: Seq<char>, c: char) -> Option<(Seq<char>, Seq<char>)> {
    let i = last_index_of(s, c);
    if i < 0 {
        None
    } else {
        Some((s.take(i), s.skip(i + 1)))
    }
}

/// The part of `s` before its first `c`, or all of `s`
/// (as `s.split(c).next().unwrap()`).
pub open spec fn before_first(s: Seq<char>, c: char) -> Seq<char> {
    let i = first_index_of(s, c);
    if i < 0 {
        s
    } else {
        s.take(i)
    }
}

/// The pieces of `s` between occurrences of `c` (as `s.split(c)`).
pub open spec fn split_on(s: Seq<char>, c: char) -> Seq<Seq<char>>
    decreases s.len(),
{
    let i = first_index_of(s, c);
    if i < 0 {
        seq![s]
    } else {
        proof {
            lemma_first_index_of_bounds(s, c);
        }
        seq![s.take(i)] + split_on(s.skip(i + 1), c)
    }
}

/// `s` ends with `t`.
pub open spec fn ends_with(s: Seq<char>, t: Seq<char>) -> bool {
    t.len() <= s.len() && s.skip(s.len() - t.len()) == t
}

/// `c` with an ASCII capital letter mapped to its small letter.
pub open spec fn ascii_lower(c: char) -> char {
    if 'A' <= c && c <= 'Z' {
        ((c as int) + 32) as char
    } else {
        c
    }
}

/// `a` and `b` are equal up to ASCII case (as `str::eq_ignore_ascii_case`).
pub open spec fn eq_ascii_ci(a: Seq<char>, b: Seq<char>) -> bool {
    a.len() == b.len() && forall|i: int| 0 <= i < a.len() ==> ascii_lower(#[trigger] a[i]) == ascii_lower(b[i])
}

pub proof fn lemma_first_index_of_bounds(s: Seq<char>, c: char)
    ensures
        -1 <= first_index_of(s, c) < s.len(),
        first_index_of(s, c) >= 0 ==> s[first_index_of(s, c)] == c,
        forall|j: int| 0 <= j < s.len() && (first_index_of(s, c) < 0 || j < first_index_of(s, c)) ==> s[j] != c,
    decreases s.len(),
{
    if s.len() > 0 && s[0] != c {
        lemma_first_index_of_bounds(s.drop_first(), c);
        assert forall|j: int| 0 <= j < s.len() && (first_index_of(s, c) < 0 || j < first_index_of(s, c)) implies s[j] != c by {
            if j > 0 {
                assert(s[j] == s.drop_first()[j - 1]);
            }
        }
    }
}

pub proof fn lemma_last_index_of_bounds(s: Seq<char>, c: char)
    ensures
        -1 <= last_index_of(s, c) < s.len(),
        last_index_of(s, c) >= 0 ==> s[last_index_of(s, c)] == c,
        forall|j: int| 0 <= j < s.len() && last_index_of(s, c) < j ==> s[j] != c,
    decreases s.len(),
{
    if s.len() > 0 && s.last() != c {
        lemma_last_index_of_bounds(s.drop_last(), c);
        assert forall|j: int| 0 <= j < s.len() && last_index_of(s, c) < j implies s[j] != c by {
            if j < s.len() - 1 {
                assert(s[j] == s.drop_last()[j]);
            }
        }
    }
}

/// The first index is the one position holding `c` with none before it.
pub proof fn lemma_first_index_of_is(s: Seq<char>, c: char, k: int)
    requires
        -1 <= k < s.len(),
        k >= 0 ==> s[k] == c,
        forall|j: int| 0 <= j < s.len() && (k < 0 || j < k) ==> s[j] != c,
    ensures
        first_index_of(s, c) == k,
{
    lemma_first_index_of_bounds(s, c);
    let f = first_index_of(s, c);
    if f >= 0 && (k < 0 || f < k) {
        assert(s[f] != c);
    }
    if k >= 0 && (f < 0 || k < f) {
        assert(s[k] != c);
    }
}

/// The last index is the one position holding `c` with none after it.
pub proof fn lemma_last_index_of_is(s: Seq<char>, c: char, k: int)
    requires
        -1 <= k < s.len(),
        k >= 0 ==> s[k] == c,
        forall|j: int| 0 <= j < s.len() && k < j ==> s[j] != c,
    ensures
        last_index_of(s, c) == k,
{
    lemma_last_index_of_bounds(s, c);
    let f = last_index_of(s, c);
    if f > k {
        assert(s[f] != c);
    }
    if k > f {
        assert(s[k] != c);
    }
}

/// A `String` holding `s[lo..hi]` (character positions).
pub fn substring(s: &str, lo: usize, hi: usize) -> (r: String)
    requires
        lo <= hi <= s@.len(),
    ensures
        r@ == s@.subrange(lo as int, hi as int),
{
    String::from_str(s.substring_char(lo, hi))
}

/// Position of the first `c` in `cs[lo..hi]`.
pub fn find_char(cs: &Vec<char>, lo: usize, hi: usize, c: char) -> (r: Option<usize>)
    requires
        lo <= hi <= cs@.len(),
    ensures
        r matches Some(i) ==> lo <= i < hi && first_index_of(cs@.subrange(lo as int, hi as int), c)
            == i - lo,
        r is None ==> first_index_of(cs@.subrange(lo as int, hi as int), c) == -1,
{
    let ghost t = cs@.subrange(lo as int, hi as int);
    let mut i = lo;
    while i < hi
        invariant
            lo <= i <= hi <= cs@.len(),
            t == cs@.subrange(lo as int, hi as int),
            forall|j: int| lo <= j < i ==> cs@[j] != c,
        decreases hi - i,
    {
        if cs[i] == c {
            proof {
                lemma_first_index_of_is(t, c, i - lo);
            }
            return Some(i);
        }
        i = i + 1;
    }
    proof {
        lemma_first_index_of_is(t, c, -1);
    }
    None
}

/// Position of the last `c` in `cs[lo..hi]`.
pub fn rfind_char(cs: &Vec<char>, lo: usize, hi: usize, c: char) -> (r: Option<usize>)
    requires
        lo <= hi <= cs@.len(),
    ensures
        r matches Some(i) ==> lo <= i < hi && last_index_of(cs@.subrange(lo as int, hi as int), c)
            == i - lo,
        r is None ==> last_index_of(cs@.subrange(lo as int, hi as int), c) == -1,
{
    let ghost t = cs@.subrange(lo as int, hi as int);
    let mut i = hi;
    while i > lo
        invariant
            lo <= i <= hi <= cs@.len(),
            t == cs@.subrange(lo as int, hi as int),
            forall|j: int| i <= j < hi ==> cs@[j] != c,
        decreases i - lo,
    {
        if cs[i - 1] == c {
            proof {
                lemma_last_index_of_is(t, c, i - 1 - lo);
            }
            return Some(i - 1);
        }
        i = i - 1;
    }
    proof {
        lemma_last_index_of_is(t, c, -1);
    }
    None
}

/// `s` split at its first `c` (as `str::split_once`).
pub fn split_once_char(s: &str, c: char) -> (r: Option<(String, String)>)
    ensures
        r matches Some(p) ==> split_once_spec(s@, c) == Some((p.0@, p.1@)),
        r is None ==> split_once_spec(s@, c) is None,
{
    let cs = chars_of(s);
    assert(cs@.subrange(0, cs@.len() as int) =~= s@);
    match find_char(&cs, 0, cs.len(), c) {
        Some(i) => Some((substring(s, 0, i), substring(s, i + 1, cs.len()))),
        None => None,
    }
}

/// `s` split at its last `c` (as `str::rsplit_once`).
pub fn rsplit_once_char(s: &str, c: char) -> (r: Option<(String, String)>)
    ensures
        r matches Some(p) ==> rsplit_once_spec(s@, c) == Some((p.0@, p.1@)),
        r is None ==> rsplit_once_spec(s@, c) is None,
{
    let cs = chars_of(s);
    assert(cs@.subrange(0, cs@.len() as int) =~= s@);
    match rfind_char(&cs, 0, cs.len(), c) {
        Some(i) => Some((substring(s, 0, i), substring(s, i + 1, cs.len()))),
        None => None,
    }
}

/// The part of `s` before its first `c`, or all of `s`.
pub fn before_first_char(s: &str, c: char) -> (r: String)
    ensures
        r@ == before_first(s@, c),
{
    let cs = chars_of(s);
    assert(cs@.subrange(0, cs@.len() as int) =~= s@);
    match find_char(&cs, 0, cs.len(), c) {
        Some(i) => substring(s, 0, i),
        None => substring(s, 0, cs.len()),
    }
}

/// `cs[lo..hi]` and `t` hold the same characters.
pub fn range_equals(cs: &Vec<char>, lo: usize, hi: usize, t: &Vec<char>) -> (r: bool)
    requires
        lo <= hi <= cs@.len(),
    ensures
        r == (cs@.subrange(lo as int, hi as int) == t@),
{
    if hi - lo != t.len() {
        return false;
    }
    let mut i: usize = 0;
    while i < t.len()
        invariant
            lo <= hi <= cs@.len(),
            hi - lo == t@.len(),
            0 <= i <= t@.len(),
            forall|j: int| 0 <= j < i ==> cs@[lo + j] == t@[j],
        decreases t@.len() - i,
    {
        if cs[lo + i] != t[i] {
            assert(cs@.subrange(lo as int, hi as int)[i as int] != t@[i as int]);
            return false;
        }
        i = i + 1;
    }
    assert(cs@.subrange(lo as int, hi as int) =~= t@);
    true
}

/// `a` and `b` hold the same text.
pub fn text_eq(a: &str, b: &str) -> (r: bool)
    ensures
        r == (a@ == b@),
{
    let x = chars_of(a);
    let y = chars_of(b);
    let r = range_equals(&x, 0, x.len(), &y);
    assert(x@.subrange(0, x@.len() as int) =~= a@);
    r
}

/// `s` ends with `suffix` (as `str::ends_with`).
pub fn ends_with_text(s: &str, suffix: &str) -> (r: bool)
    ensures
        r == ends_with(s@, suffix@),
{
    let x = chars_of(s);
    let y = chars_of(suffix);
    if y.len() > x.len() {
        return false;
    }
    let r = range_equals(&x, x.len() - y.len(), x.len(), &y);
    assert(x@.subrange(x@.len() - y@.len(), x@.len() as int) =~= s@.skip(s@.len() - suffix@.len()));
    r
}

/// `a` and `b` are equal up to ASCII case (as `str::eq_ignore_ascii_case`).
pub fn eq_ignore_ascii_case(a: &str, b: &str) -> (r: bool)
    ensures
        r == eq_ascii_ci(a@, b@),
{
    let x = chars_of(a);
    let y = chars_of(b);
    if x.len() != y.len() {
        return false;
    }
    let mut i: usize = 0;
    while i < x.len()
        invariant
            x@ == a@,
            y@ == b@,
            x@.len() == y@.len(),
            0 <= i <= x@.len(),
            forall|j: int| 0 <= j < i ==> ascii_lower(#[trigger] x@[j]) == ascii_lower(y@[j]),
        decreases x@.len() - i,
    {
        if to_ascii_lower(x[i]) != to_ascii_lower(y[i]) {
            return false;
        }
        i = i + 1;
    }
    true
}

/// `c` with an ASCII capital letter mapped to its small letter.
pub fn to_ascii_lower(c: char) -> (r: char)
    ensures
        r == ascii_lower(c),
{
    if 'A' <= c && c <= 'Z' {
        ((c as u8) + 32) as char
    } else {
        c
    }
}

} // verus!

verus! {

/// `s` without its leading characters that satisfy `p`.
pub open spec fn trim_start_by(s: Seq<char>, p: spec_fn(char) -> bool) -> Seq<char>
    decreases s.len(),
{
    if s.len() > 0 && p(s[0]) {
        trim_start_by(s.drop_first(), p)
    } else {
        s
    }
}

/// `s` without its trailing characters that satisfy `p`.
pub open spec fn trim_end_by(s: Seq<char>, p: spec_fn(char) -> bool) -> Seq<char>
    decreases s.len(),
{
    if s.len() > 0 && p(s.last()) {
        trim_end_by(s.drop_last(), p)
    } else {
        s
    }
}

/// Unicode `White_Space` (as `char::is_whitespace`).
pub open spec fn is_unicode_whitespace(c: char) -> bool {
    ('\u{9}' <= c && c <= '\u{d}') || c == ' ' || c == '\u{85}' || c == '\u{a0}' || c
        == '\u{1680}' || ('\u{2000}' <= c && c <= '\u{200a}') || c == '\u{2028}' || c
        == '\u{2029}' || c == '\u{202f}' || c == '\u{205f}' || c == '\u{3000}'
}

/// `s` without leading and trailing white space (as `str::trim`).
pub open spec fn trim_ws(s: Seq<char>) -> Seq<char> {
    trim_end_by(trim_start_by(s, whitespace_pred()), whitespace_pred())
}

/// The white-space predicate as a value.
pub open spec fn whitespace_pred() -> spec_fn(char) -> bool {
    |c: char| is_unicode_whitespace(c)
}

/// The predicate "is `x`".
pub open spec fn char_pred(x: char) -> spec_fn(char) -> bool {
    |c: char| c == x
}

/// `s` without trailing white space (as `str::trim_end`).
pub open spec fn trim_end_ws(s: Seq<char>) -> Seq<char> {
    trim_end_by(s, whitespace_pred())
}

/// `s` without leading and trailing `c` (as `str::trim_matches(c)`).
pub open spec fn trim_matches_char(s: Seq<char>, c: char) -> Seq<char> {
    trim_end_by(trim_start_by(s, char_pred(c)), char_pred(c))
}

/// Length of the run of non-white-space characters that starts `s`.
pub open spec fn token_len(s: Seq<char>) -> nat
    decreases s.len(),
{
    if s.len() == 0 || is_unicode_whitespace(s[0]) {
        0
    } else {
        1 + token_len(s.drop_first())
    }
}

/// The maximal runs of non-white-space characters of `s`, in order
/// (as `str::split_whitespace`).
pub open spec fn ws_tokens(s: Seq<char>) -> Seq<Seq<char>>
    decreases s.len(),
{
    if s.len() == 0 {
        seq![]
    } else if is_unicode_whitespace(s[0]) {
        ws_tokens(s.drop_first())
    } else {
        proof {
            lemma_token_len(s);
        }
        seq![s.take(token_len(s) as int)] + ws_tokens(s.skip(token_len(s) as int))
    }
}

pub proof fn lemma_token_len(s: Seq<char>)
    ensures
        token_len(s) <= s.len(),
        forall|j: int| 0 <= j < token_len(s) ==> !is_unicode_whitespace(#[trigger] s[j]),
        token_len(s) < s.len() ==> is_unicode_whitespace(s[token_len(s) as int]),
    decreases s.len(),
{
    if s.len() > 0 && !is_unicode_whitespace(s[0]) {
        lemma_token_len(s.drop_first());
        assert forall|j: int| 0 <= j < token_len(s) implies !is_unicode_whitespace(#[trigger] s[j]) by {
            if j > 0 {
                assert(s[j] == s.drop_first()[j - 1]);
            }
        }
    }
}

proof fn lemma_token_len_is(s: Seq<char>, k: int)
    requires
        0 <= k <= s.len(),
        forall|j: int| 0 <= j < k ==> !is_unicode_whitespace(#[trigger] s[j]),
        k < s.len() ==> is_unicode_whitespace(s[k]),
    ensures
        token_len(s) == k,
    decreases k,
{
    if k > 0 {
        assert forall|j: int| 0 <= j < k - 1 implies !is_unicode_whitespace(#[trigger] s.drop_first()[j]) by {
            assert(s.drop_first()[j] == s[j + 1]);
        }
        lemma_token_len_is(s.drop_first(), k - 1);
    }
}

proof fn lemma_trim_start_by(s: Seq<char>, p: spec_fn(char) -> bool, a: int)
    requires
        0 <= a <= s.len(),
        forall|j: int| 0 <= j < a ==> p(#[trigger] s[j]),
        a < s.len() ==> !p(s[a]),
    ensures
        trim_start_by(s, p) == s.skip(a),
    decreases a,
{
    if a > 0 {
        assert forall|j: int| 0 <= j < a - 1 implies p(#[trigger] s.drop_first()[j]) by {
            assert(s.drop_first()[j] == s[j + 1]);
        }
        lemma_trim_start_by(s.drop_first(), p, a - 1);
        assert(s.drop_first().skip(a - 1) =~= s.skip(a));
    } else {
        assert(s.skip(0) =~= s);
    }
}

proof fn lemma_trim_end_by(s: Seq<char>, p: spec_fn(char) -> bool, b: int)
    requires
        0 <= b <= s.len(),
        forall|j: int| b <= j < s.len() ==> p(#[trigger] s[j]),
        b > 0 ==> !p(s[b - 1]),
    ensures
        trim_end_by(s, p) == s.take(b),
    decreases s.len() - b,
{
    if b < s.len() {
        assert forall|j: int| b <= j < s.drop_last().len() implies p(#[trigger] s.drop_last()[j]) by {
            assert(s.drop_last()[j] == s[j]);
        }
        assert(p(s.last()));
        lemma_trim_end_by(s.drop_last(), p, b);
        assert(s.drop_last().take(b) =~= s.take(b));
    } else {
        assert(s.take(b) =~= s);
    }
}

/// How `trim_span` chooses what to strip.
pub enum TrimKind {
    /// White space (as `char::is_whitespace`).
    Whitespace,
    /// One given character.
    Char(char),
}

/// The predicate that a `TrimKind` strips.
pub open spec fn trim_pred(kind: TrimKind) -> spec_fn(char) -> bool {
    match kind {
        TrimKind::Whitespace => whitespace_pred(),
        TrimKind::Char(x) => char_pred(x),
    }
}

/// Whether `c` is white space (as `char::is_whitespace`).
pub fn is_whitespace(c: char) -> (r: bool)
    ensures
        r == is_unicode_whitespace(c),
{
    ('\u{9}' <= c && c <= '\u{d}') || c == ' ' || c == '\u{85}' || c == '\u{a0}' || c
        == '\u{1680}' || ('\u{2000}' <= c && c <= '\u{200a}') || c == '\u{2028}' || c
        == '\u{2029}' || c == '\u{202f}' || c == '\u{205f}' || c == '\u{3000}'
}

fn strips(kind: &TrimKind, c: char) -> (r: bool)
    ensures
        r == (trim_pred(*kind))(c),
{
    match kind {
        TrimKind::Whitespace => is_whitespace(c),
        TrimKind::Char(x) => c == *x,
    }
}

/// The character span `[a, b)` of `cs` that is left when the characters
/// `kind` strips are taken off the start (if `start`) and off the end.
pub fn trim_span(cs: &Vec<char>, kind: &TrimKind, start: bool) -> (span: (usize, usize))
    ensures
        span.0 <= span.1 <= cs@.len(),
        start ==> cs@.subrange(span.0 as int, span.1 as int) == trim_end_by(
            trim_start_by(cs@, trim_pred(*kind)),
            trim_pred(*kind),
        ),
        !start ==> cs@.subrange(span.0 as int, span.1 as int) == trim_end_by(cs@, trim_pred(*kind)),
{
    let ghost p = trim_pred(*kind);
    let mut a: usize = 0;
    if start {
        while a < cs.len() && strips(kind, cs[a])
            invariant
                a <= cs@.len(),
                p == trim_pred(*kind),
                forall|j: int| 0 <= j < a ==> p(#[trigger] cs@[j]),
            decreases cs@.len() - a,
        {
            a = a + 1;
        }
        proof {
            lemma_trim_start_by(cs@, p, a as int);
        }
    }
    let mut b: usize = cs.len();
    while b > a && strips(kind, cs[b - 1])
        invariant
            a <= b <= cs@.len(),
            p == trim_pred(*kind),
            forall|j: int| b <= j < cs@.len() ==> p(#[trigger] cs@[j]),
        decreases b - a,
    {
        b = b - 1;
    }
    proof {
        let t = cs@.skip(a as int);
        assert forall|j: int| b - a <= j < t.len() implies p(#[trigger] t[j]) by {
            assert(t[j] == cs@[a + j]);
        }
        if b > a {
            assert(t[b - a - 1] == cs@[b - 1]);
        }
        lemma_trim_end_by(t, p, b - a);
        assert(t.take(b - a) =~= cs@.subrange(a as int, b as int));
        if !start {
            assert(t =~= cs@);
        }
    }
    (a, b)
}

/// `s` without leading and trailing white space (as `str::trim`).
pub fn trim_whitespace(s: &str) -> (r: String)
    ensures
        r@ == trim_ws(s@),
{
    let cs = chars_of(s);
    let (a, b) = trim_span(&cs, &TrimKind::Whitespace, true);
    substring(s, a, b)
}

/// `s` without trailing white space (as `str::trim_end`).
pub fn trim_end_whitespace(s: &str) -> (r: String)
    ensures
        r@ == trim_end_ws(s@),
{
    let cs = chars_of(s);
    let (a, b) = trim_span(&cs, &TrimKind::Whitespace, false);
    substring(s, a, b)
}

/// `s` without leading and trailing `c` (as `str::trim_matches(c)`).
pub fn trim_matches(s: &str, c: char) -> (r: String)
    ensures
        r@ == trim_matches_char(s@, c),
{
    let cs = chars_of(s);
    let (a, b) = trim_span(&cs, &TrimKind::Char(c), true);
    substring(s, a, b)
}

} // verus!

verus! {

/// The text views of a list of strings.
pub open spec fn views(v: Seq<String>) -> Seq<Seq<char>> {
    v.map_values(|x: String| x@)
}

/// The pieces of `s` between occurrences of `c` (as `s.split(c)`).
pub fn split_char(s: &str, c: char) -> (pieces: Vec<String>)
    ensures
        views(pieces@) == split_on(s@, c),
{
    let cs = chars_of(s);
    let n = cs.len();
    let mut pieces: Vec<String> = Vec::new();
    let mut st: usize = 0;
    assert(views(pieces@) + split_on(s@.skip(0), c) =~= split_on(s@, c)) by {
        assert(s@.skip(0) =~= s@);
    }
    loop
        invariant
            cs@ == s@,
            n == cs@.len(),
            st <= n,
            views(pieces@) + split_on(s@.skip(st as int), c) == split_on(s@, c),
        decreases n - st,
    {
        let ghost t = s@.skip(st as int);
        assert(cs@.subrange(st as int, n as int) =~= t);
        match find_char(&cs, st, n, c) {
            Some(i) => {
                let piece = substring(s, st, i);
                let ghost before = views(pieces@);
                pieces.push(piece);
                proof {
                    assert(t.take(i - st) =~= s@.subrange(st as int, i as int));
                    assert(t.skip(i - st + 1) =~= s@.skip(i + 1));
                    assert(views(pieces@) =~= before.push(piece@));
                    assert(split_on(t, c) == seq![t.take(i - st)] + split_on(t.skip(i - st + 1), c));
                    assert(views(pieces@) + split_on(s@.skip(i + 1), c) =~= before + split_on(t, c));
                }
                st = i + 1;
            },
            None => {
                let piece = substring(s, st, n);
                let ghost before = views(pieces@);
                pieces.push(piece);
                proof {
                    assert(t =~= s@.subrange(st as int, n as int));
                    assert(views(pieces@) =~= before.push(piece@));
                    assert(split_on(t, c) == seq![t]);
                    assert(views(pieces@) =~= before + split_on(t, c));
                }
                return pieces;
            },
        }
    }
}

/// Span `[a, b)` of the first white-space-separated token of `cs[from..]`,
/// if there is one.
pub fn next_token(cs: &Vec<char>, from: usize) -> (r: Option<(usize, usize)>)
    requires
        from <= cs@.len(),
    ensures
        r is None ==> ws_tokens(cs@.skip(from as int)) == Seq::<Seq<char>>::empty(),
        r matches Some(span) ==> from <= span.0 < span.1 <= cs@.len() && ws_tokens(
            cs@.skip(from as int),
        ) == seq![cs@.subrange(span.0 as int, span.1 as int)] + ws_tokens(
            cs@.skip(span.1 as int),
        ),
{
    let mut a = from;
    while a < cs.len() && is_whitespace(cs[a])
        invariant
            from <= a <= cs@.len(),
            ws_tokens(cs@.skip(from as int)) == ws_tokens(cs@.skip(a as int)),
        decreases cs@.len() - a,
    {
        proof {
            assert(cs@.skip(a as int).drop_first() =~= cs@.skip(a + 1));
        }
        a = a + 1;
    }
    if a == cs.len() {
        proof {
            assert(cs@.skip(a as int) =~= Seq::<char>::empty());
        }
        return None;
    }
    let mut b = a;
    while b < cs.len() && !is_whitespace(cs[b])
        invariant
            a <= b <= cs@.len(),
            forall|j: int| a <= j < b ==> !is_unicode_whitespace(#[trigger] cs@[j]),
        decreases cs@.len() - b,
    {
        b = b + 1;
    }
    proof {
        let t = cs@.skip(a as int);
        assert forall|j: int| 0 <= j < b - a implies !is_unicode_whitespace(#[trigger] t[j]) by {
            assert(t[j] == cs@[a + j]);
        }
        if b < cs@.len() {
            assert(t[b - a] == cs@[b as int]);
        }
        lemma_token_len_is(t, b - a);
        assert(t.take(b - a) =~= cs@.subrange(a as int, b as int));
        assert(t.skip(b - a) =~= cs@.skip(b as int));
    }
    Some((a, b))
}

/// The first two white-space-separated tokens of `s`, where they exist.
pub fn first_two_tokens(s: &str) -> (r: (Option<String>, Option<String>))
    ensures
        ws_tokens(s@).len() >= 1 <==> r.0 is Some,
        ws_tokens(s@).len() >= 2 <==> r.1 is Some,
        r.0 matches Some(t) ==> t@ == ws_tokens(s@)[0],
        r.1 matches Some(t) ==> t@ == ws_tokens(s@)[1],
{
    let cs = chars_of(s);
    assert(cs@.skip(0) =~= s@);
    match next_token(&cs, 0) {
        None => (None, None),
        Some((a, b)) => {
            let first = substring(s, a, b);
            match next_token(&cs, b) {
                None => (Some(first), None),
                Some((c, d)) => (Some(first), Some(substring(s, c, d))),
            }
        },
    }
}

} // verus!

verus! {

/// Name for the result of std's `str::to_lowercase`: the Unicode lowercase
/// mapping of a text (one that depends on the text alone).
pub uninterp spec fn unicode_lowercase(s: Seq<char>) -> Seq<char>;

/// Calls std's `str::to_lowercase`; the contract claims only that the result
/// is `unicode_lowercase` of the argument (the same text, the same result).
#[verifier::external_body]
pub(crate) fn to_lowercase(s: &str) -> (r: String)
    ensures
        r@ == unicode_lowercase(s@),
{
    s.to_lowercase()
}

} // verus!
