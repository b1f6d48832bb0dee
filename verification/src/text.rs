//! Text: white space, trimming, numerals and the few searches the rest of the
//! library needs, each stated over the sequence of a string's characters.

use vstd::prelude::*;
use vstd::string::StrSliceExecFns;
use vstd::string::StringExecFns;

verus! {

/// `String::push` appends one character to the end of the string.
pub assume_specification[ String::push ](s: &mut String, c: char)
    ensures
        final(s)@ == old(s)@.push(c),
;

/// The characters with the Unicode property White_Space.
pub open spec fn is_white_space(c: char) -> bool {
    let n = c as u32;
    ||| 0x9 <= n <= 0xd
    ||| n == 0x20
    ||| n == 0x85
    ||| n == 0xa0
    ||| n == 0x1680
    ||| 0x2000 <= n <= 0x200a
    ||| n == 0x2028
    ||| n == 0x2029
    ||| n == 0x202f
    ||| n == 0x205f
    ||| n == 0x3000
}

/// Whether `c` is white space.
pub fn white_space(c: char) -> (r: bool)
    ensures
        r == is_white_space(c),
{
    let n: u32 = c as u32;
    (0x9 <= n && n <= 0xd) || n == 0x20 || n == 0x85 || n == 0xa0 || n == 0x1680 || (0x2000 <= n
        && n <= 0x200a) || n == 0x2028 || n == 0x2029 || n == 0x202f || n == 0x205f || n == 0x3000
}

/// `s` without the white space at its start.
pub open spec fn without_leading(s: Seq<char>) -> Seq<char>
    decreases s.len(),
{
    if s.len() > 0 && is_white_space(s[0]) {
        without_leading(s.drop_first())
    } else {
        s
    }
}

/// `s` without the white space at its end.
pub open spec fn without_trailing(s: Seq<char>) -> Seq<char>
    decreases s.len(),
{
    if s.len() > 0 && is_white_space(s.last()) {
        without_trailing(s.drop_last())
    } else {
        s
    }
}

/// `s` without the white space at either end.
pub open spec fn trimmed(s: Seq<char>) -> Seq<char> {
    without_trailing(without_leading(s))
}

/// A text that is empty or holds nothing but white space.
pub open spec fn is_blank(s: Seq<char>) -> bool {
    forall|i: int| 0 <= i < s.len() ==> is_white_space(#[trigger] s[i])
}

proof fn lemma_without_leading(s: Seq<char>, i: int)
    requires
        0 <= i <= s.len(),
        forall|k: int| 0 <= k < i ==> is_white_space(#[trigger] s[k]),
        i < s.len() ==> !is_white_space(s[i]),
    ensures
        without_leading(s) == s.subrange(i, s.len() as int),
    decreases i,
{
    if i == 0 {
        assert(s.subrange(0, s.len() as int) =~= s);
    } else {
        lemma_without_leading(s.drop_first(), i - 1);
        assert(s.drop_first().subrange(i - 1, s.len() - 1) =~= s.subrange(i, s.len() as int));
    }
}

proof fn lemma_without_trailing(s: Seq<char>, j: int)
    requires
        0 <= j <= s.len(),
        forall|k: int| j <= k < s.len() ==> is_white_space(#[trigger] s[k]),
        j > 0 ==> !is_white_space(s[j - 1]),
    ensures
        without_trailing(s) == s.subrange(0, j),
    decreases s.len() - j,
{
    if j == s.len() {
        assert(s.subrange(0, j) =~= s);
    } else {
        lemma_without_trailing(s.drop_last(), j);
        assert(s.drop_last().subrange(0, j) =~= s.subrange(0, j));
    }
}

/// The text between the first and the last character that is not white space
/// is the trimmed text.
proof fn lemma_trimmed_is(s: Seq<char>, i: int, j: int)
    requires
        0 <= i <= j <= s.len(),
        forall|k: int| 0 <= k < i ==> is_white_space(#[trigger] s[k]),
        forall|k: int| j <= k < s.len() ==> is_white_space(#[trigger] s[k]),
        i < j ==> !is_white_space(s[i]) && !is_white_space(s[j - 1]),
        i == j ==> i == s.len(),
    ensures
        trimmed(s) == s.subrange(i, j),
{
    lemma_without_leading(s, i);
    let t = s.subrange(i, s.len() as int);
    lemma_without_trailing(t, j - i);
    assert(t.subrange(0, j - i) =~= s.subrange(i, j));
}

/// What `trimmed` leaves: it starts and ends with something other than white
/// space, it is empty exactly when the text was blank, and what it takes away
/// on either side is white space.
pub proof fn lemma_trimmed(s: Seq<char>)
    ensures
        trimmed(s).len() == 0 <==> is_blank(s),
        trimmed(s).len() > 0 ==> !is_white_space(trimmed(s)[0]) && !is_white_space(
            trimmed(s).last(),
        ),
        exists|i: int, j: int|
            #![trigger s.subrange(i, j)]
            {
                &&& 0 <= i <= j <= s.len()
                &&& trimmed(s) == s.subrange(i, j)
                &&& forall|k: int| 0 <= k < i || j <= k < s.len() ==> is_white_space(#[trigger] s[k])
            },
{
    if is_blank(s) {
        lemma_trimmed_is(s, s.len() as int, s.len() as int);
    } else {
        let (i, j) = lemma_bounds(s);
        lemma_trimmed_is(s, i, j);
        assert(s.subrange(i, j)[0] == s[i]);
    }
}

/// The first and one past the last character that is not white space.
proof fn lemma_bounds(s: Seq<char>) -> (r: (int, int))
    requires
        !is_blank(s),
    ensures
        0 <= r.0 < r.1 <= s.len(),
        forall|k: int| 0 <= k < r.0 ==> is_white_space(#[trigger] s[k]),
        forall|k: int| r.1 <= k < s.len() ==> is_white_space(#[trigger] s[k]),
        !is_white_space(s[r.0]),
        !is_white_space(s[r.1 - 1]),
    decreases s.len(),
{
    let p = s.drop_last();
    if is_white_space(s.last()) {
        let w = choose|w: int| 0 <= w < s.len() && !is_white_space(s[w]);
        assert(p[w] == s[w]);
        let (i, j) = lemma_bounds(p);
        assert forall|k: int| 0 <= k < i implies is_white_space(#[trigger] s[k]) by {
            assert(p[k] == s[k]);
        }
        assert forall|k: int| j <= k < s.len() implies is_white_space(#[trigger] s[k]) by {
            if k < s.len() - 1 {
                assert(p[k] == s[k]);
            }
        }
        (i, j)
    } else if is_blank(p) {
        assert forall|k: int| 0 <= k < s.len() - 1 implies is_white_space(#[trigger] s[k]) by {
            assert(p[k] == s[k]);
        }
        (s.len() - 1, s.len() as int)
    } else {
        let (i, j) = lemma_bounds(p);
        assert forall|k: int| 0 <= k < i implies is_white_space(#[trigger] s[k]) by {
            assert(p[k] == s[k]);
        }
        (i, s.len() as int)
    }
}

/// A text that neither starts nor ends with white space is its own trimming.
pub proof fn lemma_trimmed_fixed(s: Seq<char>)
    requires
        s.len() > 0 ==> !is_white_space(s[0]) && !is_white_space(s.last()),
    ensures
        trimmed(s) == s,
{
    lemma_trimmed_is(s, 0, s.len() as int);
    assert(s.subrange(0, s.len() as int) =~= s);
}

/// Trimming twice is trimming once.
pub proof fn trimming_is_idempotent(s: Seq<char>)
    ensures
        trimmed(trimmed(s)) == trimmed(s),
{
    lemma_trimmed(s);
    lemma_trimmed_fixed(trimmed(s));
}

/// The characters of `s`, in order.
pub fn chars_of(s: &str) -> (r: Vec<char>)
    ensures
        r@ == s@,
{
    let mut out: Vec<char> = Vec::new();
    for c in it: s.chars()
        invariant
            it.seq() == s@,
            out@ == s@.take(it.index() as int),
    {
        out.push(c);
        assert(out@ =~= s@.take(it.index() + 1));
    }
    assert(s@.take(s@.len() as int) =~= s@);
    out
}

/// `s` without the white space at either end.
pub fn trim(s: &str) -> (r: &str)
    ensures
        r@ == trimmed(s@),
{
    let chars = chars_of(s);
    let n: usize = chars.len();
    let mut i: usize = 0;
    while i < n && white_space(chars[i])
        invariant
            n == chars@.len(),
            chars@ == s@,
            i <= n,
            forall|k: int| 0 <= k < i ==> is_white_space(#[trigger] s@[k]),
        decreases n - i,
    {
        i = i + 1;
    }
    let mut j: usize = n;
    while i < j && white_space(chars[j - 1])
        invariant
            n == chars@.len(),
            chars@ == s@,
            i <= j <= n,
            i < n ==> !is_white_space(s@[i as int]),
            forall|k: int| j <= k < n ==> is_white_space(#[trigger] s@[k]),
        decreases j,
    {
        j = j - 1;
    }
    proof {
        lemma_trimmed_is(s@, i as int, j as int);
    }
    s.substring_char(i, j)
}

/// Whether `s` is empty or nothing but white space.
pub fn blank(s: &str) -> (r: bool)
    ensures
        r == is_blank(s@),
{
    proof {
        lemma_trimmed(s@);
    }
    trim(s).is_empty()
}

/// Whether two texts hold the same characters.
pub fn same(a: &str, b: &str) -> (r: bool)
    ensures
        r == (a@ == b@),
{
    a.to_owned() == b.to_owned()
}

/// `part` occurs in `s`.
pub open spec fn occurs_in(part: Seq<char>, s: Seq<char>) -> bool {
    exists|i: int|
        0 <= i <= s.len() - part.len() && #[trigger] s.subrange(i, i + part.len()) == part
}

/// Whether `part` occurs in `s`.
pub fn contains(s: &str, part: &str) -> (r: bool)
    ensures
        r == occurs_in(part@, s@),
{
    let hay = chars_of(s);
    let needle = chars_of(part);
    let n: usize = hay.len();
    let m: usize = needle.len();
    if m > n {
        return false;
    }
    let mut i: usize = 0;
    while i <= n - m
        invariant
            hay@ == s@,
            needle@ == part@,
            n == hay@.len(),
            m == needle@.len(),
            m <= n,
            i <= n - m + 1,
            forall|k: int| 0 <= k < i ==> #[trigger] s@.subrange(k, k + m) != part@,
        decreases n - m + 1 - i,
    {
        let mut j: usize = 0;
        while j < m && hay[i + j] == needle[j]
            invariant
                hay@ == s@,
                needle@ == part@,
                n == hay@.len(),
                m == needle@.len(),
                i + m <= n,
                j <= m,
                forall|k: int| 0 <= k < j ==> s@[i + k] == #[trigger] part@[k],
            decreases m - j,
        {
            j = j + 1;
        }
        if j == m {
            assert(s@.subrange(i as int, i + m) =~= part@);
            return true;
        }
        assert(s@.subrange(i as int, i + m)[j as int] != part@[j as int]);
        i = i + 1;
    }
    false
}

/// `s` with every line feed made a space.
pub open spec fn one_line(s: Seq<char>) -> Seq<char> {
    s.map_values(|c: char| if c == '\n' { ' ' } else { c })
}

/// `s` on one line: every line feed is made a space.
pub fn on_one_line(s: &str) -> (r: String)
    ensures
        r@ == one_line(s@),
{
    let mut out = String::new();
    for c in it: s.chars()
        invariant
            it.seq() == s@,
            out@ == one_line(s@.take(it.index() as int)),
    {
        assert(one_line(s@.take(it.index() + 1)) =~= one_line(s@.take(it.index() as int)).push(
            if c == '\n' { ' ' } else { c },
        ));
        if c == '\n' {
            out.push(' ');
        } else {
            out.push(c);
        }
    }
    assert(s@.take(s@.len() as int) =~= s@);
    out
}

/// The digit for `d`: `0` to `9`, then `a` to `f`.
pub open spec fn digit(d: nat) -> char {
    if d < 10 {
        (48 + d) as char
    } else {
        (87 + d) as char
    }
}

/// `n` written in base `base` with no leading zeros.
pub open spec fn numeral(n: nat, base: nat) -> Seq<char>
    decreases n,
{
    if n < base || base < 2 {
        seq![digit(n)]
    } else {
        proof {
            vstd::arithmetic::div_mod::lemma_div_decreases(n as int, base as int);
        }
        numeral(n / base, base).push(digit(n % base))
    }
}

/// `n` in decimal.
pub open spec fn decimal(n: nat) -> Seq<char> {
    numeral(n, 10)
}

/// `n` in hexadecimal.
pub open spec fn hexadecimal(n: nat) -> Seq<char> {
    numeral(n, 16)
}

/// The character for one digit.
fn digit_char(d: u128) -> (r: char)
    requires
        d < 16,
    ensures
        r == digit(d as nat),
{
    if d < 10 {
        (48 + d as u8) as char
    } else {
        (87 + d as u8) as char
    }
}

/// `n` in base ten or sixteen.
fn write_numeral(n: u128, base: u128) -> (r: String)
    requires
        base == 10 || base == 16,
    ensures
        r@ == numeral(n as nat, base as nat),
    decreases n,
{
    if n < base {
        let mut out = String::new();
        out.push(digit_char(n));
        assert(out@ =~= numeral(n as nat, base as nat));
        out
    } else {
        let (high, low): (u128, u128) = if base == 10 {
            (n / 10, n % 10)
        } else {
            (n / 16, n % 16)
        };
        let mut out = write_numeral(high, base);
        out.push(digit_char(low));
        out
    }
}

/// `n` in decimal, as a string.
pub fn in_decimal(n: u128) -> (r: String)
    ensures
        r@ == decimal(n as nat),
{
    write_numeral(n, 10)
}

/// `n` in hexadecimal with lower-case letters, as a string.
pub fn in_hexadecimal(n: u128) -> (r: String)
    ensures
        r@ == hexadecimal(n as nat),
{
    write_numeral(n, 16)
}

/// No numeral is empty, and each of its characters is a digit.
pub proof fn lemma_numeral_digits(n: nat, base: nat)
    requires
        2 <= base <= 16,
    ensures
        numeral(n, base).len() > 0,
        forall|i: int|
            0 <= i < numeral(n, base).len() ==> exists|d: nat|
                d < base && #[trigger] numeral(n, base)[i] == #[trigger] digit(d),
    decreases n,
{
    if n < base {
        assert(numeral(n, base)[0] == digit(n));
    } else {
        vstd::arithmetic::div_mod::lemma_div_decreases(n as int, base as int);
        vstd::arithmetic::div_mod::lemma_mod_bound(n as int, base as int);
        lemma_numeral_digits(n / base, base);
        let high = numeral(n / base, base);
        assert forall|i: int| 0 <= i < numeral(n, base).len() implies exists|d: nat|
            d < base && #[trigger] numeral(n, base)[i] == #[trigger] digit(d) by {
            if i < high.len() {
                assert(numeral(n, base)[i] == high[i]);
            } else {
                assert(numeral(n, base)[i] == digit(n % base));
            }
        }
    }
}

/// Different numbers have different numerals.
pub proof fn numerals_are_distinct(a: nat, b: nat, base: nat)
    requires
        2 <= base <= 16,
        numeral(a, base) == numeral(b, base),
    ensures
        a == b,
    decreases a,
{
    let s = numeral(a, base);
    let t = numeral(b, base);
    lemma_numeral_digits(a / base, base);
    lemma_numeral_digits(b / base, base);
    vstd::arithmetic::div_mod::lemma_fundamental_div_mod(a as int, base as int);
    vstd::arithmetic::div_mod::lemma_fundamental_div_mod(b as int, base as int);
    vstd::arithmetic::div_mod::lemma_mod_bound(a as int, base as int);
    vstd::arithmetic::div_mod::lemma_mod_bound(b as int, base as int);
    if a < base {
        assert(s.len() == 1);
        if b >= base {
            assert(t.len() == numeral(b / base, base).len() + 1);
        }
        assert(s[0] == t[0]);
    } else if b < base {
        assert(s.len() == numeral(a / base, base).len() + 1);
        assert(t.len() == 1);
    } else {
        vstd::arithmetic::div_mod::lemma_div_decreases(a as int, base as int);
        assert(numeral(a / base, base) =~= s.drop_last());
        assert(numeral(b / base, base) =~= t.drop_last());
        numerals_are_distinct(a / base, b / base, base);
        assert(s.last() == t.last());
    }
}

/// A text has a part exactly if it is that part with something before it and
/// something after it.
pub proof fn a_part_has_something_on_each_side(part: Seq<char>, s: Seq<char>)
    ensures
        occurs_in(part, s) <==> exists|a: Seq<char>, b: Seq<char>| s == #[trigger] (a + part + b),
{
    if occurs_in(part, s) {
        let i = choose|i: int|
            0 <= i <= s.len() - part.len() && #[trigger] s.subrange(i, i + part.len()) == part;
        let (a, b) = (s.take(i), s.skip(i + part.len()));
        assert(s =~= a + s.subrange(i, i + part.len()) + b);
    }
    if exists|a: Seq<char>, b: Seq<char>| s == #[trigger] (a + part + b) {
        let (a, b) = choose|a: Seq<char>, b: Seq<char>| s == #[trigger] (a + part + b);
        let i = a.len() as int;
        assert(s.subrange(i, i + part.len()) =~= part);
    }
}

/// A text on one line has no line feed, and differs from the text nowhere else.
pub proof fn one_line_differs_in_line_feeds(s: Seq<char>, i: int)
    requires
        0 <= i < s.len(),
    ensures
        one_line(s).len() == s.len(),
        one_line(s)[i] != '\n',
        s[i] == '\n' ==> one_line(s)[i] == ' ',
        s[i] != '\n' ==> one_line(s)[i] == s[i],
{
}

/// The number that one digit stands for.
pub open spec fn digit_value(c: char) -> int {
    if c <= '9' {
        c as int - '0' as int
    } else {
        c as int - 'a' as int + 10
    }
}

/// The number that digits stand for in base `base`, read from left to right.
pub open spec fn value_of(digits: Seq<char>, base: int) -> int
    decreases digits.len(),
{
    if digits.len() == 0 {
        0
    } else {
        value_of(digits.drop_last(), base) * base + digit_value(digits.last())
    }
}

/// A numeral, read, is the number that was written; it is made of digits of its
/// base, and does not start with a zero unless it is one.
pub proof fn a_numeral_reads_as_its_number(n: nat, base: nat)
    requires
        2 <= base <= 16,
    ensures
        value_of(numeral(n, base), base as int) == n,
        numeral(n, base).len() > 0,
        n > 0 ==> numeral(n, base)[0] != '0',
        n == 0 ==> numeral(n, base) == seq!['0'],
        forall|i: int|
            #![trigger numeral(n, base)[i]]
            0 <= i < numeral(n, base).len() ==> {
                let c = numeral(n, base)[i];
                ('0' <= c <= '9' || 'a' <= c <= 'f') && digit_value(c) < base
            },
    decreases n,
{
    let s = numeral(n, base);
    if n < base {
        assert(s.drop_last() =~= Seq::empty());
        assert(value_of(s.drop_last(), base as int) == 0);
        assert(value_of(s, base as int) == value_of(s.drop_last(), base as int) * base
            + digit_value(s.last()));
    } else {
        vstd::arithmetic::div_mod::lemma_div_decreases(n as int, base as int);
        vstd::arithmetic::div_mod::lemma_mod_bound(n as int, base as int);
        vstd::arithmetic::div_mod::lemma_fundamental_div_mod(n as int, base as int);
        assert(n / base > 0) by (nonlinear_arith)
            requires
                n >= base,
                base >= 2,
        ;
        let high = numeral(n / base, base);
        a_numeral_reads_as_its_number(n / base, base);
        assert(s.drop_last() =~= high);
        assert(s.last() == digit(n % base));
        assert(s[0] == high[0]);
        assert((n / base) * base == base * (n / base)) by (nonlinear_arith);
        assert forall|i: int|
            #![trigger s[i]]
            0 <= i < s.len() implies ('0' <= s[i] <= '9' || 'a' <= s[i] <= 'f') && digit_value(
            s[i],
        ) < base by {
            if i < high.len() {
                assert(s[i] == high[i]);
            }
        }
    }
}

} // verus!
