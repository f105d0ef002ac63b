//! Text primitives over sequences of characters: the string operations the
//! rest of the library is built on, each stated as a function on `Seq<char>`.

use vstd::prelude::*;

verus! {

/// The characters with the Unicode `White_Space` property.
pub open spec fn is_whitespace(c: char) -> bool {
    let n = c as u32;
    (0x09 <= n <= 0x0D) || n == 0x20 || n == 0x85 || n == 0xA0 || n == 0x1680 || (0x2000 <= n
        <= 0x200A) || n == 0x2028 || n == 0x2029 || n == 0x202F || n == 0x205F || n == 0x3000
}

/// `s` without its leading whitespace.
pub open spec fn trim_start(s: Seq<char>) -> Seq<char>
    decreases s.len(),
{
    if s.len() > 0 && is_whitespace(s[0]) {
        trim_start(s.drop_first())
    } else {
        s
    }
}

/// `s` without its trailing whitespace.
pub open spec fn trim_end(s: Seq<char>) -> Seq<char>
    decreases s.len(),
{
    if s.len() > 0 && is_whitespace(s.last()) {
        trim_end(s.drop_last())
    } else {
        s
    }
}

/// `s` without leading and trailing whitespace.
pub open spec fn trim(s: Seq<char>) -> Seq<char> {
    trim_end(trim_start(s))
}

/// Whether `c` is a whitespace character.
pub fn char_is_whitespace(c: char) -> (r: bool)
    ensures
        r == is_whitespace(c),
{
    let n: u32 = c as u32;
    (0x09 <= n && n <= 0x0D) || n == 0x20 || n == 0x85 || n == 0xA0 || n == 0x1680 || (0x2000 <= n
        && n <= 0x200A) || n == 0x2028 || n == 0x2029 || n == 0x202F || n == 0x205F || n == 0x3000
}

/// Appends one character to a string.
///
/// Stands for `String::push`: the string afterwards is the string before
/// followed by `c`.
#[verifier::external_body]
fn push_char(s: &mut String, c: char)
    ensures
        final(s)@ == old(s)@.push(c),
{
    s.push(c)
}

/// The characters of `s`, in order.
pub fn chars_of(s: &str) -> (v: Vec<char>)
    ensures
        v@ == s@,
{
    let mut v: Vec<char> = Vec::new();
    for c in it: s.chars()
        invariant
            v@ == it.seq().take(it.index()),
            it.seq() == s@,
    {
        v.push(c);
    }
    v
}

/// The string made of `v[from..to]`.
pub fn string_of(v: &Vec<char>, from: usize, to: usize) -> (s: String)
    requires
        from <= to <= v.len(),
    ensures
        s@ == v@.subrange(from as int, to as int),
{
    let mut s = String::new();
    let mut i: usize = from;
    while i < to
        invariant
            from <= i <= to <= v.len(),
            s@ == v@.subrange(from as int, i as int),
        decreases to - i,
    {
        push_char(&mut s, v[i]);
        i += 1;
    }
    s
}

/// The views of a sequence of strings.
pub open spec fn text_views(v: Seq<String>) -> Seq<Seq<char>> {
    v.map_values(|s: String| s@)
}

proof fn lemma_trim_start(s: Seq<char>, a: int)
    requires
        0 <= a <= s.len(),
        forall|i: int| 0 <= i < a ==> is_whitespace(s[i]),
        a < s.len() ==> !is_whitespace(s[a]),
    ensures
        trim_start(s) == s.subrange(a, s.len() as int),
    decreases a,
{
    if a == 0 {
        assert(s.subrange(0, s.len() as int) =~= s);
    } else {
        lemma_trim_start(s.drop_first(), a - 1);
        assert(s.drop_first().subrange(a - 1, s.len() - 1) =~= s.subrange(a, s.len() as int));
    }
}

proof fn lemma_trim_end(s: Seq<char>, b: int)
    requires
        0 <= b <= s.len(),
        forall|i: int| b <= i < s.len() ==> is_whitespace(s[i]),
        b > 0 ==> !is_whitespace(s[b - 1]),
    ensures
        trim_end(s) == s.subrange(0, b),
    decreases s.len() - b,
{
    if b == s.len() {
        assert(s.subrange(0, s.len() as int) =~= s);
    } else {
        lemma_trim_end(s.drop_last(), b);
        assert(s.drop_last().subrange(0, b) =~= s.subrange(0, b));
    }
}

/// The bounds `(a, b)` of the trimmed part of `v[from..to]`.
pub fn trim_bounds(v: &Vec<char>, from: usize, to: usize) -> (r: (usize, usize))
    requires
        from <= to <= v.len(),
    ensures
        from <= r.0 <= r.1 <= to,
        v@.subrange(r.0 as int, r.1 as int) == trim(v@.subrange(from as int, to as int)),
{
    let mut a: usize = from;
    while a < to && char_is_whitespace(v[a])
        invariant
            from <= a <= to <= v.len(),
            forall|i: int| from <= i < a ==> is_whitespace(v@[i]),
        decreases to - a,
    {
        a += 1;
    }
    let mut b: usize = to;
    while b > a && char_is_whitespace(v[b - 1])
        invariant
            a <= b <= to <= v.len(),
            forall|i: int| b <= i < to ==> is_whitespace(v@[i]),
        decreases b,
    {
        b -= 1;
    }
    proof {
        let s = v@.subrange(from as int, to as int);
        lemma_trim_start(s, a - from);
        let t = s.subrange(a - from, s.len() as int);
        assert(t =~= v@.subrange(a as int, to as int));
        lemma_trim_end(t, b - a);
        assert(t.subrange(0, b - a) =~= v@.subrange(a as int, b as int));
    }
    (a, b)
}

/// `s` without leading and trailing whitespace.
pub fn trim_text(s: &str) -> (r: String)
    ensures
        r@ == trim(s@),
{
    let v = chars_of(s);
    let (a, b) = trim_bounds(&v, 0, v.len());
    proof {
        assert(v@.subrange(0, v.len() as int) =~= v@);
    }
    string_of(&v, a, b)
}

/// Whether `pat` occurs in `s` starting at index `i`.
pub open spec fn matches_at(s: Seq<char>, pat: Seq<char>, i: int) -> bool {
    0 <= i && i + pat.len() <= s.len() && s.subrange(i, i + pat.len()) == pat
}

/// Whether `pat` occurs somewhere in `s`.
pub open spec fn contains(s: Seq<char>, pat: Seq<char>) -> bool {
    exists|i: int| matches_at(s, pat, i)
}

/// Whether `s` begins with `pat`.
pub open spec fn starts_with(s: Seq<char>, pat: Seq<char>) -> bool {
    matches_at(s, pat, 0)
}

/// Whether `pat` occurs in `v` starting at index `i`.
pub fn vec_matches_at(v: &Vec<char>, pat: &Vec<char>, i: usize) -> (r: bool)
    ensures
        r == matches_at(v@, pat@, i as int),
{
    if pat.len() > v.len() || i > v.len() - pat.len() {
        return false;
    }
    let mut j: usize = 0;
    while j < pat.len()
        invariant
            i + pat.len() <= v.len(),
            j <= pat.len(),
            v@.subrange(i as int, i + j) == pat@.subrange(0, j as int),
        decreases pat.len() - j,
    {
        if v[i + j] != pat[j] {
            proof {
                let w = v@.subrange(i as int, i + pat.len());
                assert(w[j as int] != pat@[j as int]);
            }
            return false;
        }
        proof {
            assert(v@.subrange(i as int, i + j + 1) =~= v@.subrange(i as int, i + j).push(
                v@[i + j],
            ));
            assert(pat@.subrange(0, j + 1) =~= pat@.subrange(0, j as int).push(pat@[j as int]));
        }
        j += 1;
    }
    proof {
        assert(pat@.subrange(0, pat.len() as int) =~= pat@);
    }
    true
}

/// Whether `pat` occurs somewhere in `v`.
pub fn vec_contains(v: &Vec<char>, pat: &Vec<char>) -> (r: bool)
    ensures
        r == contains(v@, pat@),
{
    if pat.len() > v.len() {
        return false;
    }
    let last: usize = v.len() - pat.len();
    let mut i: usize = 0;
    loop
        invariant
            last == v.len() - pat.len(),
            i <= last,
            forall|k: int| 0 <= k < i ==> !matches_at(v@, pat@, k),
        decreases last - i,
    {
        if vec_matches_at(v, pat, i) {
            return true;
        }
        if i == last {
            return false;
        }
        i += 1;
    }
}

/// Whether `pat` occurs somewhere in `s`.
pub fn contains_text(s: &str, pat: &str) -> (r: bool)
    ensures
        r == contains(s@, pat@),
{
    let v = chars_of(s);
    let p = chars_of(pat);
    vec_contains(&v, &p)
}

/// Whether `a` and `b` hold the same characters.
pub fn same_text(a: &str, b: &str) -> (r: bool)
    ensures
        r == (a@ == b@),
{
    let x = chars_of(a);
    let y = chars_of(b);
    if x.len() != y.len() {
        return false;
    }
    let r = vec_matches_at(&x, &y, 0);
    proof {
        assert(x@.subrange(0, x.len() as int) =~= x@);
    }
    r
}

/// The index of the first `c` in `s`, or the length of `s` where there is none.
pub open spec fn first_index_of(s: Seq<char>, c: char) -> int
    decreases s.len(),
{
    if s.len() == 0 || s[0] == c {
        0
    } else {
        1 + first_index_of(s.drop_first(), c)
    }
}

proof fn lemma_first_index_of(s: Seq<char>, c: char, k: int)
    requires
        0 <= k <= s.len(),
        forall|i: int| 0 <= i < k ==> s[i] != c,
        k < s.len() ==> s[k] == c,
    ensures
        first_index_of(s, c) == k,
    decreases k,
{
    if k > 0 {
        lemma_first_index_of(s.drop_first(), c, k - 1);
    }
}

/// The pieces of `s` between occurrences of `c`; always at least one piece.
pub open spec fn split(s: Seq<char>, c: char) -> Seq<Seq<char>>
    decreases s.len(),
{
    let k = first_index_of(s, c);
    if 0 <= k < s.len() {
        seq![s.take(k)] + split(s.skip(k + 1), c)
    } else {
        seq![s]
    }
}

/// `s` without one trailing carriage return.
pub open spec fn strip_cr(s: Seq<char>) -> Seq<char> {
    if s.len() > 0 && s.last() == '\r' {
        s.drop_last()
    } else {
        s
    }
}

/// The lines of `s`: split at `\n` or `\r\n`, the final line ending optional.
pub open spec fn lines(s: Seq<char>) -> Seq<Seq<char>>
    decreases s.len(),
{
    if s.len() == 0 {
        Seq::empty()
    } else {
        let k = first_index_of(s, '\n');
        if 0 <= k < s.len() {
            seq![strip_cr(s.take(k))] + lines(s.skip(k + 1))
        } else {
            seq![s]
        }
    }
}

/// Each line of the trimmed text, itself trimmed.
pub open spec fn trimmed_lines(s: Seq<char>) -> Seq<Seq<char>> {
    lines(trim(s)).map_values(|l: Seq<char>| trim(l))
}

/// The index of the first `c` in `v[from..to]`, or `to` where there is none.
pub fn find_char(v: &Vec<char>, from: usize, to: usize, c: char) -> (k: usize)
    requires
        from <= to <= v.len(),
    ensures
        from <= k <= to,
        k - from == first_index_of(v@.subrange(from as int, to as int), c),
{
    let mut k: usize = from;
    while k < to && v[k] != c
        invariant
            from <= k <= to <= v.len(),
            forall|i: int| from <= i < k ==> v@[i] != c,
        decreases to - k,
    {
        k += 1;
    }
    proof {
        lemma_first_index_of(v@.subrange(from as int, to as int), c, k - from);
    }
    k
}

/// The pieces of `v[from..to]` between occurrences of `c`.
pub fn split_range(v: &Vec<char>, from: usize, to: usize, c: char) -> (out: Vec<String>)
    requires
        from <= to <= v.len(),
    ensures
        text_views(out@) == split(v@.subrange(from as int, to as int), c),
{
    let mut out: Vec<String> = Vec::new();
    let mut start: usize = from;
    loop
        invariant
            from <= start <= to <= v.len(),
            text_views(out@) + split(v@.subrange(start as int, to as int), c) == split(
                v@.subrange(from as int, to as int),
                c,
            ),
        decreases to - start,
    {
        let k = find_char(v, start, to, c);
        let piece = string_of(v, start, k);
        let ghost before = out@;
        let ghost rest = v@.subrange(start as int, to as int);
        out.push(piece);
        proof {
            assert(rest.take(k - start) =~= v@.subrange(start as int, k as int));
            assert(text_views(out@) =~= text_views(before).push(piece@));
        }
        if k == to {
            proof {
                assert(split(rest, c) =~= seq![rest]);
                assert(text_views(out@) =~= text_views(before) + split(rest, c));
            }
            return out;
        }
        proof {
            assert(rest.skip(k - start + 1) =~= v@.subrange(k + 1, to as int));
            assert(text_views(out@) + split(v@.subrange(k + 1, to as int), c) =~= text_views(
                before,
            ) + split(rest, c));
        }
        start = k + 1;
    }
}

/// The pieces of `s` between occurrences of `c`.
pub fn split_text(s: &str, c: char) -> (out: Vec<String>)
    ensures
        text_views(out@) == split(s@, c),
{
    let v = chars_of(s);
    proof {
        assert(v@.subrange(0, v.len() as int) =~= v@);
    }
    split_range(&v, 0, v.len(), c)
}

/// The lines of `s`.
pub fn lines_of(s: &str) -> (out: Vec<String>)
    ensures
        text_views(out@) == lines(s@),
{
    let v = chars_of(s);
    let b = v.len();
    let mut out: Vec<String> = Vec::new();
    let mut start: usize = 0;
    proof {
        assert(v@.subrange(0, b as int) =~= v@);
        assert(text_views(out@) + lines(v@) =~= lines(v@));
    }
    while start < b
        invariant
            start <= b,
            b == v.len(),
            v@ == s@,
            text_views(out@) + lines(v@.subrange(start as int, b as int)) == lines(v@),
        decreases b - start,
    {
        let k = find_char(&v, start, b, '\n');
        let ghost rest = v@.subrange(start as int, b as int);
        let ghost before = out@;
        let mut e: usize = k;
        if k < b && k > start && v[k - 1] == '\r' {
            e = k - 1;
        }
        let piece = string_of(&v, start, e);
        out.push(piece);
        proof {
            assert(text_views(out@) =~= text_views(before).push(piece@));
            if k == b {
                assert(rest =~= v@.subrange(start as int, e as int));
                assert(lines(rest) =~= seq![rest]);
                assert(lines(v@.subrange(b as int, b as int)) =~= Seq::<Seq<char>>::empty());
                assert(text_views(out@) + lines(v@.subrange(b as int, b as int))
                    =~= text_views(before) + lines(rest));
            } else {
                assert(rest.take(k - start) =~= v@.subrange(start as int, k as int));
                assert(strip_cr(rest.take(k - start)) =~= v@.subrange(start as int, e as int));
                assert(rest.skip(k - start + 1) =~= v@.subrange(k + 1, b as int));
                let tail = lines(v@.subrange(k + 1, b as int));
                assert(lines(rest) =~= seq![piece@] + tail);
                assert(text_views(out@) + tail =~= text_views(before) + lines(rest));
            }
        }
        if k == b {
            start = b;
        } else {
            start = k + 1;
        }
    }
    proof {
        assert(lines(v@.subrange(b as int, b as int)) =~= Seq::<Seq<char>>::empty());
        assert(text_views(out@) + Seq::<Seq<char>>::empty() =~= text_views(out@));
    }
    out
}

/// Each line of the trimmed text, itself trimmed.
pub fn trimmed_lines_of(s: &str) -> (out: Vec<String>)
    ensures
        text_views(out@) == trimmed_lines(s@),
{
    let v = chars_of(s);
    let (a, b) = trim_bounds(&v, 0, v.len());
    proof {
        assert(v@.subrange(0, v.len() as int) =~= v@);
    }
    let ghost whole = v@.subrange(a as int, b as int);
    let mut out: Vec<String> = Vec::new();
    let mut start: usize = a;
    while start < b
        invariant
            a <= start <= b <= v.len(),
            whole == v@.subrange(a as int, b as int),
            text_views(out@) + lines(v@.subrange(start as int, b as int)).map_values(
                |l: Seq<char>| trim(l),
            ) == lines(whole).map_values(|l: Seq<char>| trim(l)),
        decreases b - start,
    {
        let k = find_char(&v, start, b, '\n');
        let ghost rest = v@.subrange(start as int, b as int);
        let ghost before = out@;
        let mut e: usize = k;
        if k < b && k > start && v[k - 1] == '\r' {
            e = k - 1;
        }
        let (x, y) = trim_bounds(&v, start, e);
        let piece = string_of(&v, x, y);
        out.push(piece);
        proof {
            let f = |l: Seq<char>| trim(l);
            assert(text_views(out@) =~= text_views(before).push(piece@));
            if k == b {
                assert(lines(rest) =~= seq![rest]);
                assert(lines(rest).map_values(f) =~= seq![trim(rest)]);
                assert(lines(v@.subrange(b as int, b as int)) =~= Seq::<Seq<char>>::empty());
                assert(lines(v@.subrange(b as int, b as int)).map_values(f) =~= Seq::<
                    Seq<char>,
                >::empty());
            } else {
                assert(rest.take(k - start) =~= v@.subrange(start as int, k as int));
                assert(strip_cr(rest.take(k - start)) =~= v@.subrange(start as int, e as int));
                assert(rest.skip(k - start + 1) =~= v@.subrange(k + 1, b as int));
                let tail = lines(v@.subrange(k + 1, b as int));
                assert(lines(rest) =~= seq![v@.subrange(start as int, e as int)] + tail);
                assert(lines(rest).map_values(f) =~= seq![piece@] + tail.map_values(f));
            }
        }
        if k == b {
            start = b;
        } else {
            start = k + 1;
        }
    }
    proof {
        assert(lines(v@.subrange(b as int, b as int)) =~= Seq::<Seq<char>>::empty());
    }
    out
}

/// The character of the decimal digit `d`.
pub open spec fn digit_char(d: nat) -> char
    recommends
        d < 10,
{
    (0x30 + d) as char
}

/// The decimal notation of `n`, without sign or leading zeros.
pub open spec fn decimal(n: nat) -> Seq<char>
    decreases n,
{
    if n < 10 {
        seq![digit_char(n)]
    } else {
        decimal(n / 10).push(digit_char(n % 10))
    }
}

/// The decimal notation of `n`.
pub fn decimal_text(n: u64) -> (r: String)
    ensures
        r@ == decimal(n as nat),
{
    let mut digits: Vec<char> = Vec::new();
    let mut m: u64 = n;
    digits.push((0x30u8 + (m % 10) as u8) as char);
    m = m / 10;
    while m > 0
        invariant
            digits.len() >= 1,
            m == 0 ==> decimal(n as nat) == digits@.reverse(),
            m > 0 ==> decimal(n as nat) == decimal(m as nat) + digits@.reverse(),
        decreases m,
    {
        let ghost before = digits@;
        let ghost prev = m;
        digits.push((0x30u8 + (m % 10) as u8) as char);
        m = m / 10;
        proof {
            assert(digits@.reverse() =~= seq![digit_char((prev % 10) as nat)] + before.reverse());
            if m == 0 {
                assert(decimal(prev as nat) =~= seq![digit_char(prev as nat)]);
            } else {
                assert(decimal(prev as nat) =~= decimal(m as nat).push(
                    digit_char((prev % 10) as nat),
                ));
                assert(decimal(m as nat).push(digit_char((prev % 10) as nat)) + before.reverse()
                    =~= decimal(m as nat) + digits@.reverse());
            }
        }
    }
    let mut r = String::new();
    let mut i: usize = digits.len();
    while i > 0
        invariant
            i <= digits.len(),
            r@ == digits@.reverse().subrange(0, digits.len() - i),
        decreases i,
    {
        i -= 1;
        push_char(&mut r, digits[i]);
        proof {
            assert(r@ =~= digits@.reverse().subrange(0, digits.len() - i));
        }
    }
    proof {
        assert(digits@.reverse().subrange(0, digits.len() as int) =~= digits@.reverse());
    }
    r
}

/// The decimal notation of `n` hundredths: the whole part, then, where the
/// number is no whole one, a point and one or two digits, without a zero
/// at the end.
pub open spec fn hundredths(n: nat) -> Seq<char> {
    if n % 100 == 0 {
        decimal(n / 100)
    } else if n % 10 == 0 {
        decimal(n / 100) + seq!['.', digit_char((n % 100) / 10)]
    } else {
        decimal(n / 100) + seq!['.', digit_char((n % 100) / 10), digit_char(n % 10)]
    }
}

/// The decimal notation of `n` hundredths.
pub fn hundredths_text(n: u64) -> (r: String)
    ensures
        r@ == hundredths(n as nat),
{
    let mut r = decimal_text(n / 100);
    let ghost whole = r@;
    if n % 100 != 0 {
        push_char(&mut r, '.');
        push_char(&mut r, (0x30u8 + ((n % 100) / 10) as u8) as char);
        if n % 10 != 0 {
            push_char(&mut r, (0x30u8 + (n % 10) as u8) as char);
            proof {
                assert(r@ =~= whole + seq![
                    '.',
                    digit_char(((n % 100) / 10) as nat),
                    digit_char((n % 10) as nat),
                ]);
            }
        } else {
            proof {
                assert(r@ =~= whole + seq!['.', digit_char(((n % 100) / 10) as nat)]);
            }
        }
    }
    r
}

/// Whether `c` is one of the ten decimal digits.
pub open spec fn is_digit(c: char) -> bool {
    0x30 <= c as u32 <= 0x39
}

/// The number that the digits of `s` denote.
pub open spec fn digits_value(s: Seq<char>) -> nat
    decreases s.len(),
{
    if s.len() == 0 {
        0
    } else {
        (digits_value(s.drop_last()) * 10 + (s.last() as u32 - 0x30)) as nat
    }
}

/// `s` without one leading `+`.
pub open spec fn unsigned_part(s: Seq<char>) -> Seq<char> {
    if s.len() > 0 && s[0] == '+' {
        s.drop_first()
    } else {
        s
    }
}

/// Whether `s` is made of decimal digits only.
pub open spec fn all_digits(s: Seq<char>) -> bool {
    forall|i: int| 0 <= i < s.len() ==> is_digit(#[trigger] s[i])
}

/// What `s` denotes as a count: one digit or more, after an optional `+`,
/// and within the range of `usize`.
pub open spec fn parse_count(s: Seq<char>) -> Option<usize> {
    let d = unsigned_part(s);
    if d.len() > 0 && all_digits(d) && digits_value(d) <= usize::MAX {
        Some(digits_value(d) as usize)
    } else {
        None
    }
}

proof fn lemma_digits_value_grows(s: Seq<char>, k: int)
    requires
        0 <= k <= s.len(),
        all_digits(s),
    ensures
        digits_value(s.take(k)) <= digits_value(s),
    decreases s.len() - k,
{
    if k == s.len() {
        assert(s.take(k) =~= s);
    } else {
        lemma_digits_value_grows(s, k + 1);
        assert(s.take(k + 1).drop_last() =~= s.take(k));
    }
}

/// Reads `s` as a count.
pub fn parse_count_text(s: &str) -> (r: Option<usize>)
    ensures
        r == parse_count(s@),
{
    let v = chars_of(s);
    let start: usize = if v.len() > 0 && v[0] == '+' {
        1
    } else {
        0
    };
    let ghost d = unsigned_part(s@);
    proof {
        assert(d =~= v@.subrange(start as int, v.len() as int));
    }
    if start == v.len() {
        return None;
    }
    let mut acc: usize = 0;
    let mut i: usize = start;
    while i < v.len()
        invariant
            start <= i <= v.len(),
            d == unsigned_part(s@),
            d == v@.subrange(start as int, v.len() as int),
            all_digits(d.take(i - start)),
            acc == digits_value(d.take(i - start)),
        decreases v.len() - i,
    {
        let c = v[i];
        let n: u32 = c as u32;
        if n < 0x30 || n > 0x39 {
            proof {
                assert(!is_digit(d[i - start]));
            }
            return None;
        }
        let digit: usize = (n - 0x30) as usize;
        proof {
            let t = d.take(i - start + 1);
            assert(t.drop_last() =~= d.take(i - start));
            assert(t.last() == c);
            assert forall|j: int| 0 <= j < t.len() implies is_digit(#[trigger] t[j]) by {
                if j < i - start {
                    assert(t[j] == d.take(i - start)[j]);
                }
            }
        }
        if acc > (usize::MAX - digit) / 10 {
            proof {
                let t = d.take(i - start + 1);
                assert(digits_value(t) > usize::MAX);
                if all_digits(d) {
                    lemma_digits_value_grows(d, i - start + 1);
                }
            }
            return None;
        }
        acc = acc * 10 + digit;
        i += 1;
    }
    proof {
        assert(d.take(d.len() as int) =~= d);
    }
    Some(acc)
}

/// The index of the first whitespace character of `s`, or its length.
pub open spec fn first_whitespace(s: Seq<char>) -> int
    decreases s.len(),
{
    if s.len() == 0 || is_whitespace(s[0]) {
        0
    } else {
        1 + first_whitespace(s.drop_first())
    }
}

/// The index of the first character of `s` that is no whitespace, or its length.
pub open spec fn first_word_start(s: Seq<char>) -> int
    decreases s.len(),
{
    if s.len() == 0 || !is_whitespace(s[0]) {
        0
    } else {
        1 + first_word_start(s.drop_first())
    }
}

/// The words of `s`: the runs of characters between whitespace, in order.
pub open spec fn words(s: Seq<char>) -> Seq<Seq<char>>
    decreases s.len(),
{
    let a = first_word_start(s);
    if 0 <= a < s.len() {
        let rest = s.skip(a);
        let b = first_whitespace(rest);
        if 0 < b <= rest.len() {
            seq![rest.take(b)] + words(rest.skip(b))
        } else {
            Seq::empty()
        }
    } else {
        Seq::empty()
    }
}

proof fn lemma_first_whitespace(s: Seq<char>, k: int)
    requires
        0 <= k <= s.len(),
        forall|i: int| 0 <= i < k ==> !is_whitespace(s[i]),
        k < s.len() ==> is_whitespace(s[k]),
    ensures
        first_whitespace(s) == k,
    decreases k,
{
    if k > 0 {
        lemma_first_whitespace(s.drop_first(), k - 1);
    }
}

proof fn lemma_first_word_start(s: Seq<char>, k: int)
    requires
        0 <= k <= s.len(),
        forall|i: int| 0 <= i < k ==> is_whitespace(s[i]),
        k < s.len() ==> !is_whitespace(s[k]),
    ensures
        first_word_start(s) == k,
    decreases k,
{
    if k > 0 {
        lemma_first_word_start(s.drop_first(), k - 1);
    }
}

/// The words of `s`.
pub fn words_of(s: &str) -> (out: Vec<String>)
    ensures
        text_views(out@) == words(s@),
{
    let v = chars_of(s);
    let mut out: Vec<String> = Vec::new();
    let mut start: usize = 0;
    proof {
        assert(v@.skip(0) =~= v@);
        assert(text_views(out@) + words(v@) =~= words(v@));
    }
    loop
        invariant
            start <= v.len(),
            v@ == s@,
            text_views(out@) + words(v@.skip(start as int)) == words(v@),
        decreases v.len() - start,
    {
        let ghost rest0 = v@.skip(start as int);
        let mut a: usize = start;
        while a < v.len() && char_is_whitespace(v[a])
            invariant
                start <= a <= v.len(),
                forall|i: int| start <= i < a ==> is_whitespace(v@[i]),
            decreases v.len() - a,
        {
            a += 1;
        }
        proof {
            lemma_first_word_start(rest0, a - start);
        }
        if a == v.len() {
            proof {
                assert(words(rest0) =~= Seq::<Seq<char>>::empty());
                assert(text_views(out@) =~= words(v@));
            }
            return out;
        }
        let mut b: usize = a;
        while b < v.len() && !char_is_whitespace(v[b])
            invariant
                a <= b <= v.len(),
                forall|i: int| a <= i < b ==> !is_whitespace(v@[i]),
            decreases v.len() - b,
        {
            b += 1;
        }
        let piece = string_of(&v, a, b);
        let ghost before = out@;
        out.push(piece);
        proof {
            let rest = rest0.skip(a - start);
            assert(rest =~= v@.skip(a as int));
            lemma_first_whitespace(rest, b - a);
            assert(rest.take(b - a) =~= v@.subrange(a as int, b as int));
            assert(rest.skip(b - a) =~= v@.skip(b as int));
            assert(text_views(out@) =~= text_views(before).push(piece@));
            assert(words(rest0) =~= seq![piece@] + words(v@.skip(b as int)));
            assert(text_views(out@) + words(v@.skip(b as int)) =~= text_views(before) + words(
                rest0,
            ));
        }
        start = b;
    }
}

/// `s` without the characters `c` at its start.
pub open spec fn trim_start_char(s: Seq<char>, c: char) -> Seq<char>
    decreases s.len(),
{
    if s.len() > 0 && s[0] == c {
        trim_start_char(s.drop_first(), c)
    } else {
        s
    }
}

/// `s` without the characters `c` at its end.
pub open spec fn trim_end_char(s: Seq<char>, c: char) -> Seq<char>
    decreases s.len(),
{
    if s.len() > 0 && s.last() == c {
        trim_end_char(s.drop_last(), c)
    } else {
        s
    }
}

/// `s` without the characters `c` at its start and at its end.
pub open spec fn trim_char(s: Seq<char>, c: char) -> Seq<char> {
    trim_end_char(trim_start_char(s, c), c)
}

proof fn lemma_trim_start_char(s: Seq<char>, c: char, a: int)
    requires
        0 <= a <= s.len(),
        forall|i: int| 0 <= i < a ==> s[i] == c,
        a < s.len() ==> s[a] != c,
    ensures
        trim_start_char(s, c) == s.subrange(a, s.len() as int),
    decreases a,
{
    if a == 0 {
        assert(s.subrange(0, s.len() as int) =~= s);
    } else {
        lemma_trim_start_char(s.drop_first(), c, a - 1);
        assert(s.drop_first().subrange(a - 1, s.len() - 1) =~= s.subrange(a, s.len() as int));
    }
}

proof fn lemma_trim_end_char(s: Seq<char>, c: char, b: int)
    requires
        0 <= b <= s.len(),
        forall|i: int| b <= i < s.len() ==> s[i] == c,
        b > 0 ==> s[b - 1] != c,
    ensures
        trim_end_char(s, c) == s.subrange(0, b),
    decreases s.len() - b,
{
    if b == s.len() {
        assert(s.subrange(0, s.len() as int) =~= s);
    } else {
        lemma_trim_end_char(s.drop_last(), c, b);
        assert(s.drop_last().subrange(0, b) =~= s.subrange(0, b));
    }
}

/// `s` without the characters `c` at its start and at its end.
pub fn trim_char_text(s: &str, c: char) -> (r: String)
    ensures
        r@ == trim_char(s@, c),
{
    let v = chars_of(s);
    let mut a: usize = 0;
    while a < v.len() && v[a] == c
        invariant
            a <= v.len(),
            forall|i: int| 0 <= i < a ==> v@[i] == c,
        decreases v.len() - a,
    {
        a += 1;
    }
    let mut b: usize = v.len();
    while b > a && v[b - 1] == c
        invariant
            a <= b <= v.len(),
            forall|i: int| b <= i < v.len() ==> v@[i] == c,
        decreases b,
    {
        b -= 1;
    }
    proof {
        lemma_trim_start_char(v@, c, a as int);
        let t = v@.subrange(a as int, v.len() as int);
        lemma_trim_end_char(t, c, b - a);
        assert(t.subrange(0, b - a) =~= v@.subrange(a as int, b as int));
    }
    string_of(&v, a, b)
}

/// Whether `c` occurs in `s`.
pub fn contains_char(s: &str, c: char) -> (r: bool)
    ensures
        r == (first_index_of(s@, c) < s@.len()),
{
    let v = chars_of(s);
    proof {
        assert(v@.subrange(0, v.len() as int) =~= v@);
    }
    find_char(&v, 0, v.len(), c) < v.len()
}

/// The index at which `pat` first occurs in `s`, or a number greater than
/// the length of `s` where it does not occur.
pub open spec fn first_match(s: Seq<char>, pat: Seq<char>) -> int
    decreases s.len(),
{
    if starts_with(s, pat) {
        0
    } else if s.len() == 0 {
        1
    } else {
        1 + first_match(s.drop_first(), pat)
    }
}

proof fn lemma_matches_shift(s: Seq<char>, pat: Seq<char>, k: int)
    requires
        s.len() > 0,
        k >= 0,
    ensures
        matches_at(s.drop_first(), pat, k) == matches_at(s, pat, k + 1),
{
    if k + pat.len() <= s.len() - 1 {
        assert(s.drop_first().subrange(k, k + pat.len()) =~= s.subrange(k + 1, k + 1 + pat.len()));
    }
}

/// Where `pat` first occurs: no earlier index holds it, and the index
/// found does or, where none does, lies past the end.
pub proof fn lemma_first_match(s: Seq<char>, pat: Seq<char>, k: int)
    requires
        0 <= k <= s.len() + 1,
        forall|i: int| 0 <= i < k ==> !matches_at(s, pat, i),
        k <= s.len() ==> matches_at(s, pat, k),
    ensures
        first_match(s, pat) == k,
    decreases s.len(),
{
    if k == 0 {
    } else if s.len() == 0 {
        assert(!matches_at(s, pat, 0));
    } else {
        assert(!matches_at(s, pat, 0));
        assert forall|i: int| 0 <= i < k - 1 implies !matches_at(s.drop_first(), pat, i) by {
            lemma_matches_shift(s, pat, i);
        }
        if k - 1 <= s.len() - 1 {
            lemma_matches_shift(s, pat, k - 1);
        }
        lemma_first_match(s.drop_first(), pat, k - 1);
    }
}

/// `pat` occurs in `s` exactly when its first occurrence lies within `s`.
pub proof fn lemma_first_match_contains(s: Seq<char>, pat: Seq<char>)
    ensures
        contains(s, pat) <==> first_match(s, pat) <= s.len(),
        0 <= first_match(s, pat) <= s.len() + 1,
        first_match(s, pat) <= s.len() ==> matches_at(s, pat, first_match(s, pat)),
    decreases s.len(),
{
    if starts_with(s, pat) {
        assert(matches_at(s, pat, 0));
    } else if s.len() == 0 {
        assert forall|i: int| !matches_at(s, pat, i) by {}
    } else {
        lemma_first_match_contains(s.drop_first(), pat);
        let r = first_match(s.drop_first(), pat);
        if r <= s.len() - 1 {
            lemma_matches_shift(s, pat, r);
            assert(matches_at(s, pat, r + 1));
        } else {
            assert forall|i: int| !matches_at(s, pat, i) by {
                if i >= 1 {
                    lemma_matches_shift(s, pat, i - 1);
                    assert(!matches_at(s.drop_first(), pat, i - 1));
                }
            }
        }
    }
}

/// The index at which `pat` first occurs in `v[from..]`, counted from
/// `from`; `None` where it does not occur.
pub fn find_text(v: &Vec<char>, from: usize, pat: &Vec<char>) -> (r: Option<usize>)
    requires
        from <= v.len(),
    ensures
        match r {
            Some(k) => k == first_match(v@.skip(from as int), pat@) && from + k + pat.len()
                <= v.len(),
            None => first_match(v@.skip(from as int), pat@) > v.len() - from,
        },
{
    let ghost rest = v@.skip(from as int);
    if pat.len() > v.len() - from {
        proof {
            assert forall|i: int| 0 <= i <= rest.len() implies !matches_at(rest, pat@, i) by {}
            lemma_first_match(rest, pat@, (rest.len() + 1) as int);
        }
        return None;
    }
    let last: usize = v.len() - pat.len();
    let mut i: usize = from;
    loop
        invariant
            from <= i <= last,
            last == v.len() - pat.len(),
            rest == v@.skip(from as int),
            forall|k: int| 0 <= k < i - from ==> !matches_at(rest, pat@, k),
        decreases last - i,
    {
        let hit = vec_matches_at(v, pat, i);
        proof {
            if i + pat.len() <= v.len() {
                assert(rest.subrange(i - from, i - from + pat.len()) =~= v@.subrange(
                    i as int,
                    i + pat.len(),
                ));
            }
        }
        if hit {
            proof {
                lemma_first_match(rest, pat@, i - from);
            }
            return Some(i - from);
        }
        if i == last {
            proof {
                assert forall|k: int| 0 <= k <= rest.len() implies !matches_at(rest, pat@, k) by {}
                lemma_first_match(rest, pat@, (rest.len() + 1) as int);
            }
            return None;
        }
        i += 1;
    }
}

/// The pieces put together with `sep` between each two.
pub open spec fn join(pieces: Seq<Seq<char>>, sep: Seq<char>) -> Seq<char>
    decreases pieces.len(),
{
    if pieces.len() == 0 {
        Seq::empty()
    } else if pieces.len() == 1 {
        pieces[0]
    } else {
        join(pieces.drop_last(), sep) + sep + pieces.last()
    }
}

/// `pieces[from..]` put together with `sep` between each two.
pub fn join_from(pieces: &Vec<String>, from: usize, sep: &str) -> (r: String)
    requires
        from <= pieces.len(),
    ensures
        r@ == join(text_views(pieces@).skip(from as int), sep@),
{
    let mut r = String::new();
    let ghost all = text_views(pieces@).skip(from as int);
    let mut i: usize = from;
    while i < pieces.len()
        invariant
            from <= i <= pieces.len(),
            all == text_views(pieces@).skip(from as int),
            r@ == join(all.take(i - from), sep@),
        decreases pieces.len() - i,
    {
        proof {
            assert(all.take(i - from + 1).drop_last() =~= all.take(i - from));
            assert(all.take(i - from + 1).last() == pieces@[i as int]@);
        }
        if i > from {
            r.append(sep);
        }
        r.append(pieces[i].as_str());
        proof {
            if i == from {
                assert(all.take(0).len() == 0);
                assert(r@ =~= pieces@[i as int]@);
            }
        }
        i += 1;
    }
    proof {
        assert(all.take(pieces.len() - from) =~= all);
    }
    r
}

/// The text that `{:?}` formatting gives for a string: the string between
/// double quotes, with its special characters escaped.
pub uninterp spec fn debug_quoted(text: Seq<char>) -> Seq<char>;

/// Formats a string with std's `{:?}` (the `Debug` impl of `str`). The
/// result depends on the characters of the string alone.
#[verifier::external_body]
pub(crate) fn debug_text(text: &str) -> (r: String)
    ensures
        r@ == debug_quoted(text@),
{
    format!("{:?}", text)
}

} // verus!
