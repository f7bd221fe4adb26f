//! Character-level text handling: the views of `str`/`String` as `Seq<char>`,
//! the standard library's notions of white space, trimming, lines and words
//! stated as spec functions, and verified scanners that compute them.

use vstd::prelude::*;
use vstd::string::StringExecFns;

verus! {

// ---------------------------------------------------------------------------
// Specifications
// ---------------------------------------------------------------------------

/// The characters with the Unicode `White_Space` property, which is what
/// `char::is_whitespace`, `str::trim` and `str::split_whitespace` go by.
pub open spec fn is_ws(c: char) -> bool {
    let n = c as u32;
    ||| 0x09 <= n <= 0x0D
    ||| n == 0x20
    ||| n == 0x85
    ||| n == 0xA0
    ||| n == 0x1680
    ||| 0x2000 <= n <= 0x200A
    ||| n == 0x2028
    ||| n == 0x2029
    ||| n == 0x202F
    ||| n == 0x205F
    ||| n == 0x3000
}

/// `s` without its leading white space.
pub open spec fn trim_start(s: Seq<char>) -> Seq<char>
    decreases s.len(),
{
    if s.len() > 0 && is_ws(s[0]) {
        trim_start(s.drop_first())
    } else {
        s
    }
}

/// `s` without its trailing white space.
pub open spec fn trim_end(s: Seq<char>) -> Seq<char>
    decreases s.len(),
{
    if s.len() > 0 && is_ws(s.last()) {
        trim_end(s.drop_last())
    } else {
        s
    }
}

/// What `str::trim` returns: `s` without leading and trailing white space.
pub open spec fn trim(s: Seq<char>) -> Seq<char> {
    trim_end(trim_start(s))
}

/// A line as `str::lines` yields it: one `'\r'` before the `'\n'` is dropped.
pub open spec fn strip_cr(line: Seq<char>) -> Seq<char> {
    if line.len() > 0 && line.last() == '\r' {
        line.drop_last()
    } else {
        line
    }
}

/// The lines of `rest`, given that `cur` holds the characters of the line
/// that is still open (read since the last `'\n'`).
pub open spec fn lines_from(rest: Seq<char>, cur: Seq<char>) -> Seq<Seq<char>>
    decreases rest.len(),
{
    if rest.len() == 0 {
        if cur.len() == 0 {
            Seq::empty()
        } else {
            seq![cur]
        }
    } else if rest[0] == '\n' {
        seq![strip_cr(cur)] + lines_from(rest.drop_first(), Seq::empty())
    } else {
        lines_from(rest.drop_first(), cur.push(rest[0]))
    }
}

/// What `str::lines` yields: the text split at each `'\n'` (a `"\r\n"` counts as one
/// line ending), where a final line ending adds no empty line and a last line
/// without a line ending keeps any `'\r'` it ends with.
pub open spec fn lines(s: Seq<char>) -> Seq<Seq<char>> {
    lines_from(s, Seq::empty())
}

/// The words of `rest`, given that `cur` holds the characters of the word being read.
pub open spec fn words_from(rest: Seq<char>, cur: Seq<char>) -> Seq<Seq<char>>
    decreases rest.len(),
{
    let closed: Seq<Seq<char>> = if cur.len() == 0 {
        Seq::empty()
    } else {
        seq![cur]
    };
    if rest.len() == 0 {
        closed
    } else if is_ws(rest[0]) {
        closed + words_from(rest.drop_first(), Seq::empty())
    } else {
        words_from(rest.drop_first(), cur.push(rest[0]))
    }
}

/// What `str::split_whitespace` yields: the maximal runs of characters that are
/// not white space, in order.
pub open spec fn words(s: Seq<char>) -> Seq<Seq<char>> {
    words_from(s, Seq::empty())
}

/// Whether `pat` occurs in `s` as a contiguous piece (`str::contains`).
pub open spec fn contains_seq(s: Seq<char>, pat: Seq<char>) -> bool {
    exists|i: int| 0 <= i && i + pat.len() <= s.len() && #[trigger] s.subrange(i, i + pat.len()) == pat
}

/// An ASCII decimal digit.
pub open spec fn is_digit(c: char) -> bool {
    '0' <= c && c <= '9'
}

/// The value of a digit character.
pub open spec fn digit_value(c: char) -> nat {
    (c as u32 - '0' as u32) as nat
}

/// The number that a string of decimal digits denotes.
pub open spec fn digits_value(d: Seq<char>) -> nat
    decreases d.len(),
{
    if d.len() == 0 {
        0
    } else {
        digits_value(d.drop_last()) * 10 + digit_value(d.last())
    }
}

/// The digits after an optional `'+'`, as `parse_unsigned` reads them.
pub open spec fn unsigned_digits(s: Seq<char>) -> Seq<char> {
    if s.len() > 0 && s[0] == '+' {
        s.drop_first()
    } else {
        s
    }
}

/// What the standard library's parsing of an unsigned integer reads from `s`,
/// before any bound of the integer type: an optional `'+'`, then one or more
/// ASCII digits and nothing else.
pub open spec fn parse_unsigned(s: Seq<char>) -> Option<nat> {
    let d = unsigned_digits(s);
    if d.len() > 0 && (forall|i: int| 0 <= i < d.len() ==> is_digit(#[trigger] d[i])) {
        Some(digits_value(d))
    } else {
        None
    }
}

/// What `str::parse` gives for an unsigned integer type whose largest value is `max`.
pub open spec fn parse_bounded(s: Seq<char>, max: nat) -> Option<nat> {
    match parse_unsigned(s) {
        Some(n) => if n <= max {
            Some(n)
        } else {
            None
        },
        None => None,
    }
}

/// The digit character for `d < 10`.
pub open spec fn digit_char(d: nat) -> char {
    ('0' as u32 + d) as char
}

/// The decimal representation of `n`, as `to_string` writes it for an integer.
pub open spec fn decimal(n: nat) -> Seq<char>
    decreases n,
{
    if n < 10 {
        seq![digit_char(n)]
    } else {
        decimal(n / 10).push(digit_char(n % 10))
    }
}


// ---------------------------------------------------------------------------
// Lemmas
// ---------------------------------------------------------------------------

/// Dropping a white-space prefix that ends before a non-white-space character
/// (or at the end) is what `trim_start` does.
pub proof fn lemma_trim_start_skip(s: Seq<char>, i: int)
    requires
        0 <= i <= s.len(),
        forall|k: int| 0 <= k < i ==> is_ws(#[trigger] s[k]),
        i == s.len() || !is_ws(s[i]),
    ensures
        trim_start(s) == s.skip(i),
    decreases i,
{
    if i == 0 {
        assert(s.skip(0) =~= s);
    } else {
        let t = s.drop_first();
        assert forall|k: int| 0 <= k < i - 1 implies is_ws(#[trigger] t[k]) by {
            assert(t[k] == s[k + 1]);
        }
        lemma_trim_start_skip(t, i - 1);
        assert(t.skip(i - 1) =~= s.skip(i));
    }
}

/// Dropping a white-space suffix that starts after a non-white-space character
/// (or at the start) is what `trim_end` does.
pub proof fn lemma_trim_end_take(s: Seq<char>, j: int)
    requires
        0 <= j <= s.len(),
        forall|k: int| j <= k < s.len() ==> is_ws(#[trigger] s[k]),
        j == 0 || !is_ws(s[j - 1]),
    ensures
        trim_end(s) == s.take(j),
    decreases s.len() - j,
{
    if j == s.len() {
        assert(s.take(j) =~= s);
    } else {
        let t = s.drop_last();
        assert forall|k: int| j <= k < t.len() implies is_ws(#[trigger] t[k]) by {
            assert(t[k] == s[k]);
        }
        if j > 0 {
            assert(t[j - 1] == s[j - 1]);
        }
        lemma_trim_end_take(t, j);
        assert(t.take(j) =~= s.take(j));
    }
}

// ---------------------------------------------------------------------------
// String building
// ---------------------------------------------------------------------------

/// Pushes one character onto a string.
///
/// Trusted: `String::push` appends `c` at the end of the string.
#[verifier::external_body]
pub(crate) fn push_char(s: &mut String, c: char)
    ensures
        final(s)@ == old(s)@.push(c),
{
    s.push(c);
}

/// Appends a string slice to a string (through vstd's `append`).
pub(crate) fn push_str(s: &mut String, t: &str)
    ensures
        final(s)@ == old(s)@ + t@,
{
    s.append(t);
}

// ---------------------------------------------------------------------------
// Verified scanners
// ---------------------------------------------------------------------------

/// The characters of a string slice, in order.
pub fn chars_of(s: &str) -> (v: Vec<char>)
    ensures
        v@ == s@,
{
    let mut v: Vec<char> = Vec::new();
    for c in it: s.chars()
        invariant
            v@ == it.seq().take(it.index() as int),
            it.seq() == s@,
    {
        v.push(c);
    }
    v
}

/// The string made of `v[lo..hi]`.
pub fn string_of(v: &Vec<char>, lo: usize, hi: usize) -> (s: String)
    requires
        lo <= hi <= v.len(),
    ensures
        s@ == v@.subrange(lo as int, hi as int),
{
    let mut s = String::new();
    let mut i = lo;
    while i < hi
        invariant
            lo <= i <= hi <= v.len(),
            s@ == v@.subrange(lo as int, i as int),
        decreases hi - i,
    {
        push_char(&mut s, v[i]);
        assert(v@.subrange(lo as int, i + 1) == v@.subrange(lo as int, i as int).push(v@[i as int]));
        i = i + 1;
    }
    s
}

/// Whether `c` is white space (`char::is_whitespace`).
pub fn is_whitespace(c: char) -> (b: bool)
    ensures
        b == is_ws(c),
{
    let n = c as u32;
    (0x09 <= n && n <= 0x0D) || n == 0x20 || n == 0x85 || n == 0xA0 || n == 0x1680 || (0x2000
        <= n && n <= 0x200A) || n == 0x2028 || n == 0x2029 || n == 0x202F || n == 0x205F || n
        == 0x3000
}


/// The bounds of `trim(v[lo..hi])` inside `v`.
pub fn trim_range(v: &Vec<char>, lo: usize, hi: usize) -> (r: (usize, usize))
    requires
        lo <= hi <= v.len(),
    ensures
        lo <= r.0 <= r.1 <= hi,
        v@.subrange(r.0 as int, r.1 as int) == trim(v@.subrange(lo as int, hi as int)),
{
    let ghost s = v@.subrange(lo as int, hi as int);
    let mut a = lo;
    while a < hi && is_whitespace(v[a])
        invariant
            lo <= a <= hi <= v.len(),
            s == v@.subrange(lo as int, hi as int),
            forall|k: int| lo <= k < a ==> is_ws(#[trigger] v@[k]),
        decreases hi - a,
    {
        a = a + 1;
    }
    proof {
        assert forall|k: int| 0 <= k < a - lo implies is_ws(#[trigger] s[k]) by {
            assert(s[k] == v@[lo + k]);
        }
        if a < hi {
            assert(s[a - lo] == v@[a as int]);
        }
        lemma_trim_start_skip(s, a - lo);
        assert(s.skip(a - lo) =~= v@.subrange(a as int, hi as int));
    }
    let ghost t = v@.subrange(a as int, hi as int);
    let mut b = hi;
    while b > a && is_whitespace(v[b - 1])
        invariant
            lo <= a <= b <= hi <= v.len(),
            t == v@.subrange(a as int, hi as int),
            forall|k: int| b <= k < hi ==> is_ws(#[trigger] v@[k]),
        decreases b - a,
    {
        b = b - 1;
    }
    proof {
        assert forall|k: int| b - a <= k < t.len() implies is_ws(#[trigger] t[k]) by {
            assert(t[k] == v@[a + k]);
        }
        if b > a {
            assert(t[b - a - 1] == v@[b - 1]);
        }
        lemma_trim_end_take(t, b - a);
        assert(t.take(b - a) =~= v@.subrange(a as int, b as int));
    }
    (a, b)
}



proof fn lemma_digits_value_push(d: Seq<char>, c: char)
    ensures
        digits_value(d.push(c)) == digits_value(d) * 10 + digit_value(c),
{
    assert(d.push(c).drop_last() =~= d);
}

/// Parses `v[lo..hi]` as an unsigned decimal integer no larger than `max`, as
/// `str::parse` does for an unsigned integer type whose largest value is `max`.
pub fn parse_range(v: &Vec<char>, lo: usize, hi: usize, max: u64) -> (r: Option<u64>)
    requires
        lo <= hi <= v.len(),
        max >= 9,
    ensures
        match r {
            Some(n) => parse_bounded(v@.subrange(lo as int, hi as int), max as nat) == Some(n as nat),
            None => parse_bounded(v@.subrange(lo as int, hi as int), max as nat) is None,
        },
{
    let ghost s = v@.subrange(lo as int, hi as int);
    let mut i = lo;
    if i < hi && v[i] == '+' {
        i = i + 1;
    }
    let start = i;
    let ghost d = v@.subrange(start as int, hi as int);
    assert(unsigned_digits(s) =~= d);
    if i == hi {
        return None;
    }
    let mut acc: u64 = 0;
    let mut over = false;
    while i < hi
        invariant
            lo <= start <= i <= hi <= v.len(),
            start < hi,
            max >= 9,
            s == v@.subrange(lo as int, hi as int),
            d == v@.subrange(start as int, hi as int),
            unsigned_digits(s) == d,
            forall|k: int| start <= k < i ==> is_digit(#[trigger] v@[k]),
            !over ==> acc as nat == digits_value(v@.subrange(start as int, i as int)) && acc <= max,
            over ==> digits_value(v@.subrange(start as int, i as int)) > max,
        decreases hi - i,
    {
        let c = v[i];
        if !('0' <= c && c <= '9') {
            assert(d[i - start] == c);
            assert(!is_digit(d[i - start]));
            assert(parse_unsigned(s) is None);
            return None;
        }
        let dv: u64 = (c as u32 - '0' as u32) as u64;
        proof {
            assert(v@.subrange(start as int, i + 1) =~= v@.subrange(start as int, i as int).push(c));
            lemma_digits_value_push(v@.subrange(start as int, i as int), c);
        }
        let ghost prev = digits_value(v@.subrange(start as int, i as int));
        if !over {
            if acc > (max - dv) / 10 {
                assert(acc * 10 + dv > max) by (nonlinear_arith)
                    requires
                        acc > (max - dv) / 10,
                        dv <= 9,
                        max >= 9,
                ;
                over = true;
            } else {
                assert(acc * 10 + dv <= max) by (nonlinear_arith)
                    requires
                        acc <= (max - dv) / 10,
                        dv <= 9,
                        max >= 9,
                ;
                acc = acc * 10 + dv;
            }
        } else {
            assert(prev * 10 + dv >= prev) by (nonlinear_arith)
                requires
                    prev >= 0,
                    dv >= 0,
            ;
        }
        i = i + 1;
    }
    assert(v@.subrange(start as int, i as int) =~= d);
    if over {
        None
    } else {
        Some(acc)
    }
}


/// The decimal representation of a number is made of digits, and is not empty.
pub proof fn lemma_decimal_digits(n: nat)
    ensures
        decimal(n).len() > 0,
        forall|i: int| 0 <= i < decimal(n).len() ==> is_digit(#[trigger] decimal(n)[i]),
        digits_value(decimal(n)) == n,
    decreases n,
{
    if n < 10 {
        assert(seq![digit_char(n)].drop_last() =~= Seq::<char>::empty());
        assert(digit_value(digit_char(n)) == n);
        lemma_digits_value_push(Seq::<char>::empty(), digit_char(n));
        assert(seq![digit_char(n)] =~= Seq::<char>::empty().push(digit_char(n)));
    } else {
        lemma_decimal_digits(n / 10);
        lemma_digits_value_push(decimal(n / 10), digit_char(n % 10));
        assert(digit_value(digit_char(n % 10)) == n % 10);
        assert((n / 10) * 10 + n % 10 == n);
        assert(decimal(n) == decimal(n / 10).push(digit_char(n % 10)));
    }
}

/// Reading back what `to_string` wrote for an integer gives the integer: the
/// parse of `decimal(n)` is `n` for every `n` within the type's bound.
pub proof fn lemma_parse_decimal(n: nat, max: nat)
    requires
        n <= max,
    ensures
        parse_bounded(decimal(n), max) == Some(n),
{
    lemma_decimal_digits(n);
    assert(is_digit(decimal(n)[0]));
    assert(unsigned_digits(decimal(n)) == decimal(n));
}

/// Appends the decimal representation of `n` to `s`.
pub fn push_decimal(s: &mut String, n: u64)
    ensures
        final(s)@ == old(s)@ + decimal(n as nat),
    decreases n,
{
    if n >= 10 {
        push_decimal(s, n / 10);
    }
    let c = char_from_digit((n % 10) as u32);
    push_char(s, c);
    proof {
        if n >= 10 {
            assert(decimal(n as nat) == decimal((n / 10) as nat).push(digit_char((n % 10) as nat)));
        }
    }
}

/// The decimal representation of `n` (what `n.to_string()` gives).
pub fn decimal_string(n: u64) -> (s: String)
    ensures
        s@ == decimal(n as nat),
{
    let mut s = String::new();
    push_decimal(&mut s, n);
    assert(s@ =~= decimal(n as nat));
    s
}

/// The digit character for `d < 10`.
fn char_from_digit(d: u32) -> (c: char)
    requires
        d < 10,
    ensures
        c == digit_char(d as nat),
{
    if d == 0 { '0' }
    else if d == 1 { '1' }
    else if d == 2 { '2' }
    else if d == 3 { '3' }
    else if d == 4 { '4' }
    else if d == 5 { '5' }
    else if d == 6 { '6' }
    else if d == 7 { '7' }
    else if d == 8 { '8' }
    else { '9' }
}


/// The pieces of `s` that the index ranges `r` delimit.
pub open spec fn pieces(s: Seq<char>, r: Seq<(usize, usize)>) -> Seq<Seq<char>> {
    Seq::new(r.len(), |i: int| s.subrange(r[i].0 as int, r[i].1 as int))
}

/// Every range of `r` lies within `lo..hi`.
pub open spec fn ranges_within(r: Seq<(usize, usize)>, lo: int, hi: int) -> bool {
    forall|i: int| 0 <= i < r.len() ==> lo <= (#[trigger] r[i]).0 <= r[i].1 <= hi
}

proof fn lemma_pieces_push(s: Seq<char>, r: Seq<(usize, usize)>, p: (usize, usize))
    ensures
        pieces(s, r.push(p)) == pieces(s, r).push(s.subrange(p.0 as int, p.1 as int)),
{
    assert(pieces(s, r.push(p)) =~= pieces(s, r).push(s.subrange(p.0 as int, p.1 as int)));
}

/// The ranges of the lines of `v`, as `str::lines` splits it.
pub fn line_ranges(v: &Vec<char>) -> (r: Vec<(usize, usize)>)
    ensures
        ranges_within(r@, 0, v.len() as int),
        pieces(v@, r@) == lines(v@),
{
    let mut r: Vec<(usize, usize)> = Vec::new();
    let mut start: usize = 0;
    let mut i: usize = 0;
    assert(v@.skip(0) =~= v@);
    assert(v@.subrange(0, 0) =~= Seq::<char>::empty());
    assert(pieces(v@, r@) =~= Seq::<Seq<char>>::empty());
    while i < v.len()
        invariant
            start <= i <= v.len(),
            ranges_within(r@, 0, v.len() as int),
            lines(v@) == pieces(v@, r@) + lines_from(v@.skip(i as int), v@.subrange(start as int, i as int)),
        decreases v.len() - i,
    {
        let ghost rest = v@.skip(i as int);
        let ghost cur = v@.subrange(start as int, i as int);
        assert(rest[0] == v@[i as int]);
        assert(rest.drop_first() =~= v@.skip(i + 1));
        if v[i] == '\n' {
            let end = if i > start && v[i - 1] == '\r' {
                i - 1
            } else {
                i
            };
            proof {
                assert(v@.subrange(start as int, end as int) =~= strip_cr(cur));
                lemma_pieces_push(v@, r@, (start, end));
                assert(v@.subrange(i + 1, i + 1) =~= Seq::<char>::empty());
                let a = pieces(v@, r@);
                let x = strip_cr(cur);
                let b = lines_from(v@.skip(i + 1), Seq::empty());
                assert(a + (seq![x] + b) =~= a.push(x) + b);
            }
            r.push((start, end));
            start = i + 1;
        } else {
            assert(v@.subrange(start as int, i + 1) =~= cur.push(v@[i as int]));
        }
        i = i + 1;
    }
    assert(v@.skip(i as int) =~= Seq::<char>::empty());
    if start < v.len() {
        proof {
            lemma_pieces_push(v@, r@, (start, v.len()));
        }
        r.push((start, v.len()));
    } else {
        assert(pieces(v@, r@) + Seq::<Seq<char>>::empty() =~= pieces(v@, r@));
    }
    r
}

/// The ranges of the words of `v[lo..hi]`, as `str::split_whitespace` splits it.
pub fn word_ranges(v: &Vec<char>, lo: usize, hi: usize) -> (r: Vec<(usize, usize)>)
    requires
        lo <= hi <= v.len(),
    ensures
        ranges_within(r@, lo as int, hi as int),
        pieces(v@, r@) == words(v@.subrange(lo as int, hi as int)),
{
    let ghost s = v@.subrange(lo as int, hi as int);
    let mut r: Vec<(usize, usize)> = Vec::new();
    let mut start: usize = lo;
    let mut i: usize = lo;
    assert(s.skip(0) =~= s);
    assert(v@.subrange(lo as int, lo as int) =~= Seq::<char>::empty());
    assert(pieces(v@, r@) =~= Seq::<Seq<char>>::empty());
    while i < hi
        invariant
            lo <= start <= i <= hi <= v.len(),
            s == v@.subrange(lo as int, hi as int),
            ranges_within(r@, lo as int, hi as int),
            words(s) == pieces(v@, r@) + words_from(s.skip(i - lo), v@.subrange(start as int, i as int)),
        decreases hi - i,
    {
        let ghost rest = s.skip(i - lo);
        let ghost cur = v@.subrange(start as int, i as int);
        assert(rest[0] == v@[i as int]);
        assert(rest.drop_first() =~= s.skip(i + 1 - lo));
        if is_whitespace(v[i]) {
            proof {
                let a = pieces(v@, r@);
                let b = words_from(s.skip(i + 1 - lo), Seq::empty());
                assert(v@.subrange(i + 1, i + 1) =~= Seq::<char>::empty());
                if cur.len() > 0 {
                    lemma_pieces_push(v@, r@, (start, i));
                    assert(a + (seq![cur] + b) =~= a.push(cur) + b);
                } else {
                    assert(a + (Seq::<Seq<char>>::empty() + b) =~= a + b);
                }
            }
            if start < i {
                r.push((start, i));
            }
            start = i + 1;
        } else {
            assert(v@.subrange(start as int, i + 1) =~= cur.push(v@[i as int]));
        }
        i = i + 1;
    }
    assert(s.skip(i - lo) =~= Seq::<char>::empty());
    if start < hi {
        proof {
            lemma_pieces_push(v@, r@, (start, hi));
        }
        r.push((start, hi));
    } else {
        assert(pieces(v@, r@) + Seq::<Seq<char>>::empty() =~= pieces(v@, r@));
    }
    r
}


/// Whether two string slices hold the same characters.
pub fn same_text(a: &str, b: &str) -> (r: bool)
    ensures
        r == (a@ == b@),
{
    let sa: String = a.to_owned();
    let sb: String = b.to_owned();
    sa == sb
}

/// Whether `v[lo..hi]` is exactly `pat`.
pub fn range_is(v: &Vec<char>, lo: usize, hi: usize, pat: &Vec<char>) -> (r: bool)
    requires
        lo <= hi <= v.len(),
    ensures
        r == (v@.subrange(lo as int, hi as int) == pat@),
{
    if hi - lo != pat.len() {
        return false;
    }
    let mut k: usize = 0;
    while k < pat.len()
        invariant
            lo <= hi <= v.len(),
            hi - lo == pat.len(),
            k <= pat.len(),
            forall|j: int| 0 <= j < k ==> v@[lo + j] == pat@[j],
        decreases pat.len() - k,
    {
        if v[lo + k] != pat[k] {
            assert(v@.subrange(lo as int, hi as int)[k as int] != pat@[k as int]);
            return false;
        }
        k = k + 1;
    }
    assert(v@.subrange(lo as int, hi as int) =~= pat@);
    true
}

/// Whether `pat` occurs in `v[lo..hi]` (`str::contains`).
pub fn range_contains(v: &Vec<char>, lo: usize, hi: usize, pat: &Vec<char>) -> (r: bool)
    requires
        lo <= hi <= v.len(),
    ensures
        r == contains_seq(v@.subrange(lo as int, hi as int), pat@),
{
    let ghost s = v@.subrange(lo as int, hi as int);
    if pat.len() > hi - lo {
        return false;
    }
    if pat.len() == 0 {
        assert(s.subrange(0int, 0int + pat@.len()) =~= pat@);
        assert(contains_seq(s, pat@));
        return true;
    }
    let mut i: usize = lo;
    while i <= hi - pat.len()
        invariant
            lo <= i <= hi <= v.len(),
            pat.len() <= hi - lo,
            pat.len() > 0,
            s == v@.subrange(lo as int, hi as int),
            forall|j: int| 0 <= j < i - lo ==> #[trigger] s.subrange(j, j + pat@.len()) != pat@,
        decreases hi - i,
    {
        if range_is(v, i, i + pat.len(), pat) {
            assert(s.subrange(i - lo, i - lo + pat@.len()) =~= v@.subrange(i as int, i + pat@.len()));
            return true;
        }
        assert(s.subrange(i - lo, i - lo + pat@.len()) =~= v@.subrange(i as int, i + pat@.len()));
        i = i + 1;
    }
    false
}


/// Trimming leaves the decimal representation of a number as it is.
pub proof fn lemma_trim_decimal(n: nat)
    ensures
        trim(decimal(n)) == decimal(n),
{
    let d = decimal(n);
    lemma_decimal_digits(n);
    assert(!is_ws(d[0])) by {
        assert(is_digit(d[0]));
    }
    lemma_trim_start_skip(d, 0);
    assert(d.skip(0) =~= d);
    assert(!is_ws(d[d.len() - 1])) by {
        assert(is_digit(d[d.len() - 1]));
    }
    lemma_trim_end_take(d, d.len() as int);
    assert(d.take(d.len() as int) =~= d);
}


/// Dropping leading white space leaves a suffix of `s`.
pub proof fn lemma_trim_start_suffix(s: Seq<char>)
    ensures
        exists|i: int| 0 <= i <= s.len() && trim_start(s) == #[trigger] s.skip(i),
    decreases s.len(),
{
    if s.len() > 0 && is_ws(s[0]) {
        lemma_trim_start_suffix(s.drop_first());
        let i = choose|i: int| 0 <= i <= s.drop_first().len() && trim_start(s.drop_first()) == #[trigger] s.drop_first().skip(i);
        assert(s.drop_first().skip(i) =~= s.skip(i + 1));
    } else {
        assert(s.skip(0) =~= s);
    }
}

/// Dropping trailing white space leaves a prefix of `s`.
pub proof fn lemma_trim_end_prefix(s: Seq<char>)
    ensures
        exists|j: int| 0 <= j <= s.len() && trim_end(s) == #[trigger] s.take(j),
    decreases s.len(),
{
    if s.len() > 0 && is_ws(s.last()) {
        lemma_trim_end_prefix(s.drop_last());
        let j = choose|j: int| 0 <= j <= s.drop_last().len() && trim_end(s.drop_last()) == #[trigger] s.drop_last().take(j);
        assert(s.drop_last().take(j) =~= s.take(j));
    } else {
        assert(s.take(s.len() as int) =~= s);
    }
}

/// What trimming leaves is a contiguous piece of the text, characters unchanged.
pub proof fn lemma_trim_is_piece(s: Seq<char>)
    ensures
        exists|a: int, b: int| 0 <= a <= b <= s.len() && trim(s) == #[trigger] s.subrange(a, b),
{
    lemma_trim_start_suffix(s);
    let i = choose|i: int| 0 <= i <= s.len() && trim_start(s) == #[trigger] s.skip(i);
    let t = s.skip(i);
    lemma_trim_end_prefix(t);
    let j = choose|j: int| 0 <= j <= t.len() && trim_end(t) == #[trigger] t.take(j);
    assert(t.take(j) =~= s.subrange(i, i + j));
}

} // verus!
