//! Character-level text handling over `Seq<char>` models.

use vstd::prelude::*;

verus! {

/// The Unicode `White_Space` property, as `char::is_whitespace` defines it.
pub open spec fn is_ws(c: char) -> bool {
    let u = c as u32;
    ||| 0x09 <= u <= 0x0d
    ||| u == 0x20
    ||| u == 0x85
    ||| u == 0xa0
    ||| u == 0x1680
    ||| 0x2000 <= u <= 0x200a
    ||| u == 0x2028
    ||| u == 0x2029
    ||| u == 0x202f
    ||| u == 0x205f
    ||| u == 0x3000
}

/// Whether `c` is a Unicode whitespace character.
pub fn is_whitespace(c: char) -> (r: bool)
    ensures
        r == is_ws(c),
{
    let u = c as u32;
    (0x09 <= u && u <= 0x0d) || u == 0x20 || u == 0x85 || u == 0xa0 || u == 0x1680 || (0x2000
        <= u && u <= 0x200a) || u == 0x2028 || u == 0x2029 || u == 0x202f || u == 0x205f || u
        == 0x3000
}

/// The characters of `s`, in order.
pub fn chars_of(s: &str) -> (v: Vec<char>)
    ensures
        v@ == s@,
{
    broadcast use vstd::string::group_string_axioms;
    let mut v: Vec<char> = Vec::new();
    for c in it: s.chars()
        invariant
            it.seq() == s@,
            v@ == it.seq().take(it.index()),
    {
        v.push(c);
    }
    v
}


/// `s` without its leading whitespace.
pub open spec fn trim_start(s: Seq<char>) -> Seq<char>
    decreases s.len(),
{
    if s.len() > 0 && is_ws(s[0]) {
        trim_start(s.drop_first())
    } else {
        s
    }
}

/// `s` without its trailing whitespace.
pub open spec fn trim_end(s: Seq<char>) -> Seq<char>
    decreases s.len(),
{
    if s.len() > 0 && is_ws(s.last()) {
        trim_end(s.drop_last())
    } else {
        s
    }
}

/// `s` without leading and trailing whitespace (`str::trim`).
pub open spec fn trim(s: Seq<char>) -> Seq<char> {
    trim_end(trim_start(s))
}

/// The bounds, within `v[lo..hi]`, of that range without its leading and
/// trailing whitespace.
pub fn trim_bounds(v: &Vec<char>, lo: usize, hi: usize) -> (r: (usize, usize))
    requires
        lo <= hi <= v@.len(),
    ensures
        lo <= r.0 <= r.1 <= hi,
        v@.subrange(r.0 as int, hi as int) == trim_start(v@.subrange(lo as int, hi as int)),
        v@.subrange(r.0 as int, r.1 as int) == trim(v@.subrange(lo as int, hi as int)),
{
    let ghost s = v@.subrange(lo as int, hi as int);
    let mut i: usize = lo;
    assert(v@.subrange(lo as int, hi as int) =~= s);
    while i < hi && is_whitespace(v[i])
        invariant
            lo <= i <= hi <= v@.len(),
            s == v@.subrange(lo as int, hi as int),
            trim_start(s) == trim_start(v@.subrange(i as int, hi as int)),
        decreases hi - i,
    {
        assert(v@.subrange(i as int, hi as int).drop_first() =~= v@.subrange(i + 1, hi as int));
        i = i + 1;
    }
    assert(trim_start(s) == v@.subrange(i as int, hi as int));
    let mut j: usize = hi;
    while j > i && is_whitespace(v[j - 1])
        invariant
            lo <= i <= j <= hi <= v@.len(),
            s == v@.subrange(lo as int, hi as int),
            trim(s) == trim_end(v@.subrange(i as int, j as int)),
            trim_start(s) == v@.subrange(i as int, hi as int),
        decreases j,
    {
        assert(v@.subrange(i as int, j as int).drop_last() =~= v@.subrange(i as int, j - 1));
        j = j - 1;
    }
    (i, j)
}

/// `s` with leading and trailing whitespace removed (`str::trim`).
pub fn trim_str(s: &str) -> (r: &str)
    ensures
        r@ == trim(s@),
{
    let v = chars_of(s);
    let (a, b) = trim_bounds(&v, 0, v.len());
    assert(v@.subrange(0, v@.len() as int) =~= v@);
    s.substring_char(a, b)
}

/// Whether `c` is an ASCII decimal digit.
pub open spec fn is_digit(c: char) -> bool {
    '0' <= c <= '9'
}

/// The value of the decimal digit `c`.
pub open spec fn digit_val(c: char) -> nat {
    (c as int - '0' as int) as nat
}

/// The value of a string of decimal digits, most significant first.
pub open spec fn digits_value(s: Seq<char>) -> nat
    decreases s.len(),
{
    if s.len() == 0 {
        0
    } else {
        digits_value(s.drop_last()) * 10 + digit_val(s.last())
    }
}

/// The digits that follow an optional leading `+`.
pub open spec fn unsigned_digits(s: Seq<char>) -> Seq<char> {
    if s.len() > 0 && s[0] == '+' {
        s.drop_first()
    } else {
        s
    }
}

/// What `u32::from_str` accepts: an optional `+`, then one or more decimal
/// digits whose value fits in `u32`; anything else is refused.
pub open spec fn parse_u32(s: Seq<char>) -> Option<u32> {
    let d = unsigned_digits(s);
    if d.len() > 0 && (forall|i: int| 0 <= i < d.len() ==> is_digit(#[trigger] d[i]))
        && digits_value(d) <= u32::MAX {
        Some(digits_value(d) as u32)
    } else {
        None
    }
}

/// Parses `v[lo..hi]` as a decimal `u32`, as `u32::from_str` does.
pub fn parse_u32_range(v: &Vec<char>, lo: usize, hi: usize) -> (r: Option<u32>)
    requires
        lo <= hi <= v@.len(),
    ensures
        r == parse_u32(v@.subrange(lo as int, hi as int)),
{
    let ghost s = v@.subrange(lo as int, hi as int);
    let start: usize = if lo < hi && v[lo] == '+' {
        lo + 1
    } else {
        lo
    };
    let ghost d = unsigned_digits(s);
    assert(d =~= v@.subrange(start as int, hi as int));
    if start == hi {
        assert(d.len() == 0);
        return None;
    }
    let mut value: u64 = 0;
    let mut overflow = false;
    let mut i: usize = start;
    while i < hi
        invariant
            lo <= start <= i <= hi <= v@.len(),
            s == v@.subrange(lo as int, hi as int),
            d == v@.subrange(start as int, hi as int),
            d == unsigned_digits(s),
            forall|k: int| 0 <= k < i - start ==> is_digit(#[trigger] d[k]),
            !overflow ==> value == digits_value(d.subrange(0, i - start)),
            overflow ==> digits_value(d.subrange(0, i - start)) > u32::MAX,
            value <= u32::MAX,
        decreases hi - i,
    {
        let c = v[i];
        if !('0' <= c && c <= '9') {
            assert(!is_digit(d[i - start]));
            return None;
        }
        let ghost prev = d.subrange(0, i - start);
        assert(d.subrange(0, i + 1 - start).drop_last() =~= prev);
        assert(d.subrange(0, i + 1 - start).last() == c);
        if !overflow {
            let dv = (c as u32 - '0' as u32) as u64;
            let next = value * 10 + dv;
            if next > 0xffff_ffff {
                overflow = true;
            } else {
                value = next;
            }
        }
        i = i + 1;
    }
    assert(d.subrange(0, hi - start) =~= d);
    if overflow {
        None
    } else {
        Some(value as u32)
    }
}

/// Parses the trimmed text of `s` as a decimal `u32`
/// (`s.trim().parse::<u32>().ok()`).
pub fn parse_trimmed_u32(s: &str) -> (r: Option<u32>)
    ensures
        r == parse_u32(trim(s@)),
{
    let v = chars_of(s);
    let (a, b) = trim_bounds(&v, 0, v.len());
    assert(v@.subrange(0, v@.len() as int) =~= v@);
    parse_u32_range(&v, a, b)
}

/// The character of the decimal digit `d` (`d < 10`).
pub open spec fn digit_char(d: nat) -> char {
    if d == 0 {
        '0'
    } else if d == 1 {
        '1'
    } else if d == 2 {
        '2'
    } else if d == 3 {
        '3'
    } else if d == 4 {
        '4'
    } else if d == 5 {
        '5'
    } else if d == 6 {
        '6'
    } else if d == 7 {
        '7'
    } else if d == 8 {
        '8'
    } else {
        '9'
    }
}

/// The decimal representation of `n`, without leading zeros.
pub open spec fn decimal(n: nat) -> Seq<char>
    decreases n,
{
    if n < 10 {
        seq![digit_char(n)]
    } else {
        decimal(n / 10).push(digit_char(n % 10))
    }
}

/// The decimal representation of `v`, with a leading `-` when negative.
pub open spec fn signed_decimal(v: int) -> Seq<char> {
    if v < 0 {
        seq!['-'] + decimal((-v) as nat)
    } else {
        decimal(v as nat)
    }
}

/// The one-character text of the decimal digit `d`.
fn digit_str(d: u32) -> (r: &'static str)
    requires
        d < 10,
    ensures
        r@ == seq![digit_char(d as nat)],
{
    proof {
        reveal_strlit("0");
        reveal_strlit("1");
        reveal_strlit("2");
        reveal_strlit("3");
        reveal_strlit("4");
        reveal_strlit("5");
        reveal_strlit("6");
        reveal_strlit("7");
        reveal_strlit("8");
        reveal_strlit("9");
    }
    if d == 0 {
        "0"
    } else if d == 1 {
        "1"
    } else if d == 2 {
        "2"
    } else if d == 3 {
        "3"
    } else if d == 4 {
        "4"
    } else if d == 5 {
        "5"
    } else if d == 6 {
        "6"
    } else if d == 7 {
        "7"
    } else if d == 8 {
        "8"
    } else {
        "9"
    }
}

/// Appends the decimal representation of `n` to `s`.
pub fn push_decimal(s: &mut String, n: u32)
    ensures
        final(s)@ == old(s)@ + decimal(n as nat),
    decreases n,
{
    if n >= 10 {
        push_decimal(s, n / 10);
    }
    s.append(digit_str(n % 10));
    assert(old(s)@ + decimal(n as nat) =~= old(s)@ + (if n >= 10 { decimal((n / 10) as nat) } else { seq![] }) + seq![digit_char((n % 10) as nat)]);
}

/// The decimal text of `n` (`u32::to_string`).
pub fn decimal_string(n: u32) -> (r: String)
    ensures
        r@ == decimal(n as nat),
{
    let mut s = String::new();
    push_decimal(&mut s, n);
    assert(s@ =~= decimal(n as nat));
    s
}

/// The decimal text of `v` (`i32::to_string`).
pub fn signed_decimal_string(v: i32) -> (r: String)
    ensures
        r@ == signed_decimal(v as int),
{
    if v < 0 {
        proof {
            reveal_strlit("-");
        }
        let mut s = String::from_str("-");
        let magnitude = (-(v as i64)) as u32;
        push_decimal(&mut s, magnitude);
        s
    } else {
        decimal_string(v as u32)
    }
}

/// Every character of `decimal(n)` is a digit, it is never empty, and its
/// value is `n`.
pub proof fn lemma_decimal(n: nat)
    ensures
        decimal(n).len() > 0,
        forall|i: int| 0 <= i < decimal(n).len() ==> is_digit(#[trigger] decimal(n)[i]),
        digits_value(decimal(n)) == n,
    decreases n,
{
    assert(digit_val('0') == 0 && digit_val('1') == 1 && digit_val('2') == 2 && digit_val('3') == 3
        && digit_val('4') == 4 && digit_val('5') == 5 && digit_val('6') == 6 && digit_val('7') == 7
        && digit_val('8') == 8 && digit_val('9') == 9);
    if n >= 10 {
        lemma_decimal(n / 10);
        assert(decimal(n).drop_last() =~= decimal(n / 10));
        assert(n == (n / 10) * 10 + n % 10);
        assert(digit_val(digit_char(n % 10)) == n % 10);
        assert(decimal(n).last() == digit_char(n % 10));
        assert(digits_value(decimal(n)) == digits_value(decimal(n / 10)) * 10 + n % 10);
    } else {
        assert(decimal(n).drop_last() =~= Seq::<char>::empty());
        assert(digit_val(digit_char(n)) == n);
        assert(digits_value(decimal(n)) == digits_value(Seq::<char>::empty()) * 10 + digit_val(digit_char(n)));
    }
}

/// Decimal text parses back to the number it was made from.
pub proof fn lemma_parse_decimal(n: u32)
    ensures
        parse_u32(decimal(n as nat)) == Some(n),
{
    lemma_decimal(n as nat);
    assert(unsigned_digits(decimal(n as nat)) == decimal(n as nat));
}


/// Whether `p` occurs in `s` starting at index `k`.
pub open spec fn occurs_at(s: Seq<char>, p: Seq<char>, k: int) -> bool {
    0 <= k && k + p.len() <= s.len() && s.subrange(k, k + p.len()) == p
}

/// The first index at or after `i` where `p` occurs in `s`.
pub open spec fn find_from(s: Seq<char>, p: Seq<char>, i: int) -> Option<int>
    decreases s.len() + 1 - i,
{
    if i < 0 || i + p.len() > s.len() {
        None
    } else if occurs_at(s, p, i) {
        Some(i)
    } else {
        find_from(s, p, i + 1)
    }
}

/// What `find_from` finds is an occurrence, and no earlier one exists.
pub proof fn lemma_find_from(s: Seq<char>, p: Seq<char>, i: int)
    requires
        0 <= i,
    ensures
        match find_from(s, p, i) {
            Some(k) => i <= k && occurs_at(s, p, k) && forall|j: int|
                i <= j < k ==> !occurs_at(s, p, j),
            None => forall|j: int| i <= j ==> !occurs_at(s, p, j),
        },
    decreases s.len() + 1 - i,
{
    if i + p.len() > s.len() {
    } else if occurs_at(s, p, i) {
    } else {
        lemma_find_from(s, p, i + 1);
    }
}

/// Whether `p` occurs in `v` at index `k`.
fn matches_at(v: &Vec<char>, p: &Vec<char>, k: usize) -> (r: bool)
    requires
        k + p@.len() <= v@.len(),
    ensures
        r == occurs_at(v@, p@, k as int),
{
    let m = p.len();
    let n = v.len();
    let mut j: usize = 0;
    while j < m
        invariant
            j <= m == p@.len(),
            n == v@.len(),
            k + m <= n,
            forall|t: int| 0 <= t < j ==> v@[k + t] == p@[t],
        decreases m - j,
    {
        if v[k + j] != p[j] {
            assert(v@.subrange(k as int, k + m)[j as int] != p@[j as int]);
            return false;
        }
        j = j + 1;
    }
    assert(v@.subrange(k as int, k + m) =~= p@);
    true
}

/// The first index at or after `from` where `p` occurs in `v`.
pub fn find_chars(v: &Vec<char>, p: &Vec<char>, from: usize) -> (r: Option<usize>)
    ensures
        match r {
            Some(k) => find_from(v@, p@, from as int) == Some(k as int) && k + p@.len() <= v@.len(),
            None => find_from(v@, p@, from as int) is None,
        },
{
    let n = v.len();
    let m = p.len();
    if m > n || from > n - m {
        return None;
    }
    if m == 0 {
        assert(occurs_at(v@, p@, from as int)) by {
            assert(v@.subrange(from as int, from as int) =~= p@);
        }
        return Some(from);
    }
    let mut k: usize = from;
    while k <= n - m
        invariant
            1 <= m <= n,
            k <= n - m + 1,
            n == v@.len(),
            m == p@.len(),
            from <= k,
            find_from(v@, p@, from as int) == find_from(v@, p@, k as int),
        decreases n - k,
    {
        if matches_at(v, p, k) {
            return Some(k);
        }
        k = k + 1;
    }
    None
}

/// The first line of `s`, as `str::lines` yields it: up to the first `\n`,
/// with a `\r` right before that `\n` removed; the whole text when it holds
/// no `\n`; nothing for the empty text.
pub open spec fn first_line(s: Seq<char>) -> Option<Seq<char>> {
    if s.len() == 0 {
        None
    } else {
        match find_from(s, seq!['\n'], 0) {
            Some(i) => {
                let l = s.subrange(0, i);
                Some(
                    if l.len() > 0 && l.last() == '\r' {
                        l.drop_last()
                    } else {
                        l
                    },
                )
            },
            None => Some(s),
        }
    }
}

/// `s` without the prefix `p`, when `s` starts with `p` (`str::strip_prefix`).
pub open spec fn strip_prefix(s: Seq<char>, p: Seq<char>) -> Option<Seq<char>> {
    if p.len() <= s.len() && s.subrange(0, p.len() as int) == p {
        Some(s.subrange(p.len() as int, s.len() as int))
    } else {
        None
    }
}

/// The bounds of the first line of `v` (see `first_line`).
pub fn first_line_bounds(v: &Vec<char>) -> (r: Option<usize>)
    ensures
        match r {
            Some(e) => e <= v@.len() && first_line(v@) == Some(v@.subrange(0, e as int)),
            None => first_line(v@) is None,
        },
{
    if v.len() == 0 {
        return None;
    }
    let newline = vec!['\n'];
    assert(newline@ =~= seq!['\n']);
    match find_chars(v, &newline, 0) {
        Some(i) => {
            assert(find_from(v@, seq!['\n'], 0) == Some(i as int));
            if i > 0 && v[i - 1] == '\r' {
                assert(v@.subrange(0, i as int).drop_last() =~= v@.subrange(0, i - 1));
                assert(v@.subrange(0, i as int).last() == '\r');
                Some(i - 1)
            } else {
                Some(i)
            }
        },
        None => {
            assert(v@.subrange(0, v@.len() as int) =~= v@);
            Some(v.len())
        },
    }
}

/// Whether `v[lo..hi]` starts with `p`.
pub fn starts_with_range(v: &Vec<char>, lo: usize, hi: usize, p: &Vec<char>) -> (r: bool)
    requires
        lo <= hi <= v@.len(),
    ensures
        r == strip_prefix(v@.subrange(lo as int, hi as int), p@) is Some,
{
    let m = p.len();
    if m > hi - lo {
        return false;
    }
    let b = matches_at(v, p, lo);
    assert(v@.subrange(lo as int, hi as int).subrange(0, m as int) =~= v@.subrange(
        lo as int,
        lo + m,
    ));
    b
}


/// Whether every character of `s` is whitespace.
pub open spec fn all_ws(s: Seq<char>) -> bool {
    forall|i: int| 0 <= i < s.len() ==> is_ws(#[trigger] s[i])
}

/// Leading whitespace is dropped by `trim_start` up to the first other character.
pub proof fn lemma_trim_start_padded(a: Seq<char>, x: Seq<char>)
    requires
        all_ws(a),
        x.len() > 0,
        !is_ws(x[0]),
    ensures
        trim_start(a + x) == x,
    decreases a.len(),
{
    if a.len() == 0 {
        assert(a + x =~= x);
    } else {
        assert((a + x).drop_first() =~= a.drop_first() + x);
        lemma_trim_start_padded(a.drop_first(), x);
    }
}

/// Trailing whitespace is dropped by `trim_end` back to the last other character.
pub proof fn lemma_trim_end_padded(x: Seq<char>, b: Seq<char>)
    requires
        all_ws(b),
        x.len() > 0,
        !is_ws(x.last()),
    ensures
        trim_end(x + b) == x,
    decreases b.len(),
{
    if b.len() == 0 {
        assert(x + b =~= x);
    } else {
        assert((x + b).drop_last() =~= x + b.drop_last());
        lemma_trim_end_padded(x, b.drop_last());
    }
}

/// Trimming a text padded on both sides with whitespace gives back the text,
/// when it neither starts nor ends with whitespace.
pub proof fn lemma_trim_padded(a: Seq<char>, x: Seq<char>, b: Seq<char>)
    requires
        all_ws(a),
        all_ws(b),
        x.len() > 0,
        !is_ws(x[0]),
        !is_ws(x.last()),
    ensures
        trim(a + x + b) == x,
{
    assert(a + x + b =~= a + (x + b));
    lemma_trim_start_padded(a, x + b);
    lemma_trim_end_padded(x, b);
}

/// Decimal text neither starts nor ends with whitespace.
pub proof fn lemma_decimal_edges(n: nat)
    ensures
        decimal(n).len() > 0,
        !is_ws(decimal(n)[0]),
        !is_ws(decimal(n).last()),
        decimal(n)[0] != '+',
{
    lemma_decimal(n);
    assert(is_digit(decimal(n)[0]));
    assert(is_digit(decimal(n)[decimal(n).len() - 1]));
}


/// The second piece of `s` split at the non-empty pattern `p`
/// (`s.split(p).nth(1)`): what lies between the first occurrence of `p` and
/// the next one after it, or the end of `s`.
pub open spec fn second_piece(s: Seq<char>, p: Seq<char>) -> Option<Seq<char>> {
    match find_from(s, p, 0) {
        Some(i) => {
            let from = i + p.len();
            match find_from(s, p, from) {
                Some(j) => Some(s.subrange(from, j)),
                None => Some(s.subrange(from, s.len() as int)),
            }
        },
        None => None,
    }
}

/// The bounds in `v` of the second piece of `v` split at `p`.
pub fn second_piece_bounds(v: &Vec<char>, p: &Vec<char>) -> (r: Option<(usize, usize)>)
    ensures
        match r {
            Some((a, b)) => a <= b <= v@.len() && second_piece(v@, p@) == Some(
                v@.subrange(a as int, b as int),
            ),
            None => second_piece(v@, p@) is None,
        },
{
    let n = v.len();
    match find_chars(v, p, 0) {
        Some(i) => {
            assert(i + p@.len() <= n);
            let from = i + p.len();
            proof {
                lemma_find_from(v@, p@, from as int);
            }
            match find_chars(v, p, from) {
                Some(j) => Some((from, j)),
                None => Some((from, v.len())),
            }
        },
        None => None,
    }
}

/// A copy of `v[lo..hi]`.
pub fn copy_range(v: &Vec<char>, lo: usize, hi: usize) -> (r: Vec<char>)
    requires
        lo <= hi <= v@.len(),
    ensures
        r@ == v@.subrange(lo as int, hi as int),
{
    let mut r: Vec<char> = Vec::new();
    let mut k: usize = lo;
    while k < hi
        invariant
            lo <= k <= hi <= v@.len(),
            r@ == v@.subrange(lo as int, k as int),
        decreases hi - k,
    {
        r.push(v[k]);
        k = k + 1;
    }
    r
}


/// An occurrence with none before it, from `i` on, is what `find_from` finds.
pub proof fn lemma_find_first(s: Seq<char>, p: Seq<char>, i: int, k: int)
    requires
        0 <= i <= k,
        occurs_at(s, p, k),
        forall|j: int| i <= j < k ==> !occurs_at(s, p, j),
    ensures
        find_from(s, p, i) == Some(k),
    decreases k - i,
{
    if i < k {
        assert(!occurs_at(s, p, i));
        lemma_find_first(s, p, i + 1, k);
    }
}


/// Whether every character of `s` is a decimal digit.
pub open spec fn all_digits(s: Seq<char>) -> bool {
    forall|i: int| 0 <= i < s.len() ==> is_digit(#[trigger] s[i])
}

/// Ten to the power `n`.
pub open spec fn pow10(n: nat) -> nat
    decreases n,
{
    if n == 0 {
        1
    } else {
        10 * pow10((n - 1) as nat)
    }
}

proof fn lemma_pow10_mono(m: nat, n: nat)
    requires
        m <= n,
    ensures
        1 <= pow10(m) <= pow10(n),
    decreases n,
{
    if n > m {
        lemma_pow10_mono(m, (n - 1) as nat);
    } else if n > 0 {
        lemma_pow10_mono(0, (n - 1) as nat);
    }
}

/// The value of `x` followed by `y` is that of `x` shifted by `y`'s length,
/// plus that of `y`.
pub proof fn lemma_digits_split(x: Seq<char>, y: Seq<char>)
    ensures
        digits_value(x + y) == digits_value(x) * pow10(y.len()) + digits_value(y),
    decreases y.len(),
{
    if y.len() == 0 {
        assert(x + y =~= x);
        assert(digits_value(y) == 0);
        assert(pow10(0) == 1);
        assert(digits_value(x) * 1 == digits_value(x));
    } else {
        let y2 = y.drop_last();
        assert((x + y).drop_last() =~= x + y2);
        assert((x + y).last() == y.last());
        lemma_digits_split(x, y2);
        assert(digits_value(x + y) == digits_value(x + y2) * 10 + digit_val(y.last()));
        assert(digits_value(y) == digits_value(y2) * 10 + digit_val(y.last()));
        assert(pow10(y.len()) == 10 * pow10(y2.len()));
        let a = digits_value(x);
        let p = pow10(y2.len());
        let b = digits_value(y2);
        assert((a * p + b) * 10 == a * (10 * p) + b * 10) by (nonlinear_arith);
    }
}

/// A digit string is below ten to the power of its length.
proof fn lemma_digits_bound(x: Seq<char>)
    requires
        all_digits(x),
    ensures
        digits_value(x) < pow10(x.len()),
    decreases x.len(),
{
    if x.len() > 0 {
        let x2 = x.drop_last();
        assert(all_digits(x2)) by {
            assert forall|i: int| 0 <= i < x2.len() implies is_digit(#[trigger] x2[i]) by {
                assert(x2[i] == x[i]);
            }
        }
        lemma_digits_bound(x2);
        assert(is_digit(x[x.len() - 1]));
        assert(digit_val(x.last()) <= 9);
        let a = digits_value(x2);
        let p = pow10(x2.len());
        assert(a + 1 <= p ==> a * 10 + 9 < 10 * p) by (nonlinear_arith);
    }
}

/// A string of zeros has the value 0.
proof fn lemma_zeros(z: Seq<char>)
    requires
        forall|i: int| 0 <= i < z.len() ==> #[trigger] z[i] == '0',
    ensures
        digits_value(z) == 0,
    decreases z.len(),
{
    if z.len() > 0 {
        let z2 = z.drop_last();
        assert forall|i: int| 0 <= i < z2.len() implies #[trigger] z2[i] == '0' by {
            assert(z2[i] == z[i]);
        }
        lemma_zeros(z2);
        assert(z[z.len() - 1] == '0');
    }
}

/// A digit string that does not start with `0` is at least ten to the power
/// of its length less one.
proof fn lemma_digits_lower(x: Seq<char>)
    requires
        all_digits(x),
        x.len() > 0,
        x[0] != '0',
    ensures
        digits_value(x) >= pow10((x.len() - 1) as nat),
{
    let h = x.subrange(0, 1);
    let t = x.subrange(1, x.len() as int);
    assert(h + t =~= x);
    lemma_digits_split(h, t);
    assert(h.drop_last() =~= Seq::<char>::empty());
    assert(is_digit(x[0]));
    assert(h.last() == x[0]);
    assert(digits_value(h) == digits_value(Seq::<char>::empty()) * 10 + digit_val(x[0]));
    assert(digits_value(h) >= 1);
    let p = pow10(t.len());
    assert(digits_value(h) >= 1 ==> digits_value(h) * p >= p) by (nonlinear_arith);
}

/// Two digit strings of one length that agree up to `k` and differ there
/// are ordered by their digits at `k`.
proof fn lemma_first_difference(x: Seq<char>, y: Seq<char>, k: int)
    requires
        x.len() == y.len(),
        0 <= k < x.len(),
        all_digits(x),
        all_digits(y),
        x.subrange(0, k) == y.subrange(0, k),
        x[k] > y[k],
    ensures
        digits_value(x) > digits_value(y),
{
    let n = x.len() as int;
    let xh = x.subrange(0, k + 1);
    let xt = x.subrange(k + 1, n);
    let yh = y.subrange(0, k + 1);
    let yt = y.subrange(k + 1, n);
    assert(xh + xt =~= x);
    assert(yh + yt =~= y);
    lemma_digits_split(xh, xt);
    lemma_digits_split(yh, yt);
    assert(xh.drop_last() =~= x.subrange(0, k));
    assert(yh.drop_last() =~= y.subrange(0, k));
    assert(digit_val(x[k]) > digit_val(y[k])) by {
        assert(is_digit(x[k]) && is_digit(y[k]));
    }
    assert(digits_value(xh) >= digits_value(yh) + 1);
    assert(all_digits(yt)) by {
        assert forall|i: int| 0 <= i < yt.len() implies is_digit(#[trigger] yt[i]) by {
            assert(yt[i] == y[k + 1 + i]);
        }
    }
    lemma_digits_bound(yt);
    let p = pow10(yt.len());
    let a = digits_value(xh);
    let b = digits_value(yh);
    let c = digits_value(xt);
    let d = digits_value(yt);
    assert(a >= b + 1 && d < p && c >= 0 ==> a * p + c > b * p + d) by (nonlinear_arith);
}

/// The first index at or after `lo` in `v[lo..hi]` that is not `0`, and that
/// the value of the range does not change from there.
fn skip_zeros(v: &Vec<char>, lo: usize, hi: usize) -> (i: usize)
    requires
        lo <= hi <= v@.len(),
        all_digits(v@.subrange(lo as int, hi as int)),
    ensures
        lo <= i <= hi,
        i < hi ==> v@[i as int] != '0',
        all_digits(v@.subrange(i as int, hi as int)),
        digits_value(v@.subrange(lo as int, hi as int)) == digits_value(
            v@.subrange(i as int, hi as int),
        ),
{
    let mut i = lo;
    while i < hi && v[i] == '0'
        invariant
            lo <= i <= hi <= v@.len(),
            forall|t: int| lo <= t < i ==> v@[t] == '0',
        decreases hi - i,
    {
        i = i + 1;
    }
    proof {
        let z = v@.subrange(lo as int, i as int);
        let r = v@.subrange(i as int, hi as int);
        assert forall|t: int| 0 <= t < z.len() implies #[trigger] z[t] == '0' by {
            assert(z[t] == v@[lo + t]);
        }
        lemma_zeros(z);
        assert(z + r =~= v@.subrange(lo as int, hi as int));
        lemma_digits_split(z, r);
        assert forall|t: int| 0 <= t < r.len() implies is_digit(#[trigger] r[t]) by {
            assert(r[t] == v@.subrange(lo as int, hi as int)[i - lo + t]);
        }
    }
    i
}

/// How the numbers written by the digit strings `a[alo..ahi]` and
/// `b[blo..bhi]` compare: 1, 0 or -1 as the first is above, equal to or
/// below the second.
pub fn compare_digits(a: &Vec<char>, alo: usize, ahi: usize, b: &Vec<char>, blo: usize, bhi: usize) -> (r: i8)
    requires
        alo <= ahi <= a@.len(),
        blo <= bhi <= b@.len(),
        all_digits(a@.subrange(alo as int, ahi as int)),
        all_digits(b@.subrange(blo as int, bhi as int)),
    ensures
        r == 1 <==> digits_value(a@.subrange(alo as int, ahi as int)) > digits_value(
            b@.subrange(blo as int, bhi as int),
        ),
        r == -1 <==> digits_value(a@.subrange(alo as int, ahi as int)) < digits_value(
            b@.subrange(blo as int, bhi as int),
        ),
        r == 0 <==> digits_value(a@.subrange(alo as int, ahi as int)) == digits_value(
            b@.subrange(blo as int, bhi as int),
        ),
{
    let i = skip_zeros(a, alo, ahi);
    let j = skip_zeros(b, blo, bhi);
    let ghost x = a@.subrange(i as int, ahi as int);
    let ghost y = b@.subrange(j as int, bhi as int);
    let la = ahi - i;
    let lb = bhi - j;
    if la > lb {
        proof {
            assert(x[0] == a@[i as int]);
            lemma_digits_lower(x);
            lemma_digits_bound(y);
            lemma_pow10_mono(lb as nat, (la - 1) as nat);
        }
        return 1;
    }
    if la < lb {
        proof {
            assert(y[0] == b@[j as int]);
            lemma_digits_lower(y);
            lemma_digits_bound(x);
            lemma_pow10_mono(la as nat, (lb - 1) as nat);
        }
        return -1;
    }
    let mut k: usize = 0;
    while k < la
        invariant
            la == lb,
            la == x.len(),
            lb == y.len(),
            i + la == ahi,
            j + lb == bhi,
            ahi <= a@.len(),
            bhi <= b@.len(),
            x == a@.subrange(i as int, ahi as int),
            y == b@.subrange(j as int, bhi as int),
            all_digits(x),
            all_digits(y),
            k <= la,
            x.subrange(0, k as int) == y.subrange(0, k as int),
            alo <= i,
            blo <= j,
            digits_value(a@.subrange(alo as int, ahi as int)) == digits_value(x),
            digits_value(b@.subrange(blo as int, bhi as int)) == digits_value(y),
        decreases la - k,
    {
        let c = a[i + k];
        let d = b[j + k];
        assert(c == x[k as int] && d == y[k as int]);
        if c > d {
            proof {
                lemma_first_difference(x, y, k as int);
            }
            return 1;
        }
        if c < d {
            proof {
                lemma_first_difference(y, x, k as int);
            }
            return -1;
        }
        assert(x.subrange(0, k + 1) =~= x.subrange(0, k as int).push(c));
        assert(y.subrange(0, k + 1) =~= y.subrange(0, k as int).push(d));
        k = k + 1;
    }
    assert(x =~= x.subrange(0, la as int));
    assert(y =~= y.subrange(0, lb as int));
    0
}

/// Whether `v[lo..hi]` is the text `w`.
pub fn range_equals(v: &Vec<char>, lo: usize, hi: usize, w: &Vec<char>) -> (r: bool)
    requires
        lo <= hi <= v@.len(),
    ensures
        r == (v@.subrange(lo as int, hi as int) == w@),
{
    if hi - lo != w.len() {
        return false;
    }
    matches_at(v, w, lo)
}

} // verus!
