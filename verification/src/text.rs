//! Text utilities over sequences of characters: searching, splitting,
//! trimming and decimal numbers.
use vstd::prelude::*;

verus! {

/// Whether `c` has the Unicode `White_Space` property.
pub open spec fn is_whitespace(c: char) -> bool {
    let u = c as u32;
    ||| 0x9 <= u <= 0xd
    ||| u == 0x20
    ||| u == 0x85
    ||| u == 0xa0
    ||| u == 0x1680
    ||| 0x2000 <= u <= 0x200a
    ||| u == 0x2028
    ||| u == 0x2029
    ||| u == 0x202f
    ||| u == 0x205f
    ||| u == 0x3000
}

pub fn char_is_whitespace(c: char) -> (r: bool)
    ensures
        r == is_whitespace(c),
{
    let u = c as u32;
    (0x9 <= u && u <= 0xd) || u == 0x20 || u == 0x85 || u == 0xa0 || u == 0x1680 || (0x2000
        <= u && u <= 0x200a) || u == 0x2028 || u == 0x2029 || u == 0x202f || u == 0x205f || u
        == 0x3000
}

/// `s` without its leading whitespace.
pub open spec fn trim_start(s: Seq<char>) -> Seq<char>
    decreases s.len(),
{
    if s.len() > 0 && is_whitespace(s[0]) {
        trim_start(s.drop_first())
    } else {
        s
    }
}

/// `s` without its trailing whitespace.
pub open spec fn trim_end(s: Seq<char>) -> Seq<char>
    decreases s.len(),
{
    if s.len() > 0 && is_whitespace(s.last()) {
        trim_end(s.drop_last())
    } else {
        s
    }
}

/// `s` without leading and trailing whitespace.
pub open spec fn trim(s: Seq<char>) -> Seq<char> {
    trim_end(trim_start(s))
}

/// Where what `trim_start` keeps begins.
proof fn lemma_trim_start_skips(s: Seq<char>) -> (k: int)
    ensures
        0 <= k <= s.len(),
        trim_start(s) == s.skip(k),
        forall|i: int| 0 <= i < k ==> is_whitespace(#[trigger] s[i]),
        trim_start(s).len() > 0 ==> !is_whitespace(trim_start(s)[0]),
    decreases s.len(),
{
    if s.len() > 0 && is_whitespace(s[0]) {
        let k1 = lemma_trim_start_skips(s.drop_first());
        assert(s.skip(k1 + 1) =~= s.drop_first().skip(k1));
        assert forall|i: int| 0 <= i < k1 + 1 implies is_whitespace(#[trigger] s[i]) by {
            if i > 0 {
                assert(s[i] == s.drop_first()[i - 1]);
            }
        }
        k1 + 1
    } else {
        assert(s.skip(0) =~= s);
        0
    }
}

/// Where what `trim_end` keeps ends.
proof fn lemma_trim_end_takes(s: Seq<char>) -> (m: int)
    ensures
        0 <= m <= s.len(),
        trim_end(s) == s.take(m),
        forall|i: int| m <= i < s.len() ==> is_whitespace(#[trigger] s[i]),
        trim_end(s).len() > 0 ==> !is_whitespace(trim_end(s).last()),
    decreases s.len(),
{
    if s.len() > 0 && is_whitespace(s.last()) {
        let m1 = lemma_trim_end_takes(s.drop_last());
        assert(s.take(m1) =~= s.drop_last().take(m1));
        assert forall|i: int| m1 <= i < s.len() implies is_whitespace(#[trigger] s[i]) by {
            if i < s.len() - 1 {
                assert(s[i] == s.drop_last()[i]);
            }
        }
        m1
    } else {
        assert(s.take(s.len() as int) =~= s);
        s.len() as int
    }
}

/// Trimming removes whitespace at both ends and nothing else: the trimmed
/// text neither starts nor ends with whitespace, and `s` is the trimmed text
/// with only whitespace before and after it; `k` is where it starts in `s`.
pub proof fn lemma_trim_strips_both_ends(s: Seq<char>) -> (k: int)
    ensures
        trim(s).len() > 0 ==> !is_whitespace(trim(s)[0]) && !is_whitespace(trim(s).last()),
        0 <= k && k + trim(s).len() <= s.len(),
        s.subrange(k, k + trim(s).len()) == trim(s),
        forall|i: int| 0 <= i < k ==> is_whitespace(#[trigger] s[i]),
        forall|i: int| k + trim(s).len() <= i < s.len() ==> is_whitespace(#[trigger] s[i]),
{
    let k = lemma_trim_start_skips(s);
    let t = trim_start(s);
    let m = lemma_trim_end_takes(t);
    let r = trim(s);
    assert(r == t.take(m));
    if r.len() > 0 {
        assert(r[0] == t[0]);
    }
    assert(s.subrange(k, k + m) =~= r);
    assert forall|i: int| k + r.len() <= i < s.len() implies is_whitespace(#[trigger] s[i]) by {
        assert(s[i] == t[i - k]);
    }
    k
}

/// Whether `n` occurs in `h` starting at `i`.
pub open spec fn occurs_at(h: Seq<char>, n: Seq<char>, i: int) -> bool {
    0 <= i && i + n.len() <= h.len() && h.subrange(i, i + n.len()) == n
}

/// The first position at or after `from` where `n` occurs in `h`.
pub open spec fn find_from(h: Seq<char>, n: Seq<char>, from: int) -> Option<int>
    decreases h.len() + 1 - from,
{
    if from < 0 || from + n.len() > h.len() {
        None
    } else if occurs_at(h, n, from) {
        Some(from)
    } else {
        find_from(h, n, from + 1)
    }
}

/// The last position at or before `i` where `n` occurs in `h`.
pub open spec fn find_last_upto(h: Seq<char>, n: Seq<char>, i: int) -> Option<int>
    decreases i + 1,
{
    if i < 0 {
        None
    } else if occurs_at(h, n, i) {
        Some(i)
    } else {
        find_last_upto(h, n, i - 1)
    }
}

/// The last position where `n` occurs in `h`.
pub open spec fn rfind(h: Seq<char>, n: Seq<char>) -> Option<int> {
    find_last_upto(h, n, h.len() - n.len())
}

/// `h` split around the first occurrence of `d`.
pub open spec fn split_once(h: Seq<char>, d: Seq<char>) -> Option<(Seq<char>, Seq<char>)> {
    match find_from(h, d, 0) {
        Some(i) => Some((h.take(i), h.skip(i + d.len()))),
        None => None,
    }
}

pub open spec fn is_digit(c: char) -> bool {
    '0' <= c <= '9'
}

pub open spec fn digit_value(c: char) -> nat {
    (c as u32 - '0' as u32) as nat
}

/// The number that a string of decimal digits denotes.
pub open spec fn digits_value(d: Seq<char>) -> nat
    decreases d.len(),
{
    if d.len() == 0 {
        0
    } else {
        digits_value(d.drop_last()) * 10 + digit_value(d.last())
    }
}

/// The digits of `s` once an optional leading `+` is dropped.
pub open spec fn unsigned_digits(s: Seq<char>) -> Seq<char> {
    if s.len() > 0 && s[0] == '+' {
        s.drop_first()
    } else {
        s
    }
}

/// The `u64` that `s` denotes in decimal, with an optional leading `+`; `None`
/// when `s` holds anything else or a number that does not fit.
pub open spec fn parse_u64(s: Seq<char>) -> Option<u64> {
    let d = unsigned_digits(s);
    if d.len() > 0 && (forall|i: int| 0 <= i < d.len() ==> is_digit(#[trigger] d[i]))
        && digits_value(d) <= u64::MAX {
        Some(digits_value(d) as u64)
    } else {
        None
    }
}

pub open spec fn digit_char(d: nat) -> char {
    ('0' as u32 + d) as char
}

/// The decimal digits of `x`, without leading zeros.
pub open spec fn decimal(x: nat) -> Seq<char>
    decreases x,
{
    if x < 10 {
        seq![digit_char(x)]
    } else {
        decimal(x / 10).push(digit_char(x % 10))
    }
}

/// Appends `c` to `s` with `String::push`; the contract claims that the text
/// grows by exactly that character.
#[verifier::external_body]
pub(crate) fn push_char(s: &mut String, c: char)
    ensures
        final(s)@ == old(s)@.push(c),
{
    s.push(c);
}

/// The characters of `s`.
pub fn chars_of(s: &str) -> (r: Vec<char>)
    ensures
        r@ == s@,
{
    let mut r: Vec<char> = Vec::new();
    for c in it: s.chars()
        invariant
            r@ == it.seq().take(it.index() as int),
            it.seq() == s@,
    {
        r.push(c);
    }
    r
}

/// The string made of `cs[from..to]`.
pub fn string_of_range(cs: &Vec<char>, from: usize, to: usize) -> (r: String)
    requires
        from <= to <= cs.len(),
    ensures
        r@ == cs@.subrange(from as int, to as int),
{
    let mut r = String::new();
    let mut i = from;
    while i < to
        invariant
            from <= i <= to <= cs.len(),
            r@ == cs@.subrange(from as int, i as int),
        decreases to - i,
    {
        push_char(&mut r, cs[i]);
        proof {
            assert(cs@.subrange(from as int, i + 1) =~= cs@.subrange(from as int, i as int).push(
                cs@[i as int],
            ));
        }
        i = i + 1;
    }
    r
}

/// The string made of `cs`.
pub fn string_of(cs: &Vec<char>) -> (r: String)
    ensures
        r@ == cs@,
{
    let r = string_of_range(cs, 0, cs.len());
    assert(cs@.subrange(0, cs.len() as int) =~= cs@);
    r
}

/// Appends the decimal digits of `x` to `s`.
pub fn push_decimal(s: &mut String, x: u64)
    ensures
        final(s)@ == old(s)@ + decimal(x as nat),
    decreases x,
{
    if x >= 10 {
        push_decimal(s, x / 10);
    }
    let d = (x % 10) as u8;
    let c = (d + 48) as char;
    push_char(s, c);
    proof {
        if x >= 10 {
            assert(decimal(x as nat) == decimal((x / 10) as nat).push(digit_char((x % 10) as nat)));
        }
        assert(final(s)@ =~= old(s)@ + decimal(x as nat));
    }
}

/// Whether `n` occurs in `h` starting at `i`.
pub fn occurs_at_exec(h: &Vec<char>, n: &Vec<char>, i: usize) -> (r: bool)
    ensures
        r == occurs_at(h@, n@, i as int),
{
    if i > h.len() || n.len() > h.len() - i {
        return false;
    }
    let mut k: usize = 0;
    while k < n.len()
        invariant
            i + n.len() <= h.len(),
            k <= n.len(),
            forall|j: int| 0 <= j < k ==> h@[i + j] == n@[j],
        decreases n.len() - k,
    {
        if h[i + k] != n[k] {
            proof {
                assert(h@.subrange(i as int, i + n.len())[k as int] != n@[k as int]);
            }
            return false;
        }
        k = k + 1;
    }
    assert(h@.subrange(i as int, i + n.len()) =~= n@);
    true
}

/// The first position at or after `from` where `n` occurs in `h`.
pub fn find_from_exec(h: &Vec<char>, n: &Vec<char>, from: usize) -> (r: Option<usize>)
    ensures
        match r {
            Some(i) => find_from(h@, n@, from as int) == Some(i as int),
            None => find_from(h@, n@, from as int) is None,
        },
{
    let mut i = from;
    while i <= h.len() && n.len() <= h.len() - i
        invariant
            from <= i,
            find_from(h@, n@, from as int) == find_from(h@, n@, i as int),
        decreases h.len() + 1 - i,
    {
        if occurs_at_exec(h, n, i) {
            return Some(i);
        }
        proof {
            if n.len() == 0 {
                assert(h@.subrange(i as int, i as int) =~= n@);
            }
        }
        i = i + 1;
    }
    None
}

/// The last position where `n` occurs in `h`.
pub fn rfind_exec(h: &Vec<char>, n: &Vec<char>) -> (r: Option<usize>)
    ensures
        match r {
            Some(i) => rfind(h@, n@) == Some(i as int),
            None => rfind(h@, n@) is None,
        },
{
    if n.len() > h.len() {
        return None;
    }
    let mut i = h.len() - n.len();
    loop
        invariant
            i <= h.len() - n.len(),
            rfind(h@, n@) == find_last_upto(h@, n@, i as int),
        decreases i,
    {
        if occurs_at_exec(h, n, i) {
            return Some(i);
        }
        if i == 0 {
            assert(find_last_upto(h@, n@, -1) is None);
            return None;
        }
        i = i - 1;
    }
}

/// The bounds of `s` without leading and trailing whitespace.
pub fn trim_bounds(s: &Vec<char>) -> (r: (usize, usize))
    ensures
        r.0 <= r.1 <= s.len(),
        s@.subrange(r.0 as int, r.1 as int) == trim(s@),
{
    let mut i: usize = 0;
    assert(s@.skip(0) =~= s@);
    while i < s.len() && char_is_whitespace(s[i])
        invariant
            i <= s.len(),
            trim_start(s@) == trim_start(s@.skip(i as int)),
        decreases s.len() - i,
    {
        proof {
            assert(s@.skip(i as int).drop_first() =~= s@.skip(i + 1));
        }
        i = i + 1;
    }
    assert(trim_start(s@) == s@.skip(i as int));
    let mut j: usize = s.len();
    while j > i && char_is_whitespace(s[j - 1])
        invariant
            i <= j <= s.len(),
            trim_end(s@.skip(i as int)) == trim_end(s@.subrange(i as int, j as int)),
        decreases j,
    {
        proof {
            assert(s@.subrange(i as int, j as int).drop_last() =~= s@.subrange(i as int, j - 1));
        }
        j = j - 1;
    }
    assert(s@.skip(i as int) =~= s@.subrange(i as int, s.len() as int));
    (i, j)
}

proof fn lemma_digits_value_prefix(d: Seq<char>, k: int)
    requires
        0 <= k <= d.len(),
    ensures
        digits_value(d.take(k)) <= digits_value(d),
    decreases d.len() - k,
{
    if k < d.len() {
        lemma_digits_value_prefix(d, k + 1);
        assert(d.take(k + 1).drop_last() =~= d.take(k));
    } else {
        assert(d.take(k) =~= d);
    }
}

/// The `u64` that `s[from..to]` denotes in decimal, as `parse_u64` says.
pub fn parse_u64_exec(s: &Vec<char>, from: usize, to: usize) -> (r: Option<u64>)
    requires
        from <= to <= s.len(),
    ensures
        r == parse_u64(s@.subrange(from as int, to as int)),
{
    let ghost t = s@.subrange(from as int, to as int);
    let mut start = from;
    if start < to && s[start] == '+' {
        start = start + 1;
    }
    let ghost d = s@.subrange(start as int, to as int);
    assert(d =~= unsigned_digits(t));
    if start == to {
        return None;
    }
    let mut value: u64 = 0;
    let mut i = start;
    while i < to
        invariant
            from <= start <= i <= to <= s.len(),
            d == s@.subrange(start as int, to as int),
            d == unsigned_digits(s@.subrange(from as int, to as int)),
            forall|k: int| 0 <= k < i - start ==> is_digit(#[trigger] d[k]),
            value == digits_value(d.take(i - start)),
        decreases to - i,
    {
        let c = s[i];
        if !('0' <= c && c <= '9') {
            assert(d[i - start] == c);
            assert(!is_digit(d[i - start]));
            return None;
        }
        let digit = ((c as u32) - ('0' as u32)) as u64;
        assert(digit == digit_value(c));
        proof {
            assert(d.take(i - start + 1).drop_last() =~= d.take(i - start));
            assert(d.take(i - start + 1).last() == c);
        }
        match value.checked_mul(10) {
            Some(v) => match v.checked_add(digit) {
                Some(w) => {
                    value = w;
                },
                None => {
                    proof {
                        assert(digits_value(d.take(i - start + 1)) == value * 10 + digit);
                        lemma_digits_value_prefix(d, i - start + 1);
                    }
                    return None;
                },
            },
            None => {
                proof {
                    assert(digits_value(d.take(i - start + 1)) == value * 10 + digit);
                    lemma_digits_value_prefix(d, i - start + 1);
                }
                return None;
            },
        }
        i = i + 1;
    }
    assert(d.take(to - start) =~= d);
    Some(value)
}

pub proof fn lemma_find_last_bounds(h: Seq<char>, n: Seq<char>, i: int)
    ensures
        find_last_upto(h, n, i) matches Some(k) ==> k <= i
            && occurs_at(h, n, k),
    decreases i + 1,
{
    if i >= 0 && !occurs_at(h, n, i) {
        lemma_find_last_bounds(h, n, i - 1);
    }
}

pub proof fn lemma_find_from_bounds(h: Seq<char>, n: Seq<char>, from: int)
    ensures
        find_from(h, n, from) matches Some(i) ==> from <= i && i + n.len() <= h.len()
            && occurs_at(h, n, i),
    decreases h.len() + 1 - from,
{
    if from >= 0 && from + n.len() <= h.len() && !occurs_at(h, n, from) {
        lemma_find_from_bounds(h, n, from + 1);
    }
}

/// `n` cannot occur where `h` holds a character other than the first of `n`.
pub proof fn lemma_no_occurrence_at(h: Seq<char>, n: Seq<char>, i: int)
    requires
        n.len() > 0,
        0 <= i < h.len(),
        h[i] != n[0],
    ensures
        !occurs_at(h, n, i),
{
    if occurs_at(h, n, i) {
        assert(h.subrange(i, i + n.len())[0] == h[i]);
    }
}

/// Searching forward from `from` finds what searching from `k` finds when
/// `n` does not occur in between.
pub proof fn lemma_find_from_skip(h: Seq<char>, n: Seq<char>, from: int, k: int)
    requires
        0 <= from <= k,
        forall|j: int| from <= j < k ==> !#[trigger] occurs_at(h, n, j),
    ensures
        find_from(h, n, from) == find_from(h, n, k),
    decreases k - from,
{
    if from < k {
        lemma_find_from_skip(h, n, from + 1, k);
    }
}

/// Searching forward from `from` finds `k` when `n` occurs there and no
/// character before it, from `from` on, is the first of `n`.
pub proof fn lemma_find_first_at(h: Seq<char>, n: Seq<char>, from: int, k: int)
    requires
        n.len() > 0,
        0 <= from <= k,
        occurs_at(h, n, k),
        forall|j: int| from <= j < k ==> #[trigger] h[j] != n[0],
    ensures
        find_from(h, n, from) == Some(k),
{
    assert forall|j: int| from <= j < k implies !#[trigger] occurs_at(h, n, j) by {
        lemma_no_occurrence_at(h, n, j);
    }
    lemma_find_from_skip(h, n, from, k);
}

/// Searching forward from `from` finds something when `n` occurs at or after
/// `from`.
pub proof fn lemma_find_from_finds(h: Seq<char>, n: Seq<char>, from: int, k: int)
    requires
        0 <= from <= k,
        occurs_at(h, n, k),
    ensures
        find_from(h, n, from) is Some,
    decreases k - from,
{
    if from < k && !occurs_at(h, n, from) {
        lemma_find_from_finds(h, n, from + 1, k);
    }
}

/// Searching backward from `i` finds what searching from `k` finds when `n`
/// does not occur in between.
pub proof fn lemma_find_last_skip(h: Seq<char>, n: Seq<char>, i: int, k: int)
    requires
        k <= i,
        forall|j: int| k < j <= i ==> !#[trigger] occurs_at(h, n, j),
    ensures
        find_last_upto(h, n, i) == find_last_upto(h, n, k),
    decreases i - k,
{
    if k < i {
        lemma_find_last_skip(h, n, i - 1, k);
    }
}

/// The decimal digits of `x` are digits, none of them a sign, and denote `x`.
pub proof fn lemma_decimal_digits(x: nat)
    ensures
        decimal(x).len() > 0,
        forall|i: int| 0 <= i < decimal(x).len() ==> is_digit(#[trigger] decimal(x)[i]),
        digits_value(decimal(x)) == x,
    decreases x,
{
    if x < 10 {
        lemma_digit_char(x);
        assert(decimal(x).drop_last() =~= Seq::<char>::empty());
        assert(decimal(x).last() == digit_char(x));
        assert(digits_value(decimal(x)) == digits_value(decimal(x).drop_last()) * 10 + digit_value(decimal(x).last()));
        assert(digits_value(Seq::<char>::empty()) == 0);
    } else {
        lemma_digit_char(x % 10);
        lemma_decimal_digits(x / 10);
        assert(decimal(x).drop_last() =~= decimal(x / 10));
        assert(decimal(x).last() == digit_char(x % 10));
        assert(x == (x / 10) * 10 + x % 10);
        assert(digits_value(decimal(x)) == digits_value(decimal(x).drop_last()) * 10 + digit_value(decimal(x).last()));
    }
}

proof fn lemma_digit_char(d: nat)
    requires
        d < 10,
    ensures
        is_digit(digit_char(d)),
        digit_value(digit_char(d)) == d,
{
    let c = digit_char(d);
    assert(c as u32 == '0' as u32 + d);
}

/// Reading back the decimal digits of a `u64` gives the number.
pub proof fn lemma_parse_decimal(x: u64)
    ensures
        parse_u64(decimal(x as nat)) == Some(x),
{
    lemma_decimal_digits(x as nat);
    assert(unsigned_digits(decimal(x as nat)) == decimal(x as nat)) by {
        assert(is_digit(decimal(x as nat)[0]));
    }
}

/// The pieces of `h` from `k` on, between the occurrences of `d`, found from
/// left to right without overlap.
pub open spec fn split_from(h: Seq<char>, d: Seq<char>, k: int) -> Seq<Seq<char>>
    decreases h.len() + 1 - k,
{
    if d.len() == 0 || k < 0 || k > h.len() {
        seq![h.skip(k)]
    } else {
        match find_from(h, d, k) {
            Some(i) => {
                proof {
                    lemma_find_from_bounds(h, d, k);
                }
                seq![h.subrange(k, i)] + split_from(h, d, i + d.len())
            },
            None => seq![h.skip(k)],
        }
    }
}

} // verus!
