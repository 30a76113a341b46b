//! Character-level building blocks shared by every text routine of the library.
//!
//! Strings are handled through their view, a `Seq<char>`: every routine here
//! states its result over that view.
use vstd::prelude::*;

verus! {

// ── White space ────────────────────────────────────────────────────────────

/// Unicode `White_Space` property, as `char::is_whitespace` documents it.
pub open spec fn spec_is_whitespace(c: char) -> bool {
    let v = c as u32;
    (0x9 <= v && v <= 0xD) || v == 0x20 || v == 0x85 || v == 0xA0 || v == 0x1680
        || (0x2000 <= v && v <= 0x200A) || v == 0x2028 || v == 0x2029 || v == 0x202F
        || v == 0x205F || v == 0x3000
}

/// Whether a character is Unicode white space.
pub fn is_whitespace(c: char) -> (r: bool)
    ensures
        r == spec_is_whitespace(c),
{
    let v = c as u32;
    (0x9 <= v && v <= 0xD) || v == 0x20 || v == 0x85 || v == 0xA0 || v == 0x1680
        || (0x2000 <= v && v <= 0x200A) || v == 0x2028 || v == 0x2029 || v == 0x202F
        || v == 0x205F || v == 0x3000
}

/// General category `Cc`, as `char::is_control` documents it.
pub open spec fn spec_is_control(c: char) -> bool {
    let v = c as u32;
    v <= 0x1F || (0x7F <= v && v <= 0x9F)
}

/// Whether a character is a control character.
pub fn is_control(c: char) -> (r: bool)
    ensures
        r == spec_is_control(c),
{
    let v = c as u32;
    v <= 0x1F || (0x7F <= v && v <= 0x9F)
}

/// `s` without its leading white space.
pub open spec fn trim_start(s: Seq<char>) -> Seq<char>
    decreases s.len(),
{
    if s.len() > 0 && spec_is_whitespace(s[0]) {
        trim_start(s.drop_first())
    } else {
        s
    }
}

/// `s` without its trailing white space.
pub open spec fn trim_end(s: Seq<char>) -> Seq<char>
    decreases s.len(),
{
    if s.len() > 0 && spec_is_whitespace(s.last()) {
        trim_end(s.drop_last())
    } else {
        s
    }
}

/// `s` without leading nor trailing white space, as `str::trim` leaves it.
pub open spec fn trim(s: Seq<char>) -> Seq<char> {
    trim_end(trim_start(s))
}

/// `trim_start` drops exactly the white space before the first other character.
pub proof fn lemma_trim_start_skip(s: Seq<char>, k: int)
    requires
        0 <= k <= s.len(),
        forall|j: int| 0 <= j < k ==> spec_is_whitespace(#[trigger] s[j]),
    ensures
        trim_start(s) == trim_start(s.skip(k)),
    decreases k,
{
    if k > 0 {
        assert(s.drop_first().skip(k - 1) =~= s.skip(k));
        assert forall|j: int| 0 <= j < k - 1 implies spec_is_whitespace(#[trigger] s.drop_first()[j]) by {
            assert(s.drop_first()[j] == s[j + 1]);
        }
        lemma_trim_start_skip(s.drop_first(), k - 1);
    } else {
        assert(s.skip(0) =~= s);
    }
}

/// `trim_end` drops exactly the white space after the last other character.
pub proof fn lemma_trim_end_take(s: Seq<char>, k: int)
    requires
        0 <= k <= s.len(),
        forall|j: int| k <= j < s.len() ==> spec_is_whitespace(#[trigger] s[j]),
    ensures
        trim_end(s) == trim_end(s.take(k)),
    decreases s.len() - k,
{
    if k < s.len() {
        assert(s.drop_last().take(k) =~= s.take(k));
        assert forall|j: int| k <= j < s.drop_last().len() implies spec_is_whitespace(#[trigger] s.drop_last()[j]) by {
            assert(s.drop_last()[j] == s[j]);
        }
        lemma_trim_end_take(s.drop_last(), k);
    } else {
        assert(s.take(k) =~= s);
    }
}

/// Index of the first character of `s` that is not white space.
pub fn trim_start_index(s: &[char]) -> (k: usize)
    ensures
        k <= s@.len(),
        trim_start(s@) == s@.skip(k as int),
        forall|j: int| 0 <= j < k ==> spec_is_whitespace(#[trigger] s@[j]),
{
    let mut k: usize = 0;
    while k < s.len() && is_whitespace(s[k])
        invariant
            k <= s@.len(),
            forall|j: int| 0 <= j < k ==> spec_is_whitespace(#[trigger] s@[j]),
        decreases s@.len() - k,
    {
        k = k + 1;
    }
    proof {
        lemma_trim_start_skip(s@, k as int);
    }
    k
}

/// One past the index of the last character of `s` that is not white space.
pub fn trim_end_index(s: &[char]) -> (k: usize)
    ensures
        k <= s@.len(),
        trim_end(s@) == s@.take(k as int),
        forall|j: int| k <= j < s@.len() ==> spec_is_whitespace(#[trigger] s@[j]),
{
    let mut k: usize = s.len();
    while k > 0 && is_whitespace(s[k - 1])
        invariant
            k <= s@.len(),
            forall|j: int| k <= j < s@.len() ==> spec_is_whitespace(#[trigger] s@[j]),
        decreases k,
    {
        k = k - 1;
    }
    proof {
        lemma_trim_end_take(s@, k as int);
    }
    k
}

/// The characters `s[from..to]`.
pub fn slice_chars(s: &[char], from: usize, to: usize) -> (v: Vec<char>)
    requires
        from <= to <= s@.len(),
    ensures
        v@ == s@.subrange(from as int, to as int),
{
    let mut v: Vec<char> = Vec::new();
    let mut i = from;
    while i < to
        invariant
            from <= i <= to <= s@.len(),
            v@ == s@.subrange(from as int, i as int),
        decreases to - i,
    {
        v.push(s[i]);
        i = i + 1;
    }
    v
}

/// `s` without leading nor trailing white space.
pub fn trim_chars(s: &[char]) -> (v: Vec<char>)
    ensures
        v@ == trim(s@),
{
    let a = trim_start_index(s);
    let t = slice_chars(s, a, s.len());
    let b = trim_end_index(t.as_slice());
    slice_chars(t.as_slice(), 0, b)
}

/// `s` without its leading white space.
pub fn trim_start_chars(s: &[char]) -> (v: Vec<char>)
    ensures
        v@ == trim_start(s@),
{
    let a = trim_start_index(s);
    slice_chars(s, a, s.len())
}

/// `s` without its trailing white space.
pub fn trim_end_chars(s: &[char]) -> (v: Vec<char>)
    ensures
        v@ == trim_end(s@),
{
    let b = trim_end_index(s);
    slice_chars(s, 0, b)
}

// ── Conversions between strings and characters ────────────────────────────

/// The characters of a string slice, in order.
pub fn chars_of(s: &str) -> (v: Vec<char>)
    ensures
        v@ == s@,
{
    let mut v: Vec<char> = Vec::new();
    for c in it: s.chars()
        invariant
            v@ == it.seq().take(it.index() as int),
            it.seq() == s@,
    {
        v.push(c);
    }
    v
}

/// Appends one character to a string (`String::push`).
#[verifier::external_body]
fn push_char(s: &mut String, c: char)
    ensures
        final(s)@ == old(s)@.push(c),
{
    s.push(c);
}

/// A string made of the given characters.
pub fn string_from(v: &[char]) -> (s: String)
    ensures
        s@ == v@,
{
    let mut s = String::new();
    let mut i: usize = 0;
    while i < v.len()
        invariant
            i <= v@.len(),
            s@ == v@.take(i as int),
        decreases v@.len() - i,
    {
        push_char(&mut s, v[i]);
        i = i + 1;
        assert(v@.take(i as int) =~= v@.take((i - 1) as int).push(v@[i - 1]));
    }
    assert(v@.take(i as int) =~= v@);
    s
}

/// Appends all of `extra` to `v`.
pub fn push_all(v: &mut Vec<char>, extra: &[char])
    ensures
        final(v)@ == old(v)@ + extra@,
{
    let mut i: usize = 0;
    while i < extra.len()
        invariant
            i <= extra@.len(),
            v@ == old(v)@ + extra@.take(i as int),
        decreases extra@.len() - i,
    {
        v.push(extra[i]);
        i = i + 1;
        assert(extra@.take(i as int) =~= extra@.take((i - 1) as int).push(extra@[i - 1]));
    }
    assert(extra@.take(i as int) =~= extra@);
}

/// Appends the characters of `extra` to `v`.
pub fn push_str(v: &mut Vec<char>, extra: &str)
    ensures
        final(v)@ == old(v)@ + extra@,
{
    let e = chars_of(extra);
    push_all(v, e.as_slice());
}

/// Whether two character sequences are equal.
pub fn chars_eq(a: &[char], b: &[char]) -> (r: bool)
    ensures
        r == (a@ == b@),
{
    if a.len() != b.len() {
        return false;
    }
    let mut i: usize = 0;
    while i < a.len()
        invariant
            a@.len() == b@.len(),
            i <= a@.len(),
            forall|j: int| 0 <= j < i ==> a@[j] == b@[j],
        decreases a@.len() - i,
    {
        if a[i] != b[i] {
            return false;
        }
        i = i + 1;
    }
    assert(a@ =~= b@);
    true
}

// ── Searching ──────────────────────────────────────────────────────────────

/// `needle` occurs in `hay` at position `i`.
pub open spec fn occurs_at(hay: Seq<char>, needle: Seq<char>, i: int) -> bool {
    0 <= i && i + needle.len() <= hay.len() && hay.subrange(i, i + needle.len()) == needle
}

/// `needle` occurs somewhere in `hay`, as `str::contains` tests it.
pub open spec fn contains_seq(hay: Seq<char>, needle: Seq<char>) -> bool {
    exists|i: int| occurs_at(hay, needle, i)
}

/// Whether `needle` occurs in `hay` at position `i`.
pub fn matches_at(hay: &[char], needle: &[char], i: usize) -> (r: bool)
    ensures
        r == occurs_at(hay@, needle@, i as int),
{
    if i > hay.len() || needle.len() > hay.len() - i {
        return false;
    }
    let mut j: usize = 0;
    while j < needle.len()
        invariant
            i + needle@.len() <= hay@.len(),
            i <= hay@.len(),
            hay@.len() <= usize::MAX,
            j <= needle@.len(),
            forall|k: int| 0 <= k < j ==> hay@[i + k] == needle@[k],
        decreases needle@.len() - j,
    {
        if hay[i + j] != needle[j] {
            assert(hay@.subrange(i as int, i + needle@.len())[j as int] != needle@[j as int]);
            return false;
        }
        j = j + 1;
    }
    assert(hay@.subrange(i as int, i + needle@.len()) =~= needle@);
    true
}

/// Position of the first occurrence of `needle` in `hay`, as `str::find` gives it
/// (counted in characters).
pub fn find(hay: &[char], needle: &[char]) -> (r: Option<usize>)
    ensures
        match r {
            Some(i) => occurs_at(hay@, needle@, i as int) && forall|j: int|
                0 <= j < i ==> !occurs_at(hay@, needle@, j),
            None => !contains_seq(hay@, needle@),
        },
{
    let mut i: usize = 0;
    while i < hay.len()
        invariant
            i <= hay@.len(),
            forall|j: int| 0 <= j < i ==> !occurs_at(hay@, needle@, j),
        decreases hay@.len() - i,
    {
        if matches_at(hay, needle, i) {
            return Some(i);
        }
        i = i + 1;
    }
    if matches_at(hay, needle, i) {
        return Some(i);
    }
    assert forall|j: int| !occurs_at(hay@, needle@, j) by {
        if 0 <= j <= i {
        }
    }
    None
}

/// Whether `needle` occurs in `hay`.
pub fn contains(hay: &[char], needle: &[char]) -> (r: bool)
    ensures
        r == contains_seq(hay@, needle@),
{
    match find(hay, needle) {
        Some(i) => true,
        None => false,
    }
}

/// Whether `s` starts with `prefix`.
pub fn starts_with(s: &[char], prefix: &[char]) -> (r: bool)
    ensures
        r == occurs_at(s@, prefix@, 0),
{
    matches_at(s, prefix, 0)
}

// ── Decimal numbers ────────────────────────────────────────────────────────

/// The decimal digit for `d < 10`.
pub open spec fn digit_char(d: nat) -> char {
    ((d + 48) as u32) as char
}

/// `n` written in decimal, without leading zeros (`0` for zero).
pub open spec fn decimal(n: nat) -> Seq<char>
    decreases n,
{
    if n < 10 {
        seq![digit_char(n)]
    } else {
        decimal(n / 10).push(digit_char(n % 10))
    }
}

/// `n` written in decimal on at least two digits, as `{:02}` formats it.
pub open spec fn decimal2(n: nat) -> Seq<char> {
    if n < 10 {
        seq!['0', digit_char(n)]
    } else {
        decimal(n)
    }
}

/// `n` written in decimal is a string of digits worth `n`.
pub proof fn lemma_decimal(n: nat)
    ensures
        decimal(n).len() >= 1,
        all_digits(decimal(n)),
        digits_value(decimal(n)) == n,
    decreases n,
{
    let d = digit_char(n % 10);
    assert(d as u32 == (n % 10) + 48);
    assert((n / 10) * 10 + n % 10 == n);
    assert(digit_value(d) == n % 10);
    if n < 10 {
        assert(decimal(n).drop_last() =~= Seq::<char>::empty());
        assert(decimal(n).last() == d);
        assert(digits_value(decimal(n)) == digits_value(decimal(n).drop_last()) * 10 + digit_value(d));
    } else {
        lemma_decimal(n / 10);
        let p = decimal(n / 10);
        assert(decimal(n).drop_last() =~= p);
        assert(decimal(n).last() == d);
        assert(digits_value(decimal(n)) == digits_value(p) * 10 + digit_value(d));
        assert forall|i: int| 0 <= i < decimal(n).len() implies is_digit(#[trigger] decimal(n)[i]) by {
            if i < p.len() {
                assert(decimal(n)[i] == p[i]);
            }
        }
    }
}

/// `n` written on at least two digits is a string of digits worth `n`; below a
/// hundred it has exactly two.
pub proof fn lemma_decimal2(n: nat)
    ensures
        decimal2(n).len() >= 2,
        n < 100 ==> decimal2(n).len() == 2,
        all_digits(decimal2(n)),
        digits_value(decimal2(n)) == n,
{
    if n < 10 {
        let d = digit_char(n);
        assert(d as u32 == n + 48);
        assert(('0' as u32) == 48);
        let s = decimal2(n);
        assert(s.drop_last() =~= seq!['0']);
        assert(seq!['0'].drop_last() =~= Seq::<char>::empty());
        assert(digit_value('0') == 0);
        assert(digits_value(seq!['0']) == digits_value(Seq::<char>::empty()) * 10 + digit_value('0'));
        assert(s.last() == d);
        assert(digit_value(d) == n);
        assert(digits_value(s) == digits_value(seq!['0']) * 10 + digit_value(d));
    } else {
        lemma_decimal(n);
        lemma_decimal(n / 10);
        if n < 100 {
            assert(decimal(n / 10).len() == 1);
        }
        if n >= 10 {
            assert(decimal(n).len() == decimal(n / 10).len() + 1);
        }
    }
}

/// A string of digits is not changed by trimming.
pub proof fn lemma_trim_digits(s: Seq<char>)
    requires
        s.len() > 0,
        all_digits(s),
    ensures
        trim(s) == s,
{
    assert(is_digit(s[0]));
    assert(!spec_is_whitespace(s[0]));
    assert(trim_start(s) == s);
    assert(is_digit(s.last()));
    assert(!spec_is_whitespace(s.last()));
}

/// A non-empty string of digits reads as its value.
pub proof fn lemma_parse_digits(s: Seq<char>)
    requires
        s.len() > 0,
        all_digits(s),
        digits_value(s) <= i64::MAX,
    ensures
        parse_i64_spec(s) == Some(digits_value(s) as i64),
{
    assert(is_digit(s[0]));
    lemma_digits_value_nonneg(s);
}

/// The decimal digit for `d < 10`.
pub fn digit(d: u64) -> (c: char)
    requires
        d < 10,
    ensures
        c == digit_char(d as nat),
{
    let v: u8 = 48 + d as u8;
    v as char
}

/// `n` written in decimal.
pub fn write_decimal(n: u64) -> (v: Vec<char>)
    ensures
        v@ == decimal(n as nat),
    decreases n,
{
    if n < 10 {
        let mut v: Vec<char> = Vec::new();
        v.push(digit(n));
        v
    } else {
        let mut v = write_decimal(n / 10);
        v.push(digit(n % 10));
        v
    }
}

/// `n` written in decimal on at least two digits.
pub fn write_decimal2(n: u64) -> (v: Vec<char>)
    ensures
        v@ == decimal2(n as nat),
{
    if n < 10 {
        let mut v: Vec<char> = Vec::new();
        v.push('0');
        v.push(digit(n));
        v
    } else {
        write_decimal(n)
    }
}

} // verus!

verus! {

// ── First occurrence of a character ───────────────────────────────────────

/// Index of the first `c` in `s`.
pub open spec fn index_of(s: Seq<char>, c: char) -> Option<int>
    decreases s.len(),
{
    if s.len() == 0 {
        None
    } else if s[0] == c {
        Some(0)
    } else {
        match index_of(s.drop_first(), c) {
            Some(i) => Some(i + 1),
            None => None,
        }
    }
}

/// What `index_of` means, position by position.
pub proof fn lemma_index_of(s: Seq<char>, c: char)
    ensures
        match index_of(s, c) {
            Some(i) => 0 <= i < s.len() && s[i] == c && forall|j: int| 0 <= j < i ==> s[j] != c,
            None => forall|j: int| 0 <= j < s.len() ==> s[j] != c,
        },
    decreases s.len(),
{
    if s.len() > 0 && s[0] != c {
        lemma_index_of(s.drop_first(), c);
        match index_of(s.drop_first(), c) {
            Some(i) => {
                assert forall|j: int| 0 <= j < i + 1 implies s[j] != c by {
                    if j > 0 {
                        assert(s[j] == s.drop_first()[j - 1]);
                    }
                }
            },
            None => {
                assert forall|j: int| 0 <= j < s.len() implies s[j] != c by {
                    if j > 0 {
                        assert(s[j] == s.drop_first()[j - 1]);
                    }
                }
            },
        }
    }
}

/// Index of the first `c` in `s`.
pub fn find_char(s: &[char], c: char) -> (r: Option<usize>)
    ensures
        match r {
            Some(i) => index_of(s@, c) == Some(i as int),
            None => index_of(s@, c) is None,
        },
{
    proof {
        lemma_index_of(s@, c);
    }
    let mut i: usize = 0;
    while i < s.len()
        invariant
            i <= s@.len(),
            forall|j: int| 0 <= j < i ==> s@[j] != c,
            match index_of(s@, c) {
                Some(k) => 0 <= k < s@.len() && s@[k] == c && forall|j: int| 0 <= j < k ==> s@[j] != c,
                None => forall|j: int| 0 <= j < s@.len() ==> s@[j] != c,
            },
        decreases s@.len() - i,
    {
        if s[i] == c {
            return Some(i);
        }
        i = i + 1;
    }
    None
}

// ── Decimal integers ───────────────────────────────────────────────────────

/// An ASCII digit.
pub open spec fn is_digit(c: char) -> bool {
    48 <= (c as u32) && (c as u32) <= 57
}

/// The value of an ASCII digit.
pub open spec fn digit_value(c: char) -> int {
    (c as u32) - 48
}

/// Every character of `s` is an ASCII digit.
pub open spec fn all_digits(s: Seq<char>) -> bool {
    forall|i: int| 0 <= i < s.len() ==> is_digit(#[trigger] s[i])
}

/// The value of a string of ASCII digits, read in base ten.
pub open spec fn digits_value(s: Seq<char>) -> int
    decreases s.len(),
{
    if s.len() == 0 {
        0
    } else {
        digits_value(s.drop_last()) * 10 + digit_value(s.last())
    }
}

/// The integer that `str::parse` reads: an optional `+` or `-`, then at least
/// one ASCII digit, and nothing else.
pub open spec fn integer_value(s: Seq<char>) -> Option<int> {
    if s.len() > 0 && (s[0] == '+' || s[0] == '-') {
        let d = s.drop_first();
        if d.len() > 0 && all_digits(d) {
            Some(if s[0] == '-' { -digits_value(d) } else { digits_value(d) })
        } else {
            None
        }
    } else if s.len() > 0 && all_digits(s) {
        Some(digits_value(s))
    } else {
        None
    }
}

/// What `s.parse::<i64>()` gives: the integer when it is well formed and fits.
pub open spec fn parse_i64_spec(s: Seq<char>) -> Option<i64> {
    match integer_value(s) {
        Some(v) => if i64::MIN <= v && v <= i64::MAX {
            Some(v as i64)
        } else {
            None
        },
        None => None,
    }
}

/// What `s.parse::<u32>()` gives: an optional `+`, then digits, within range.
pub open spec fn parse_u32_spec(s: Seq<char>) -> Option<u32> {
    match integer_value(s) {
        Some(v) => if s[0] != '-' && 0 <= v && v <= u32::MAX {
            Some(v as u32)
        } else {
            None
        },
        None => None,
    }
}

/// A longer string of digits is worth at least as much as its prefixes.
pub proof fn lemma_digits_value_prefix(s: Seq<char>, k: int)
    requires
        0 <= k <= s.len(),
        all_digits(s),
    ensures
        digits_value(s.take(k)) <= digits_value(s),
        0 <= digits_value(s.take(k)),
    decreases s.len() - k,
{
    if k < s.len() {
        assert(s.drop_last().take(k) =~= s.take(k));
        assert(all_digits(s.drop_last())) by {
            assert forall|i: int| 0 <= i < s.drop_last().len() implies is_digit(#[trigger] s.drop_last()[i]) by {
                assert(s.drop_last()[i] == s[i]);
            }
        }
        lemma_digits_value_prefix(s.drop_last(), k);
        assert(is_digit(s[s.len() - 1]));
    } else {
        assert(s.take(k) =~= s);
        lemma_digits_value_nonneg(s);
    }
}

/// Digit strings have non-negative values.
pub proof fn lemma_digits_value_nonneg(s: Seq<char>)
    requires
        all_digits(s),
    ensures
        0 <= digits_value(s),
    decreases s.len(),
{
    if s.len() > 0 {
        assert(all_digits(s.drop_last())) by {
            assert forall|i: int| 0 <= i < s.drop_last().len() implies is_digit(#[trigger] s.drop_last()[i]) by {
                assert(s.drop_last()[i] == s[i]);
            }
        }
        lemma_digits_value_nonneg(s.drop_last());
        assert(is_digit(s[s.len() - 1]));
    }
}

/// Reads a run of ASCII digits. `None` when it is not one, or when its value
/// exceeds `bound`.
pub fn read_digits(d: &[char], bound: u64) -> (r: Option<u64>)
    ensures
        match r {
            Some(v) => all_digits(d@) && v == digits_value(d@) && v <= bound,
            None => !all_digits(d@) || digits_value(d@) > bound,
        },
{
    let mut acc: u64 = 0;
    let mut i: usize = 0;
    while i < d.len()
        invariant
            i <= d@.len(),
            all_digits(d@.take(i as int)),
            acc == digits_value(d@.take(i as int)),
            acc <= bound,
        decreases d@.len() - i,
    {
        let c = d[i];
        let cv = c as u32;
        if cv < 48 || cv > 57 {
            proof {
                assert(!is_digit(d@[i as int]));
            }
            return None;
        }
        let dv: u64 = (cv - 48) as u64;
        let wide: u128 = (acc as u128) * 10 + dv as u128;
        assert(d@.take(i + 1).drop_last() =~= d@.take(i as int));
        assert(wide == digits_value(d@.take(i + 1)));
        assert(all_digits(d@.take(i + 1))) by {
            assert forall|j: int| 0 <= j < i + 1 implies is_digit(#[trigger] d@.take(i + 1)[j]) by {
                if j < i {
                    assert(d@.take(i + 1)[j] == d@.take(i as int)[j]);
                }
            }
        }
        if wide > bound as u128 {
            proof {
                if all_digits(d@) {
                    lemma_digits_value_prefix(d@, i + 1);
                }
            }
            return None;
        }
        acc = wide as u64;
        i = i + 1;
    }
    assert(d@.take(i as int) =~= d@);
    Some(acc)
}

/// `s.parse::<i64>()`.
pub fn parse_i64(s: &[char]) -> (r: Option<i64>)
    ensures
        r == parse_i64_spec(s@),
{
    if s.len() == 0 {
        return None;
    }
    let signed = s[0] == '+' || s[0] == '-';
    if signed {
        let d = slice_chars(s, 1, s.len());
        assert(d@ =~= s@.drop_first());
        if d.len() == 0 {
            return None;
        }
        let bound: u64 = 0x8000_0000_0000_0000;
        match read_digits(d.as_slice(), bound) {
            None => {
                proof {
                    if all_digits(d@) {
                        lemma_digits_value_nonneg(d@);
                    }
                }
                None
            },
            Some(v) => {
                if s[0] == '-' {
                    if v == bound {
                        Some(i64::MIN)
                    } else {
                        let w = v as i64;
                        Some(-w)
                    }
                } else if v == bound {
                    None
                } else {
                    Some(v as i64)
                }
            },
        }
    } else {
        match read_digits(s, 0x7FFF_FFFF_FFFF_FFFF) {
            None => None,
            Some(v) => Some(v as i64),
        }
    }
}

/// What `str::parse::<u64>` reads.
pub open spec fn parse_u64_spec(s: Seq<char>) -> Option<u64> {
    match integer_value(s) {
        Some(v) => if s[0] != '-' && 0 <= v && v <= u64::MAX {
            Some(v as u64)
        } else {
            None
        },
        None => None,
    }
}

/// `str::parse::<u64>` on characters.
pub fn parse_u64(s: &[char]) -> (r: Option<u64>)
    ensures
        r == parse_u64_spec(s@),
{
    if s.len() == 0 {
        return None;
    }
    if s[0] == '-' {
        let d = slice_chars(s, 1, s.len());
        assert(d@ =~= s@.drop_first());
        return None;
    }
    let digits = if s[0] == '+' {
        let d = slice_chars(s, 1, s.len());
        assert(d@ =~= s@.drop_first());
        if d.len() == 0 {
            return None;
        }
        d
    } else {
        slice_chars(s, 0, s.len())
    };
    assert(s[0] == '+' ==> digits@ =~= s@.drop_first());
    assert(s[0] != '+' ==> digits@ =~= s@);
    match read_digits(digits.as_slice(), 0xFFFF_FFFF_FFFF_FFFF) {
        None => {
            proof {
                if all_digits(digits@) {
                    lemma_digits_value_nonneg(digits@);
                }
            }
            None
        },
        Some(v) => Some(v),
    }
}

/// `s.parse::<u32>()`.
pub fn parse_u32(s: &[char]) -> (r: Option<u32>)
    ensures
        r == parse_u32_spec(s@),
{
    if s.len() == 0 {
        return None;
    }
    if s[0] == '-' {
        let d = slice_chars(s, 1, s.len());
        assert(d@ =~= s@.drop_first());
        return None;
    }
    if s[0] == '+' {
        let d = slice_chars(s, 1, s.len());
        assert(d@ =~= s@.drop_first());
        if d.len() == 0 {
            return None;
        }
        match read_digits(d.as_slice(), 0xFFFF_FFFF) {
            None => {
                proof {
                    if all_digits(d@) {
                        lemma_digits_value_nonneg(d@);
                    }
                }
                None
            },
            Some(v) => Some(v as u32),
        }
    } else {
        match read_digits(s, 0xFFFF_FFFF) {
            None => {
                proof {
                    if all_digits(s@) {
                        lemma_digits_value_nonneg(s@);
                    }
                }
                None
            },
            Some(v) => Some(v as u32),
        }
    }
}

} // verus!

verus! {

/// Trimming never lengthens a string.
pub proof fn lemma_trim_start_len(s: Seq<char>)
    ensures
        trim_start(s).len() <= s.len(),
    decreases s.len(),
{
    if s.len() > 0 && spec_is_whitespace(s[0]) {
        lemma_trim_start_len(s.drop_first());
    }
}

/// Trimming never lengthens a string.
pub proof fn lemma_trim_end_len(s: Seq<char>)
    ensures
        trim_end(s).len() <= s.len(),
    decreases s.len(),
{
    if s.len() > 0 && spec_is_whitespace(s.last()) {
        lemma_trim_end_len(s.drop_last());
    }
}

/// `trim_start` leaves a suffix, which starts with a character that is not
/// white space.
pub proof fn lemma_trim_start_suffix(s: Seq<char>)
    ensures
        trim_start(s).len() <= s.len(),
        trim_start(s) == s.skip(s.len() - trim_start(s).len()),
        trim_start(s).len() > 0 ==> !spec_is_whitespace(trim_start(s)[0]),
    decreases s.len(),
{
    if s.len() > 0 && spec_is_whitespace(s[0]) {
        lemma_trim_start_suffix(s.drop_first());
        assert(s.drop_first().skip(s.drop_first().len() - trim_start(s).len()) =~= s.skip(
            s.len() - trim_start(s).len(),
        ));
    } else {
        assert(s.skip(0) =~= s);
    }
}

/// `trim_end` leaves a prefix, which ends with a character that is not white
/// space, and keeps every character up to the last one that is not.
pub proof fn lemma_trim_end_prefix(s: Seq<char>)
    ensures
        trim_end(s).len() <= s.len(),
        trim_end(s) == s.take(trim_end(s).len() as int),
        trim_end(s).len() > 0 ==> !spec_is_whitespace(trim_end(s).last()),
        forall|i: int| 0 <= i < s.len() && !spec_is_whitespace(#[trigger] s[i]) ==> i < trim_end(s).len(),
    decreases s.len(),
{
    if s.len() > 0 && spec_is_whitespace(s.last()) {
        lemma_trim_end_prefix(s.drop_last());
        assert(s.drop_last().take(trim_end(s).len() as int) =~= s.take(trim_end(s).len() as int));
        assert forall|i: int| 0 <= i < s.len() && !spec_is_whitespace(#[trigger] s[i]) implies i
            < trim_end(s).len() by {
            assert(i < s.len() - 1);
            assert(s.drop_last()[i] == s[i]);
        }
    } else {
        assert(s.take(s.len() as int) =~= s);
    }
}

/// A string that neither starts nor ends with white space is its own trim.
pub proof fn lemma_trim_keeps(s: Seq<char>)
    requires
        s.len() > 0,
        !spec_is_whitespace(s[0]),
        !spec_is_whitespace(s.last()),
    ensures
        trim(s) == s,
{
    assert(trim_start(s) == s);
}

/// A non-blank trim starts and ends with characters that are not white space,
/// and all its characters come from the string.
pub proof fn lemma_trim_ends(s: Seq<char>)
    ensures
        trim(s).len() > 0 ==> !spec_is_whitespace(trim(s)[0]) && !spec_is_whitespace(trim(s).last()),
        forall|i: int| 0 <= i < trim(s).len() ==> exists|j: int| 0 <= j < s.len() && s[j] == #[trigger] trim(s)[i],
{
    lemma_trim_start_suffix(s);
    let a = trim_start(s);
    lemma_trim_end_prefix(a);
    let t = trim(s);
    if t.len() > 0 {
        assert(t[0] == a[0]);
    }
    assert forall|i: int| 0 <= i < t.len() implies exists|j: int| 0 <= j < s.len() && s[j] == #[trigger] t[i] by {
        let j = s.len() - a.len() + i;
        assert(t[i] == a[i]);
        assert(a[i] == s[j]);
    }
}

} // verus!
