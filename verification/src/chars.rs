//! Character-sequence helpers shared by the text codec.
//!
//! The text grammar works on sequences of characters: lines are trimmed,
//! comments cut, tokens split on commas and matched case-insensitively.
//! Everything here is specified over `Seq<char>` so that the codec's
//! contracts can speak about exact text.

use vstd::prelude::*;
use vstd::string::StrSliceExecFns;

verus! {

/// Whitespace that the text grammar ignores around tokens and lines.
pub open spec fn spec_is_space(c: char) -> bool {
    c == ' ' || c == '\t' || c == '\r'
}

/// Whether `c` is whitespace that the text grammar ignores.
pub fn is_space(c: char) -> (r: bool)
    ensures
        r == spec_is_space(c),
{
    c == ' ' || c == '\t' || c == '\r'
}

/// ASCII upper-casing of one character; other characters are unchanged.
pub open spec fn spec_upper_char(c: char) -> char {
    if 'a' <= c && c <= 'z' {
        (c as u8 - 32) as char
    } else {
        c
    }
}

/// ASCII upper-casing of a character sequence.
pub open spec fn spec_upper(s: Seq<char>) -> Seq<char> {
    Seq::new(s.len(), |i: int| spec_upper_char(s[i]))
}

/// Upper-cases one ASCII letter; other characters are unchanged.
pub fn upper_char(c: char) -> (r: char)
    ensures
        r == spec_upper_char(c),
{
    if 'a' <= c && c <= 'z' {
        (c as u8 - 32) as char
    } else {
        c
    }
}

/// Upper-cases the ASCII letters of `v`.
pub fn upper_vec(v: &Vec<char>) -> (r: Vec<char>)
    ensures
        r@ == spec_upper(v@),
{
    let mut r: Vec<char> = Vec::new();
    let mut i: usize = 0;
    while i < v.len()
        invariant
            i <= v.len(),
            r@ == spec_upper(v@).subrange(0, i as int),
        decreases v.len() - i,
    {
        r.push(upper_char(v[i]));
        i = i + 1;
        proof {
            assert(r@ =~= spec_upper(v@).subrange(0, i as int));
        }
    }
    proof {
        assert(r@ =~= spec_upper(v@));
    }
    r
}

/// The characters of `s`, collected for random access.
pub fn str_chars(s: &str) -> (r: Vec<char>)
    ensures
        r@ == s@,
{
    let n = s.unicode_len();
    let mut r: Vec<char> = Vec::new();
    let mut i: usize = 0;
    while i < n
        invariant
            i <= n,
            n == s@.len(),
            r@ == s@.subrange(0, i as int),
        decreases n - i,
    {
        r.push(s.get_char(i));
        i = i + 1;
        proof {
            assert(r@ =~= s@.subrange(0, i as int));
        }
    }
    proof {
        assert(r@ =~= s@);
    }
    r
}

/// A copy of `v[from..to]`.
pub fn copy_range(v: &Vec<char>, from: usize, to: usize) -> (r: Vec<char>)
    requires
        from <= to <= v@.len(),
    ensures
        r@ == v@.subrange(from as int, to as int),
{
    let mut r: Vec<char> = Vec::new();
    let mut i: usize = from;
    while i < to
        invariant
            from <= i <= to <= v@.len(),
            r@ == v@.subrange(from as int, i as int),
        decreases to - i,
    {
        r.push(v[i]);
        i = i + 1;
        proof {
            assert(r@ =~= v@.subrange(from as int, i as int));
        }
    }
    r
}

/// Whether `v` equals the characters of `s`.
pub fn eq_str(v: &Vec<char>, s: &str) -> (r: bool)
    ensures
        r == (v@ == s@),
{
    let n = s.unicode_len();
    if v.len() != n {
        return false;
    }
    let mut i: usize = 0;
    while i < n
        invariant
            i <= n,
            n == s@.len(),
            v@.len() == n,
            forall|j: int| 0 <= j < i ==> v@[j] == s@[j],
        decreases n - i,
    {
        if v[i] != s.get_char(i) {
            return false;
        }
        i = i + 1;
    }
    proof {
        assert(v@ =~= s@);
    }
    true
}

/// `p` is a prefix of `s`.
pub open spec fn spec_starts_with(s: Seq<char>, p: Seq<char>) -> bool {
    p.len() <= s.len() && s.subrange(0, p.len() as int) == p
}

/// Whether the characters of `p` are a prefix of `v`.
pub fn starts_with_str(v: &Vec<char>, p: &str) -> (r: bool)
    ensures
        r == spec_starts_with(v@, p@),
{
    let n = p.unicode_len();
    if v.len() < n {
        proof {
            assert(!spec_starts_with(v@, p@));
        }
        return false;
    }
    let mut i: usize = 0;
    while i < n
        invariant
            i <= n,
            n == p@.len(),
            n <= v@.len(),
            forall|j: int| 0 <= j < i ==> v@[j] == p@[j],
        decreases n - i,
    {
        if v[i] != p.get_char(i) {
            proof {
                assert(v@.subrange(0, p@.len() as int)[i as int] != p@[i as int]);
            }
            return false;
        }
        i = i + 1;
    }
    proof {
        assert(v@.subrange(0, p@.len() as int) =~= p@);
    }
    true
}

/// Leading grammar whitespace removed.
pub open spec fn spec_trim_left(s: Seq<char>) -> Seq<char>
    decreases s.len(),
{
    if s.len() > 0 && spec_is_space(s[0]) {
        spec_trim_left(s.drop_first())
    } else {
        s
    }
}

/// Trailing grammar whitespace removed.
pub open spec fn spec_trim_right(s: Seq<char>) -> Seq<char>
    decreases s.len(),
{
    if s.len() > 0 && spec_is_space(s.last()) {
        spec_trim_right(s.drop_last())
    } else {
        s
    }
}

/// Both ends trimmed of grammar whitespace.
pub open spec fn spec_trim(s: Seq<char>) -> Seq<char> {
    spec_trim_right(spec_trim_left(s))
}

pub proof fn lemma_trim_left_skip(s: Seq<char>, k: int)
    requires
        0 <= k <= s.len(),
        forall|j: int| 0 <= j < k ==> spec_is_space(s[j]),
    ensures
        spec_trim_left(s) == spec_trim_left(s.skip(k)),
    decreases k,
{
    if k > 0 {
        assert(s.drop_first() =~= s.skip(1));
        assert(forall|j: int| 0 <= j < k - 1 ==> spec_is_space(s.skip(1)[j]));
        lemma_trim_left_skip(s.skip(1), k - 1);
        assert(s.skip(1).skip(k - 1) =~= s.skip(k));
    } else {
        assert(s.skip(0) =~= s);
    }
}

pub proof fn lemma_trim_right_take(s: Seq<char>, k: int)
    requires
        0 <= k <= s.len(),
        forall|j: int| k <= j < s.len() ==> spec_is_space(s[j]),
    ensures
        spec_trim_right(s) == spec_trim_right(s.take(k)),
    decreases s.len() - k,
{
    if k < s.len() {
        assert(spec_is_space(s.last()));
        assert(s.drop_last() =~= s.take(s.len() - 1));
        lemma_trim_right_take(s.take(s.len() - 1), k);
        assert(s.take(s.len() - 1).take(k) =~= s.take(k));
    } else {
        assert(s.take(k) =~= s);
    }
}

/// Copy of `v` with grammar whitespace removed from both ends.
pub fn trim(v: &Vec<char>) -> (r: Vec<char>)
    ensures
        r@ == spec_trim(v@),
{
    let len = v.len();
    let mut lo: usize = 0;
    while lo < len && is_space(v[lo])
        invariant
            lo <= len,
            len == v@.len(),
            forall|j: int| 0 <= j < lo ==> spec_is_space(v@[j]),
        decreases len - lo,
    {
        lo = lo + 1;
    }
    proof {
        lemma_trim_left_skip(v@, lo as int);
        if lo < len {
            assert(spec_trim_left(v@.skip(lo as int)) == v@.skip(lo as int));
        } else {
            assert(v@.skip(lo as int) =~= Seq::<char>::empty());
        }
    }
    // now spec_trim_left(v@) == v@.skip(lo)
    let mut hi: usize = len;
    while hi > lo && is_space(v[hi - 1])
        invariant
            lo <= hi <= len,
            len == v@.len(),
            forall|j: int| hi <= j < len ==> spec_is_space(v@[j]),
        decreases hi,
    {
        hi = hi - 1;
    }
    let ghost s1 = v@.skip(lo as int);
    proof {
        assert(spec_trim_left(v@) == s1);
        assert(forall|j: int| hi - lo <= j < s1.len() ==> spec_is_space(#[trigger] s1[j]));
        lemma_trim_right_take(s1, hi - lo);
        let s2 = s1.take(hi - lo);
        assert(s2 =~= v@.subrange(lo as int, hi as int));
        if hi > lo {
            assert(!spec_is_space(s2.last()));
            assert(spec_trim_right(s2) == s2);
        } else {
            assert(s2 =~= Seq::<char>::empty());
        }
        assert(spec_trim(v@) == v@.subrange(lo as int, hi as int));
    }
    copy_range(v, lo, hi)
}

} // verus!

verus! {

/// Index of the first `//` comment marker in `s`, or `s.len()` if none.
pub open spec fn spec_comment_start(s: Seq<char>) -> int
    decreases s.len(),
{
    if s.len() < 2 {
        s.len() as int
    } else if s[0] == '/' && s[1] == '/' {
        0
    } else {
        1 + spec_comment_start(s.drop_first())
    }
}

pub proof fn lemma_comment_start_range(s: Seq<char>)
    ensures
        0 <= spec_comment_start(s) <= s.len(),
    decreases s.len(),
{
    if s.len() >= 2 && !(s[0] == '/' && s[1] == '/') {
        lemma_comment_start_range(s.drop_first());
    }
}

pub proof fn lemma_comment_start_skip(s: Seq<char>, k: int)
    requires
        0 <= k <= s.len(),
        forall|j: int| 0 <= j < k && j + 2 <= s.len() ==> !(#[trigger] s[j] == '/' && s[j + 1]
            == '/'),
    ensures
        spec_comment_start(s) == k + spec_comment_start(s.skip(k)),
    decreases k,
{
    if k == 0 {
        assert(s.skip(0) =~= s);
    } else if s.len() < 2 {
        assert(s.skip(k).len() < 2);
    } else {
        assert(!(s[0] == '/' && s[1] == '/'));
        assert(s.drop_first() =~= s.skip(1));
        assert(forall|j: int|
            0 <= j < k - 1 && j + 2 <= s.skip(1).len() ==> !(#[trigger] s.skip(1)[j] == '/'
                && s.skip(1)[j + 1] == '/'));
        lemma_comment_start_skip(s.skip(1), k - 1);
        assert(s.skip(1).skip(k - 1) =~= s.skip(k));
    }
}

/// Index of the first `//` in `v`, or `v.len()` if there is none.
pub fn comment_start(v: &Vec<char>) -> (k: usize)
    ensures
        k == spec_comment_start(v@),
{
    let len = v.len();
    let mut i: usize = 0;
    while i < len && len - i >= 2
        invariant
            i <= len,
            len == v@.len(),
            forall|j: int| 0 <= j < i && j + 2 <= len ==> !(#[trigger] v@[j] == '/' && v@[j + 1]
                == '/'),
        decreases len - i,
    {
        if v[i] == '/' && v[i + 1] == '/' {
            proof {
                lemma_comment_start_skip(v@, i as int);
                assert(v@.skip(i as int)[0] == '/' && v@.skip(i as int)[1] == '/');
            }
            return i;
        }
        i = i + 1;
    }
    proof {
        lemma_comment_start_skip(v@, i as int);
        assert(v@.skip(i as int).len() < 2);
    }
    len
}

/// `s` split at every occurrence of `sep`; always at least one piece,
/// and a trailing separator yields a trailing empty piece.
pub open spec fn spec_split(s: Seq<char>, sep: char) -> Seq<Seq<char>>
    decreases s.len(),
{
    if s.len() == 0 {
        seq![Seq::<char>::empty()]
    } else if s[0] == sep {
        seq![Seq::<char>::empty()] + spec_split(s.drop_first(), sep)
    } else {
        let r = spec_split(s.drop_first(), sep);
        seq![seq![s[0]] + r[0]] + r.drop_first()
    }
}

pub proof fn lemma_split_len(s: Seq<char>, sep: char)
    ensures
        spec_split(s, sep).len() >= 1,
    decreases s.len(),
{
    if s.len() > 0 {
        lemma_split_len(s.drop_first(), sep);
    }
}

/// Unfolds one piece of `spec_split`: up to the first separator, then the rest.
pub proof fn lemma_split_head(s: Seq<char>, sep: char, k: int)
    requires
        0 <= k <= s.len(),
        forall|j: int| 0 <= j < k ==> s[j] != sep,
        k < s.len() ==> s[k] == sep,
    ensures
        k == s.len() ==> spec_split(s, sep) == seq![s],
        k < s.len() ==> spec_split(s, sep) == seq![s.take(k)] + spec_split(s.skip(k + 1), sep),
    decreases k,
{
    lemma_split_len(s.drop_first(), sep);
    if k == 0 {
        if s.len() == 0 {
            assert(spec_split(s, sep) =~~= seq![s]);
        } else {
            assert(s[0] == sep);
            assert(s.take(0) =~= Seq::<char>::empty());
            assert(s.skip(1) =~= s.drop_first());
            assert(spec_split(s, sep) =~~= seq![s.take(0)] + spec_split(s.skip(1), sep));
        }
    } else {
        assert(s[0] != sep);
        let d = s.drop_first();
        assert(forall|j: int| 0 <= j < k - 1 ==> d[j] != sep);
        lemma_split_head(d, sep, k - 1);
        let r = spec_split(d, sep);
        if k == s.len() {
            assert(r == seq![d]);
            assert(seq![s[0]] + r[0] =~= s);
            assert(spec_split(s, sep) =~~= seq![s]);
        } else {
            assert(r == seq![d.take(k - 1)] + spec_split(d.skip(k), sep));
            assert(r[0] == d.take(k - 1));
            assert(seq![s[0]] + d.take(k - 1) =~= s.take(k));
            assert(r.drop_first() =~~= spec_split(d.skip(k), sep));
            assert(d.skip(k) =~= s.skip(k + 1));
            assert(spec_split(s, sep) =~~= seq![s.take(k)] + spec_split(s.skip(k + 1), sep));
        }
    }
}

/// Splits `v[from..]` at every `sep`.
pub fn split_char(v: &Vec<char>, from: usize, sep: char) -> (r: Vec<Vec<char>>)
    requires
        from <= v@.len(),
    ensures
        r.deep_view() == spec_split(v@.skip(from as int), sep),
{
    let len = v.len();
    let mut r: Vec<Vec<char>> = Vec::new();
    let mut cur: Vec<char> = Vec::new();
    let ghost mut ts: int = from as int;
    let mut i: usize = from;
    while i < len
        invariant
            from <= i <= len,
            len == v@.len(),
            from as int <= ts <= i as int,
            cur@ == v@.subrange(ts, i as int),
            forall|j: int| ts <= j < i ==> v@[j] != sep,
            spec_split(v@.skip(from as int), sep) == r.deep_view() + spec_split(v@.skip(ts), sep),
        decreases len - i,
    {
        if v[i] == sep {
            proof {
                lemma_split_head(v@.skip(ts), sep, i as int - ts);
                assert(v@.skip(ts).take(i as int - ts) =~= v@.subrange(ts, i as int));
                assert(v@.skip(ts).skip(i as int - ts + 1) =~= v@.skip(i as int + 1));
            }
            let ghost old_r = r.deep_view();
            r.push(cur);
            proof {
                assert(r.deep_view() =~~= old_r.push(cur@));
                assert(r.deep_view() + spec_split(v@.skip(i as int + 1), sep) =~~= old_r + (seq![
                    cur@,
                ] + spec_split(v@.skip(i as int + 1), sep)));
            }
            cur = Vec::new();
            proof {
                ts = i as int + 1;
                assert(cur@ =~= v@.subrange(ts, i as int + 1));
            }
        } else {
            cur.push(v[i]);
            proof {
                assert(cur@ =~= v@.subrange(ts, i as int + 1));
            }
        }
        i = i + 1;
    }
    proof {
        lemma_split_head(v@.skip(ts), sep, len as int - ts);
        assert(v@.skip(ts) =~= v@.subrange(ts, len as int));
    }
    let ghost old_r = r.deep_view();
    r.push(cur);
    proof {
        assert(r.deep_view() =~~= old_r.push(cur@));
        assert(r.deep_view() =~~= old_r + seq![cur@]);
        assert(r.deep_view() =~~= spec_split(v@.skip(from as int), sep));
    }
    r
}

} // verus!

verus! {

/// Relies on `String::push` from std: it appends exactly the given
/// character to the end of the string.
pub assume_specification[ String::push ](s: &mut String, c: char)
    ensures
        final(s)@ == old(s)@.push(c),
;

/// Decimal digit characters.
pub open spec fn spec_is_digit(c: char) -> bool {
    '0' <= c && c <= '9'
}

/// Numeric value of a digit character.
pub open spec fn spec_digit_val(c: char) -> int {
    c as u8 - 48
}

pub open spec fn spec_all_digits(s: Seq<char>) -> bool {
    forall|i: int| 0 <= i < s.len() ==> spec_is_digit(#[trigger] s[i])
}

/// Value of a digit string read in base 10.
pub open spec fn spec_dec_val(s: Seq<char>) -> int
    decreases s.len(),
{
    if s.len() == 0 {
        0
    } else {
        spec_dec_val(s.drop_last()) * 10 + spec_digit_val(s.last())
    }
}

/// The unsigned byte denoted by `s`: at least one digit, nothing but
/// digits, and a value of at most 255; anything else denotes nothing.
pub open spec fn spec_parse_u8(s: Seq<char>) -> Option<u8> {
    if s.len() > 0 && spec_all_digits(s) && spec_dec_val(s) <= 255 {
        Some(spec_dec_val(s) as u8)
    } else {
        None
    }
}

pub proof fn lemma_dec_val_nonneg(s: Seq<char>)
    requires
        spec_all_digits(s),
    ensures
        spec_dec_val(s) >= 0,
    decreases s.len(),
{
    if s.len() > 0 {
        assert(spec_all_digits(s.drop_last()));
        lemma_dec_val_nonneg(s.drop_last());
        assert(spec_is_digit(s.last()));
    }
}

/// Reads `v` as a decimal byte value.
pub fn parse_u8_digits(v: &Vec<char>) -> (r: Option<u8>)
    ensures
        r == spec_parse_u8(v@),
{
    if v.len() == 0 {
        return None;
    }
    let mut val: u32 = 0;
    let mut i: usize = 0;
    while i < v.len()
        invariant
            0 < v@.len(),
            i <= v@.len(),
            val <= 2559,
            forall|j: int| 0 <= j < i ==> spec_is_digit(#[trigger] v@[j]),
            spec_dec_val(v@.subrange(0, i as int)) <= 255 ==> val == spec_dec_val(
                v@.subrange(0, i as int),
            ),
            spec_dec_val(v@.subrange(0, i as int)) > 255 ==> val > 255,
        decreases v@.len() - i,
    {
        let c = v[i];
        if c < '0' || c > '9' {
            proof {
                assert(!spec_is_digit(v@[i as int]));
            }
            return None;
        }
        let d: u32 = (c as u32) - 48;
        proof {
            assert('0' <= c && c <= '9');
            assert(48 <= c as u32 <= 57);
            assert(c as u8 == c as u32);
            let pre = v@.subrange(0, i as int);
            let post = v@.subrange(0, i as int + 1);
            assert(post.drop_last() =~= pre);
            assert(post.last() == v@[i as int]);
            assert(spec_dec_val(post) == spec_dec_val(pre) * 10 + spec_digit_val(v@[i as int]));
            lemma_dec_val_nonneg(pre);
        }
        if val <= 255 {
            val = val * 10 + d;
        }
        i = i + 1;
    }
    proof {
        assert(v@.subrange(0, v@.len() as int) =~= v@);
    }
    if val <= 255 {
        Some(val as u8)
    } else {
        None
    }
}

/// The digit character for `d`.
pub open spec fn spec_digit_char(d: int) -> char {
    ((48 + d) as u8) as char
}

/// Canonical decimal rendering of a byte value, without leading zeros.
pub open spec fn spec_u8_dec(n: u8) -> Seq<char> {
    if n < 10 {
        seq![spec_digit_char(n as int)]
    } else if n < 100 {
        seq![spec_digit_char(n as int / 10), spec_digit_char(n as int % 10)]
    } else {
        seq![
            spec_digit_char(n as int / 100),
            spec_digit_char((n as int / 10) % 10),
            spec_digit_char(n as int % 10),
        ]
    }
}

/// Appends the decimal rendering of `n` to `s`.
pub fn push_u8_dec(s: &mut String, n: u8)
    ensures
        final(s)@ == old(s)@ + spec_u8_dec(n),
{
    if n < 10 {
        s.push((48 + n) as char);
        proof {
            assert(final(s)@ =~= old(s)@ + spec_u8_dec(n));
        }
    } else if n < 100 {
        s.push((48 + n / 10) as char);
        s.push((48 + n % 10) as char);
        proof {
            assert(final(s)@ =~= old(s)@ + spec_u8_dec(n));
        }
    } else {
        s.push((48 + n / 100) as char);
        s.push((48 + (n / 10) % 10) as char);
        s.push((48 + n % 10) as char);
        proof {
            assert(final(s)@ =~= old(s)@ + spec_u8_dec(n));
        }
    }
}

/// The canonical decimal rendering of a byte reads back as that byte.
pub proof fn lemma_u8_dec_parses(n: u8)
    ensures
        spec_parse_u8(spec_u8_dec(n)) == Some(n),
{
    reveal_with_fuel(spec_dec_val, 4);
    let s = spec_u8_dec(n);
    if n < 10 {
        assert(s.drop_last() =~= Seq::<char>::empty());
        assert(spec_dec_val(s) == spec_digit_val(spec_digit_char(n as int)));
        assert(spec_digit_val(spec_digit_char(n as int)) == n);
        assert(spec_is_digit(s[0]));
    } else if n < 100 {
        let h = n as int / 10;
        let l = n as int % 10;
        assert(s.drop_last().drop_last() =~= Seq::<char>::empty());
        assert(s.drop_last() =~= seq![spec_digit_char(h)]);
        assert(spec_dec_val(s) == spec_digit_val(spec_digit_char(h)) * 10 + spec_digit_val(
            spec_digit_char(l),
        ));
        assert(spec_digit_val(spec_digit_char(h)) == h);
        assert(spec_digit_val(spec_digit_char(l)) == l);
        assert(h * 10 + l == n);
        assert(spec_is_digit(s[0]) && spec_is_digit(s[1]));
    } else {
        let a = n as int / 100;
        let b = (n as int / 10) % 10;
        let c = n as int % 10;
        assert(s.drop_last().drop_last().drop_last() =~= Seq::<char>::empty());
        assert(s.drop_last().drop_last() =~= seq![spec_digit_char(a)]);
        assert(s.drop_last() =~= seq![spec_digit_char(a), spec_digit_char(b)]);
        assert(spec_dec_val(s) == (spec_digit_val(spec_digit_char(a)) * 10 + spec_digit_val(
            spec_digit_char(b),
        )) * 10 + spec_digit_val(spec_digit_char(c)));
        assert(spec_digit_val(spec_digit_char(a)) == a);
        assert(spec_digit_val(spec_digit_char(b)) == b);
        assert(spec_digit_val(spec_digit_char(c)) == c);
        assert((a * 10 + b) * 10 + c == n);
        assert(spec_is_digit(s[0]) && spec_is_digit(s[1]) && spec_is_digit(s[2]));
    }
}

} // verus!

verus! {

/// Collects a character vector into a `String`.
pub fn chars_to_string(v: &Vec<char>) -> (r: String)
    ensures
        r@ == v@,
{
    let mut s = String::new();
    let mut i: usize = 0;
    while i < v.len()
        invariant
            i <= v.len(),
            s@ == v@.subrange(0, i as int),
        decreases v.len() - i,
    {
        s.push(v[i]);
        i = i + 1;
        proof {
            assert(s@ =~= v@.subrange(0, i as int));
        }
    }
    proof {
        assert(s@ =~= v@);
    }
    s
}

} // verus!
