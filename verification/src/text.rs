use vstd::prelude::*;

verus! {

// ---------------------------------------------------------------------------
// Character classes
// ---------------------------------------------------------------------------

/// The characters that Unicode lists with the `White_Space` property; these
/// are the characters for which `char::is_whitespace` holds.
pub open spec fn is_white_space(c: char) -> bool {
    let u = c as u32;
    ||| 0x9 <= u <= 0xd
    ||| u == 0x20
    ||| u == 0x85
    ||| u == 0xa0
    ||| u == 0x1680
    ||| 0x2000 <= u <= 0x200a
    ||| u == 0x2028
    ||| u == 0x2029
    ||| u == 0x202f
    ||| u == 0x205f
    ||| u == 0x3000
}

/// Whether `c` is white space.
pub fn is_white_space_char(c: char) -> (r: bool)
    ensures
        r == is_white_space(c),
{
    let u = c as u32;
    (0x9 <= u && u <= 0xd) || u == 0x20 || u == 0x85 || u == 0xa0 || u == 0x1680 || (0x2000 <= u
        && u <= 0x200a) || u == 0x2028 || u == 0x2029 || u == 0x202f || u == 0x205f || u == 0x3000
}

/// Whether `c` is one of the ASCII digits `0` to `9`.
pub open spec fn is_digit(c: char) -> bool {
    '0' <= c <= '9'
}

/// The value of an ASCII digit.
pub open spec fn digit_value(c: char) -> int {
    (c as u32) - ('0' as u32)
}

/// The ASCII digit for a value below ten.
pub open spec fn digit_char(d: int) -> char {
    if d == 0 {
        '0'
    } else if d == 1 {
        '1'
    } else if d == 2 {
        '2'
    } else if d == 3 {
        '3'
    } else if d == 4 {
        '4'
    } else if d == 5 {
        '5'
    } else if d == 6 {
        '6'
    } else if d == 7 {
        '7'
    } else if d == 8 {
        '8'
    } else {
        '9'
    }
}

/// What `char::is_alphanumeric` answers for a character (Unicode `Alphabetic`
/// or `Numeric`).
pub uninterp spec fn spec_is_alphanumeric(c: char) -> bool;

/// What `char::is_alphabetic` answers for a character (Unicode `Alphabetic`).
pub uninterp spec fn spec_is_alphabetic(c: char) -> bool;

/// What `str::to_lowercase` returns for a string.
pub uninterp spec fn spec_to_lowercase(s: Seq<char>) -> Seq<char>;

/// Whether a character is an ASCII letter, `A` to `Z` or `a` to `z`.
pub open spec fn is_ascii_letter(c: char) -> bool {
    ('A' <= c <= 'Z') || ('a' <= c <= 'z')
}

/// Calls `char::is_alphanumeric`; the answer is named `spec_is_alphanumeric`.
/// Among ASCII characters exactly the letters and the digits are alphabetic
/// or numeric; beyond ASCII nothing more is claimed.
#[verifier::external_body]
pub(crate) fn char_is_alphanumeric(c: char) -> (r: bool)
    ensures
        r == spec_is_alphanumeric(c),
        (c as u32) < 128 ==> r == (is_ascii_letter(c) || is_digit(c)),
{
    c.is_alphanumeric()
}

/// Calls `char::is_alphabetic`; the answer is named `spec_is_alphabetic`.
/// Among ASCII characters exactly the letters are alphabetic; beyond ASCII
/// nothing more is claimed.
#[verifier::external_body]
pub(crate) fn char_is_alphabetic(c: char) -> (r: bool)
    ensures
        r == spec_is_alphabetic(c),
        (c as u32) < 128 ==> r == is_ascii_letter(c),
{
    c.is_alphabetic()
}

/// The ASCII lowercase of a character: `A` to `Z` become `a` to `z`, every
/// other character stays.
pub open spec fn ascii_lowercase(c: char) -> char {
    if 'A' <= c <= 'Z' {
        ((c as u32) + 32) as char
    } else {
        c
    }
}

/// Whether every character of `s` is ASCII.
pub open spec fn is_ascii_text(s: Seq<char>) -> bool {
    forall|i: int| 0 <= i < s.len() ==> (#[trigger] s[i] as u32) < 128
}

/// Calls `str::to_lowercase`; the result is named `spec_to_lowercase` of the
/// argument's characters. On an all-ASCII string the Unicode lowercase
/// mapping is the ASCII one, character by character; beyond ASCII nothing
/// more is claimed.
#[verifier::external_body]
pub(crate) fn str_to_lowercase(s: &str) -> (r: String)
    ensures
        r@ == spec_to_lowercase(s@),
        is_ascii_text(s@) ==> r@ == s@.map_values(|c: char| ascii_lowercase(c)),
{
    s.to_lowercase()
}

/// Calls `String::from_iter` on characters: the string holds exactly them.
#[verifier::external_body]
pub(crate) fn string_from_chars(v: &Vec<char>) -> (s: String)
    ensures
        s@ == v@,
{
    String::from_iter(v)
}

// ---------------------------------------------------------------------------
// Conversions
// ---------------------------------------------------------------------------

/// The characters of a string slice, in order.
pub fn chars_of(s: &str) -> (v: Vec<char>)
    ensures
        v@ == s@,
{
    let mut v: Vec<char> = Vec::new();
    for c in it: s.chars()
        invariant
            v@ == it.seq().take(it.index() as int),
    {
        v.push(c);
    }
    v
}

/// Whether two character sequences are equal.
pub fn chars_eq(a: &Vec<char>, b: &Vec<char>) -> (r: bool)
    ensures
        r == (a@ == b@),
{
    if a.len() != b.len() {
        return false;
    }
    let mut i: usize = 0;
    while i < a.len()
        invariant
            a@.len() == b@.len(),
            i <= a@.len(),
            forall|j: int| 0 <= j < i ==> a@[j] == b@[j],
        decreases a@.len() - i,
    {
        if a[i] != b[i] {
            return false;
        }
        i = i + 1;
    }
    assert(a@ =~= b@);
    true
}

/// Whether a character sequence equals a string slice.
pub fn chars_eq_str(a: &Vec<char>, b: &str) -> (r: bool)
    ensures
        r == (a@ == b@),
{
    let bv = chars_of(b);
    chars_eq(a, &bv)
}

// ---------------------------------------------------------------------------
// Splitting on white space
// ---------------------------------------------------------------------------

/// Scans `s` from the left: the words completed so far and the word being read.
pub open spec fn split_state(s: Seq<char>) -> (Seq<Seq<char>>, Seq<char>)
    decreases s.len(),
{
    if s.len() == 0 {
        (Seq::empty(), Seq::empty())
    } else {
        let (done, cur) = split_state(s.drop_last());
        let c = s.last();
        if is_white_space(c) {
            if cur.len() > 0 {
                (done.push(cur), Seq::empty())
            } else {
                (done, Seq::empty())
            }
        } else {
            (done, cur.push(c))
        }
    }
}

/// The words of `s`: its maximal runs of characters that are not white space,
/// in order (what `str::split_whitespace` yields).
pub open spec fn words(s: Seq<char>) -> Seq<Seq<char>> {
    let (done, cur) = split_state(s);
    if cur.len() > 0 {
        done.push(cur)
    } else {
        done
    }
}

/// Scanning `q` after a prefix that ends between words continues the prefix's
/// completed words with those of `q`.
proof fn lemma_split_state_after(p: Seq<char>, q: Seq<char>)
    requires
        split_state(p).1.len() == 0,
    ensures
        split_state(p + q) == (split_state(p).0 + split_state(q).0, split_state(q).1),
    decreases q.len(),
{
    let d = split_state(p).0;
    if q.len() == 0 {
        assert(p + q =~= p);
        assert(d + Seq::<Seq<char>>::empty() =~= d);
    } else {
        lemma_split_state_after(p, q.drop_last());
        assert((p + q).drop_last() =~= p + q.drop_last());
        let (dq, cq) = split_state(q.drop_last());
        assert((d + dq).push(cq) =~= d + dq.push(cq));
    }
}

/// The words of two texts joined by a space are the words of the first
/// followed by those of the second.
pub proof fn lemma_words_of_joined(a: Seq<char>, b: Seq<char>)
    ensures
        words(a + seq![' '] + b) == words(a) + words(b),
{
    let p = a + seq![' '];
    assert(p.drop_last() =~= a);
    assert(is_white_space(' '));
    assert(split_state(p).0 == words(a));
    lemma_split_state_after(p, b);
    let (dq, cq) = split_state(b);
    assert((words(a) + dq).push(cq) =~= words(a) + dq.push(cq));
}

/// The character sequences that a sequence of vectors holds.
pub open spec fn views(v: Seq<Vec<char>>) -> Seq<Seq<char>> {
    v.map_values(|w: Vec<char>| w@)
}

/// Splits `s` into its words.
pub fn split_whitespace(s: &Vec<char>) -> (r: Vec<Vec<char>>)
    ensures
        views(r@) == words(s@),
{
    let mut done: Vec<Vec<char>> = Vec::new();
    let mut cur: Vec<char> = Vec::new();
    let mut i: usize = 0;
    while i < s.len()
        invariant
            i <= s@.len(),
            (views(done@), cur@) == split_state(s@.take(i as int)),
        decreases s@.len() - i,
    {
        let c = s[i];
        assert(s@.take(i + 1).drop_last() =~= s@.take(i as int));
        assert(s@.take(i + 1).last() == c);
        if is_white_space_char(c) {
            if cur.len() > 0 {
                let w = cur;
                cur = Vec::new();
                let ghost old_done = views(done@);
                let ghost wv = w@;
                done.push(w);
                assert(views(done@) =~= old_done.push(wv));
            }
        } else {
            cur.push(c);
        }
        i = i + 1;
    }
    assert(s@.take(s@.len() as int) =~= s@);
    if cur.len() > 0 {
        let ghost old_done = views(done@);
        let ghost cur_view = cur@;
        done.push(cur);
        assert(views(done@) =~= old_done.push(cur_view));
    }
    done
}

// ---------------------------------------------------------------------------
// Trimming, prefixes, replacement
// ---------------------------------------------------------------------------

/// `s` without its leading white space.
pub open spec fn trim_start(s: Seq<char>) -> Seq<char>
    decreases s.len(),
{
    if s.len() > 0 && is_white_space(s[0]) {
        trim_start(s.drop_first())
    } else {
        s
    }
}

/// `s` without its trailing characters `c`.
pub open spec fn trim_end_char(s: Seq<char>, c: char) -> Seq<char>
    decreases s.len(),
{
    if s.len() > 0 && s.last() == c {
        trim_end_char(s.drop_last(), c)
    } else {
        s
    }
}

/// `s` without its trailing white space.
pub open spec fn trim_end(s: Seq<char>) -> Seq<char>
    decreases s.len(),
{
    if s.len() > 0 && is_white_space(s.last()) {
        trim_end(s.drop_last())
    } else {
        s
    }
}

/// `s` without leading and trailing white space (what `str::trim` gives).
pub open spec fn trim(s: Seq<char>) -> Seq<char> {
    trim_end(trim_start(s))
}

/// Removes leading and trailing white space.
pub fn trim_chars(s: &Vec<char>) -> (r: Vec<char>)
    ensures
        r@ == trim(s@),
{
    let mut start: usize = 0;
    assert(s@.skip(0) =~= s@);
    while start < s.len() && is_white_space_char(s[start])
        invariant
            start <= s@.len(),
            trim_start(s@.skip(start as int)) == trim_start(s@),
        decreases s@.len() - start,
    {
        assert(s@.skip(start as int).drop_first() =~= s@.skip(start + 1));
        start = start + 1;
    }
    assert(trim_start(s@.skip(start as int)) == s@.skip(start as int));
    let mut end: usize = s.len();
    while end > start && is_white_space_char(s[end - 1])
        invariant
            start <= end <= s@.len(),
            trim_start(s@) == s@.skip(start as int),
            trim_end(s@.subrange(start as int, end as int)) == trim(s@),
        decreases end,
    {
        assert(s@.subrange(start as int, end as int).drop_last() =~= s@.subrange(
            start as int,
            end - 1,
        ));
        end = end - 1;
    }
    let mut r: Vec<char> = Vec::new();
    let mut k: usize = start;
    while k < end
        invariant
            start <= k <= end <= s@.len(),
            r@ == s@.subrange(start as int, k as int),
        decreases end - k,
    {
        r.push(s[k]);
        k = k + 1;
    }
    proof {
        let t = s@.subrange(start as int, end as int);
        assert(r@ =~= t);
        if t.len() > 0 {
            assert(t.last() == s@[end - 1]);
        }
    }
    r
}

/// Removes trailing characters equal to `c`.
pub fn trim_end_matches_char(s: &Vec<char>, c: char) -> (r: Vec<char>)
    ensures
        r@ == trim_end_char(s@, c),
{
    let mut end: usize = s.len();
    assert(s@.take(s@.len() as int) =~= s@);
    while end > 0 && s[end - 1] == c
        invariant
            end <= s@.len(),
            trim_end_char(s@.take(end as int), c) == trim_end_char(s@, c),
        decreases end,
    {
        assert(s@.take(end as int).drop_last() =~= s@.take(end - 1));
        end = end - 1;
    }
    let mut r: Vec<char> = Vec::new();
    let mut k: usize = 0;
    while k < end
        invariant
            k <= end <= s@.len(),
            r@ == s@.take(k as int),
        decreases end - k,
    {
        r.push(s[k]);
        assert(s@.take(k + 1) =~= s@.take(k as int).push(s@[k as int]));
        k = k + 1;
    }
    r
}

/// Whether `p` is a prefix of `s`.
pub open spec fn has_prefix(s: Seq<char>, p: Seq<char>) -> bool {
    p.len() <= s.len() && s.take(p.len() as int) == p
}

/// What `str::strip_prefix` gives: the rest of `s` after the prefix `p`.
pub open spec fn strip_prefix(s: Seq<char>, p: Seq<char>) -> Option<Seq<char>> {
    if has_prefix(s, p) {
        Some(s.skip(p.len() as int))
    } else {
        None
    }
}

/// Whether `p` occurs in `s` at position `i`.
pub fn occurs_at(s: &Vec<char>, p: &Vec<char>, i: usize) -> (r: bool)
    requires
        i <= s@.len(),
    ensures
        r == has_prefix(s@.skip(i as int), p@),
{
    if p.len() > s.len() - i {
        return false;
    }
    let mut j: usize = 0;
    while j < p.len()
        invariant
            i + p@.len() <= s.len(),
            j <= p@.len(),
            forall|k: int| 0 <= k < j ==> s@[i + k] == p@[k],
        decreases p@.len() - j,
    {
        if s[i + j] != p[j] {
            assert(s@.skip(i as int).take(p@.len() as int)[j as int] != p@[j as int]);
            return false;
        }
        j = j + 1;
    }
    assert(s@.skip(i as int).take(p@.len() as int) =~= p@);
    true
}

/// Strips the prefix `p` from `s`, if `s` starts with it.
pub fn strip_prefix_chars(s: &Vec<char>, p: &Vec<char>) -> (r: Option<Vec<char>>)
    ensures
        match strip_prefix(s@, p@) {
            Some(rest) => r is Some && r->0@ == rest,
            None => r is None,
        },
{
    if !occurs_at(s, p, 0) {
        assert(s@.skip(0) =~= s@);
        return None;
    }
    assert(s@.skip(0) =~= s@);
    let mut r: Vec<char> = Vec::new();
    let mut k: usize = p.len();
    while k < s.len()
        invariant
            p@.len() <= k <= s@.len(),
            r@ == s@.subrange(p@.len() as int, k as int),
        decreases s@.len() - k,
    {
        r.push(s[k]);
        k = k + 1;
    }
    assert(r@ =~= s@.skip(p@.len() as int));
    Some(r)
}

/// `s` with every occurrence of `from` replaced by `to`, scanning from the
/// left and never letting two replaced occurrences overlap (what `str::replace`
/// gives for a non-empty pattern).
pub open spec fn replace_all(s: Seq<char>, from: Seq<char>, to: Seq<char>) -> Seq<char>
    decreases s.len(),
{
    if s.len() == 0 || from.len() == 0 {
        s
    } else if has_prefix(s, from) {
        to + replace_all(s.skip(from.len() as int), from, to)
    } else {
        seq![s[0]] + replace_all(s.drop_first(), from, to)
    }
}

/// Replaces every occurrence of `from` in `s` by `to`.
pub fn replace_chars(s: &Vec<char>, from: &Vec<char>, to: &Vec<char>) -> (r: Vec<char>)
    requires
        from@.len() > 0,
    ensures
        r@ == replace_all(s@, from@, to@),
{
    let mut r: Vec<char> = Vec::new();
    let mut i: usize = 0;
    assert(s@.skip(0) =~= s@);
    while i < s.len()
        invariant
            from@.len() > 0,
            i <= s@.len(),
            r@ + replace_all(s@.skip(i as int), from@, to@) == replace_all(s@, from@, to@),
        decreases s@.len() - i,
    {
        let ghost old_r = r@;
        if occurs_at(s, from, i) {
            assert(s@.skip(i as int).skip(from@.len() as int) =~= s@.skip(i + from@.len()));
            let mut k: usize = 0;
            while k < to.len()
                invariant
                    k <= to@.len(),
                    r@ == old_r + to@.take(k as int),
                decreases to@.len() - k,
            {
                r.push(to[k]);
                assert(to@.take(k + 1) =~= to@.take(k as int).push(to@[k as int]));
                k = k + 1;
            }
            assert(to@.take(to@.len() as int) =~= to@);
            assert(old_r + (to@ + replace_all(s@.skip(i + from@.len()), from@, to@)) =~= r@
                + replace_all(s@.skip(i + from@.len()), from@, to@));
            i = i + from.len();
        } else {
            assert(s@.skip(i as int).drop_first() =~= s@.skip(i + 1));
            r.push(s[i]);
            assert(old_r + (seq![s@[i as int]] + replace_all(s@.skip(i + 1), from@, to@)) =~= r@
                + replace_all(s@.skip(i + 1), from@, to@));
            i = i + 1;
        }
    }
    assert(r@ + replace_all(s@.skip(i as int), from@, to@) =~= r@);
    r
}

// ---------------------------------------------------------------------------
// UTF-8 length
// ---------------------------------------------------------------------------

/// The number of bytes that UTF-8 takes for `c`.
pub open spec fn utf8_width(c: char) -> nat {
    let u = c as u32;
    if u < 0x80 {
        1
    } else if u < 0x800 {
        2
    } else if u < 0x10000 {
        3
    } else {
        4
    }
}

/// The number of bytes that UTF-8 takes for `s` (what `str::len` gives).
pub open spec fn utf8_len(s: Seq<char>) -> nat
    decreases s.len(),
{
    if s.len() == 0 {
        0
    } else {
        utf8_len(s.drop_last()) + utf8_width(s.last())
    }
}

/// Whether `s` takes at least `n` bytes in UTF-8.
pub fn utf8_len_at_least(s: &Vec<char>, n: usize) -> (r: bool)
    ensures
        r == (utf8_len(s@) >= n),
{
    if n == 0 {
        return true;
    }
    let mut total: usize = 0;
    let mut i: usize = 0;
    assert(s@.take(0) =~= Seq::<char>::empty());
    while i < s.len()
        invariant
            i <= s@.len(),
            total == utf8_len(s@.take(i as int)),
            total < n,
        decreases s@.len() - i,
    {
        let u = s[i] as u32;
        let w: usize = if u < 0x80 {
            1
        } else if u < 0x800 {
            2
        } else if u < 0x10000 {
            3
        } else {
            4
        };
        assert(s@.take(i + 1).drop_last() =~= s@.take(i as int));
        if w >= n - total {
            proof {
                lemma_utf8_len_prefix(s@, i + 1);
            }
            return true;
        }
        total = total + w;
        i = i + 1;
    }
    assert(s@.take(s@.len() as int) =~= s@);
    false
}

/// A prefix never takes more bytes than the whole.
pub proof fn lemma_utf8_len_prefix(s: Seq<char>, i: int)
    requires
        0 <= i <= s.len(),
    ensures
        utf8_len(s.take(i)) <= utf8_len(s),
    decreases s.len() - i,
{
    if i < s.len() {
        lemma_utf8_len_prefix(s, i + 1);
        assert(s.take(i + 1).drop_last() =~= s.take(i));
    } else {
        assert(s.take(i) =~= s);
    }
}

// ---------------------------------------------------------------------------
// Decimal numbers
// ---------------------------------------------------------------------------

/// The decimal digits of a natural number, without leading zeros.
pub open spec fn decimal_digits(n: nat) -> Seq<char>
    decreases n,
{
    if n < 10 {
        seq![digit_char(n as int)]
    } else {
        decimal_digits(n / 10).push(digit_char((n % 10) as int))
    }
}

/// The decimal form of an integer, with a leading `-` when it is negative
/// (what `Display` writes for an integer).
pub open spec fn decimal(i: int) -> Seq<char> {
    if i < 0 {
        seq!['-'] + decimal_digits((-i) as nat)
    } else {
        decimal_digits(i as nat)
    }
}

fn digit_to_char(d: u64) -> (c: char)
    requires
        d < 10,
    ensures
        c == digit_char(d as int),
{
    match d {
        0 => '0',
        1 => '1',
        2 => '2',
        3 => '3',
        4 => '4',
        5 => '5',
        6 => '6',
        7 => '7',
        8 => '8',
        _ => '9',
    }
}

fn push_decimal_digits(out: &mut Vec<char>, n: u64)
    ensures
        final(out)@ == old(out)@ + decimal_digits(n as nat),
    decreases n,
{
    if n >= 10 {
        push_decimal_digits(out, n / 10);
        out.push(digit_to_char(n % 10));
    } else {
        out.push(digit_to_char(n));
    }
}

/// Appends the decimal form of `i` to `out`.
pub fn push_decimal(out: &mut Vec<char>, i: i64)
    ensures
        final(out)@ == old(out)@ + decimal(i as int),
{
    if i < 0 {
        out.push('-');
        let m: u64 = if i == i64::MIN {
            9223372036854775808u64
        } else {
            (-i) as u64
        };
        push_decimal_digits(out, m);
    } else {
        push_decimal_digits(out, i as u64);
    }
}

// ---------------------------------------------------------------------------
// Small positive numbers
// ---------------------------------------------------------------------------

/// The value of a sequence of ASCII digits.
pub open spec fn digits_value(s: Seq<char>) -> nat
    decreases s.len(),
{
    if s.len() == 0 {
        0
    } else {
        digits_value(s.drop_last()) * 10 + (digit_value(s.last()) as nat)
    }
}

/// Whether every character of `s` is an ASCII digit.
pub open spec fn all_digits(s: Seq<char>) -> bool {
    forall|i: int| 0 <= i < s.len() ==> is_digit(#[trigger] s[i])
}

/// The integer that `s` denotes in the syntax of `i32::from_str` (an optional
/// sign, then one or more ASCII digits), with no bound on its size.
pub open spec fn parse_integer(s: Seq<char>) -> Option<int> {
    let body = s.skip(sign_len(s));
    if body.len() > 0 && all_digits(body) {
        Some(
            if s[0] == '-' {
                -(digits_value(body) as int)
            } else {
                digits_value(body) as int
            },
        )
    } else {
        None
    }
}

/// The length of the sign that may open an integer: `1` for a leading `-` or
/// `+`, else `0`.
pub open spec fn sign_len(s: Seq<char>) -> int {
    if s.len() > 0 && (s[0] == '-' || s[0] == '+') {
        1
    } else {
        0
    }
}

/// The number that `s` denotes when it parses as an `i32` between `1` and
/// `max`; `None` otherwise. A number too large for `i32` fails to parse, and is
/// above `max` either way.
pub open spec fn parse_in_range(s: Seq<char>, max: int) -> Option<int> {
    match parse_integer(s) {
        Some(v) => if 0 < v <= max {
            Some(v)
        } else {
            None
        },
        None => None,
    }
}

proof fn lemma_digits_value_grows(s: Seq<char>, i: int, j: int)
    requires
        0 <= i <= j <= s.len(),
        all_digits(s),
    ensures
        digits_value(s.take(i)) <= digits_value(s.take(j)),
    decreases j - i,
{
    if i < j {
        lemma_digits_value_grows(s, i, j - 1);
        assert(s.take(j).drop_last() =~= s.take(j - 1));
    }
}

/// Parses `s` as an `i32` and keeps the result when it lies between `1` and
/// `max`.
pub fn parse_number_in_range(s: &Vec<char>, max: u32) -> (r: Option<i32>)
    requires
        max < 1000,
    ensures
        match parse_in_range(s@, max as int) {
            Some(v) => r == Some(v as i32),
            None => r is None,
        },
{
    if s.len() == 0 {
        return None;
    }
    let negative = s[0] == '-';
    let start: usize = if s[0] == '-' || s[0] == '+' {
        1
    } else {
        0
    };
    let ghost body = s@.skip(start as int);
    if start == s.len() {
        assert(body.len() == 0);
        return None;
    }
    // The value read so far, capped just above `max`: once a prefix exceeds
    // `max`, so does every longer one.
    let mut value: u32 = 0;
    let mut big = false;
    let mut i: usize = start;
    while i < s.len()
        invariant
            start <= i <= s@.len(),
            body == s@.skip(start as int),
            s@.len() > 0,
            negative == (s@[0] == '-'),
            start == sign_len(s@),
            max < 1000,
            all_digits(body.take(i - start)),
            !big ==> value == digits_value(body.take(i - start)) && value <= max,
            big ==> digits_value(body.take(i - start)) > max,
        decreases s@.len() - i,
    {
        let c = s[i];
        if !('0' <= c && c <= '9') {
            assert(body[i - start] == c);
            assert(!is_digit(body[i - start]));
            assert(!all_digits(body));
            return None;
        }
        let ghost k = i - start;
        assert(body.take(k + 1).drop_last() =~= body.take(k));
        assert(body.take(k + 1).last() == c);
        let d = (c as u32) - ('0' as u32);
        if !big {
            let next = value * 10 + d;
            if next > max {
                big = true;
            } else {
                value = next;
            }
        } else {
            assert(digits_value(body.take(k + 1)) >= digits_value(body.take(k)) * 10);
        }
        assert(all_digits(body.take(k + 1))) by {
            assert forall|j: int| 0 <= j < k + 1 implies is_digit(#[trigger] body.take(k + 1)[j]) by {
                if j < k {
                    assert(body.take(k + 1)[j] == body.take(k)[j]);
                }
            }
        }
        i = i + 1;
    }
    assert(body.take(i - start) =~= body);
    if negative || big || value == 0 {
        None
    } else {
        Some(value as i32)
    }
}

/// The digit written for a value below ten has that value.
proof fn lemma_digit_char_value(d: int)
    requires
        0 <= d < 10,
    ensures
        is_digit(digit_char(d)),
        digit_value(digit_char(d)) == d,
{
    if d == 0 {
    } else if d == 1 {
    } else if d == 2 {
    } else if d == 3 {
    } else if d == 4 {
    } else if d == 5 {
    } else if d == 6 {
    } else if d == 7 {
    } else if d == 8 {
    } else {
    }
}

/// The decimal digits of `n` are nonempty ASCII digits whose value is `n`.
pub proof fn lemma_decimal_digits(n: nat)
    ensures
        decimal_digits(n).len() > 0,
        all_digits(decimal_digits(n)),
        digits_value(decimal_digits(n)) == n,
    decreases n,
{
    let d = decimal_digits(n);
    if n < 10 {
        lemma_digit_char_value(n as int);
        assert(is_digit(d[0]));
        assert(d.drop_last() =~= Seq::<char>::empty());
        assert(d.last() == digit_char(n as int));
        assert(digits_value(d.drop_last()) == 0);
        assert(digits_value(d) == digits_value(d.drop_last()) * 10 + (digit_value(d.last()) as nat));
    } else {
        lemma_digit_char_value((n % 10) as int);
        lemma_decimal_digits(n / 10);
        let prev = decimal_digits(n / 10);
        assert(d.drop_last() =~= prev);
        assert(is_digit(digit_char((n % 10) as int)));
        assert forall|i: int| 0 <= i < d.len() implies is_digit(#[trigger] d[i]) by {
            if i < prev.len() {
                assert(d[i] == prev[i]);
            }
        }
        assert(d.last() == digit_char((n % 10) as int));
        assert(digits_value(d) == digits_value(d.drop_last()) * 10 + (digit_value(d.last()) as nat));
        assert((n / 10) * 10 + n % 10 == n);
    }
}

/// Parsing gives back every integer written in decimal: what `Display`
/// writes, `i32::from_str` reads as the same number.
pub proof fn law_decimal_parses_back(i: int)
    ensures
        parse_integer(decimal(i)) == Some(i),
{
    if i < 0 {
        let n = (-i) as nat;
        lemma_decimal_digits(n);
        let s = decimal(i);
        assert(s.skip(1) =~= decimal_digits(n));
    } else {
        lemma_decimal_digits(i as nat);
        let s = decimal(i);
        assert(is_digit(s[0]));
        assert(s.skip(0) =~= s);
    }
}

} // verus!
