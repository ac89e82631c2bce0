use crate::books::{book_words, book_words_of, BOOK_COUNT};
use crate::text::{is_digit, parse_in_range, parse_number_in_range, views, words};
use vstd::prelude::*;

verus! {

/// The highest chapter or verse number that a written reference may hold.
pub const MAX_REFERENCE_NUMBER: u32 = 176;

// ---------------------------------------------------------------------------
// Matching book names
// ---------------------------------------------------------------------------

/// Whether `c` is an ASCII capital letter.
pub open spec fn is_ascii_upper(c: char) -> bool {
    'A' <= c <= 'Z'
}

/// Whether two characters are equal when ASCII letters are compared without
/// regard to case.
pub open spec fn chars_match_ignoring_case(a: char, b: char) -> bool {
    ||| a == b
    ||| is_ascii_upper(a) && (a as u32) + 32 == (b as u32)
    ||| is_ascii_upper(b) && (b as u32) + 32 == (a as u32)
}

/// Whether two words are equal when ASCII letters are compared without regard
/// to case.
pub open spec fn same_ignoring_case(a: Seq<char>, b: Seq<char>) -> bool {
    a.len() == b.len() && forall|i: int|
        0 <= i < a.len() ==> chars_match_ignoring_case(#[trigger] a[i], b[i])
}

/// Whether the words of `name` occur in `tokens` from position `i` on.
pub open spec fn name_at(tokens: Seq<Seq<char>>, i: int, name: Seq<Seq<char>>) -> bool {
    &&& 0 <= i
    &&& i + name.len() <= tokens.len()
    &&& forall|j: int| 0 <= j < name.len() ==> same_ignoring_case(#[trigger] tokens[i + j], name[j])
}

fn char_matches_ignoring_case(a: char, b: char) -> (r: bool)
    ensures
        r == chars_match_ignoring_case(a, b),
{
    let x = a as u32;
    let y = b as u32;
    x == y || ('A' as u32 <= x && x <= 'Z' as u32 && x + 32 == y) || ('A' as u32 <= y && y
        <= 'Z' as u32 && y + 32 == x)
}

fn same_ignoring_case_exec(a: &Vec<char>, b: &Vec<char>) -> (r: bool)
    ensures
        r == same_ignoring_case(a@, b@),
{
    if a.len() != b.len() {
        return false;
    }
    let mut i: usize = 0;
    while i < a.len()
        invariant
            a@.len() == b@.len(),
            i <= a@.len(),
            forall|j: int| 0 <= j < i ==> chars_match_ignoring_case(#[trigger] a@[j], b@[j]),
        decreases a@.len() - i,
    {
        if !char_matches_ignoring_case(a[i], b[i]) {
            return false;
        }
        i = i + 1;
    }
    true
}

fn name_at_exec(tokens: &Vec<Vec<char>>, i: usize, name: &Vec<Vec<char>>) -> (r: bool)
    requires
        i <= tokens@.len(),
    ensures
        r == name_at(views(tokens@), i as int, views(name@)),
{
    if name.len() > tokens.len() - i {
        return false;
    }
    let mut j: usize = 0;
    while j < name.len()
        invariant
            i + name.len() <= tokens.len(),
            j <= name@.len(),
            forall|k: int|
                0 <= k < j ==> same_ignoring_case(
                    #[trigger] views(tokens@)[i + k],
                    views(name@)[k],
                ),
        decreases name@.len() - j,
    {
        if !same_ignoring_case_exec(&tokens[i + j], &name[j]) {
            assert(views(tokens@)[i + j] == tokens@[i + j]@);
            return false;
        }
        assert(views(tokens@)[i + j] == tokens@[i + j]@);
        j = j + 1;
    }
    true
}

// ---------------------------------------------------------------------------
// Chapter and verse numbers
// ---------------------------------------------------------------------------

/// Whether `c` may close a reference without belonging to it.
pub open spec fn is_trailing_punctuation(c: char) -> bool {
    c == '.' || c == ',' || c == ';' || c == '!' || c == '?'
}

/// `s` without its trailing punctuation.
pub open spec fn trim_trailing_punctuation(s: Seq<char>) -> Seq<char>
    decreases s.len(),
{
    if s.len() > 0 && is_trailing_punctuation(s.last()) {
        trim_trailing_punctuation(s.drop_last())
    } else {
        s
    }
}

/// The first position, from `i` on, where `c` occurs in `s`.
pub open spec fn find_char_from(s: Seq<char>, c: char, i: nat) -> Option<nat>
    decreases s.len() - i,
{
    if i >= s.len() {
        None
    } else if s[i as int] == c {
        Some(i)
    } else {
        find_char_from(s, c, i + 1)
    }
}

/// A number written in ASCII digits, from 1 to 176.
pub open spec fn numeral(s: Seq<char>) -> Option<int> {
    if s.len() > 0 && is_digit(s[0]) {
        parse_in_range(s, MAX_REFERENCE_NUMBER as int)
    } else {
        None
    }
}

/// The chapter, verse and optional last verse that a token such as `3:16`,
/// `3:16-18` or `3:16,` writes.
pub open spec fn reference_numbers(token: Seq<char>) -> Option<(int, int, Option<int>)> {
    let t = trim_trailing_punctuation(token);
    match find_char_from(t, ':', 0) {
        None => None,
        Some(colon) => {
            let rest = t.skip(colon + 1 as int);
            match find_char_from(rest, '-', 0) {
                None => match (numeral(t.take(colon as int)), numeral(rest)) {
                    (Some(chapter), Some(verse)) => Some((chapter, verse, None)),
                    _ => None,
                },
                Some(dash) => match (
                    numeral(t.take(colon as int)),
                    numeral(rest.take(dash as int)),
                    numeral(rest.skip(dash + 1 as int)),
                ) {
                    (Some(chapter), Some(verse), Some(end)) => Some((chapter, verse, Some(end))),
                    _ => None,
                },
            }
        },
    }
}

proof fn lemma_find_char_from(s: Seq<char>, c: char, i: nat)
    ensures
        find_char_from(s, c, i) matches Some(j) ==> i <= j < s.len() && s[j as int] == c,
    decreases s.len() - i,
{
    if i < s.len() && s[i as int] != c {
        lemma_find_char_from(s, c, i + 1);
    }
}

fn find_char(s: &Vec<char>, c: char) -> (r: Option<usize>)
    ensures
        match find_char_from(s@, c, 0) {
            Some(j) => r is Some && r->0 as nat == j && r->0 < s.len(),
            None => r is None,
        },
{
    proof {
        lemma_find_char_from(s@, c, 0);
    }
    let mut i: usize = 0;
    while i < s.len()
        invariant
            i <= s@.len(),
            find_char_from(s@, c, i as nat) == find_char_from(s@, c, 0),
        decreases s@.len() - i,
    {
        if s[i] == c {
            return Some(i);
        }
        i = i + 1;
    }
    None
}

fn sub_chars(s: &Vec<char>, from: usize, to: usize) -> (r: Vec<char>)
    requires
        from <= to <= s@.len(),
    ensures
        r@ == s@.subrange(from as int, to as int),
{
    let mut r: Vec<char> = Vec::new();
    let mut k: usize = from;
    while k < to
        invariant
            from <= k <= to <= s@.len(),
            r@ == s@.subrange(from as int, k as int),
        decreases to - k,
    {
        r.push(s[k]);
        k = k + 1;
    }
    r
}

fn numeral_exec(s: &Vec<char>) -> (r: Option<i32>)
    ensures
        match numeral(s@) {
            Some(n) => r == Some(n as i32) && 1 <= n <= MAX_REFERENCE_NUMBER,
            None => r is None,
        },
{
    if s.len() > 0 && '0' <= s[0] && s[0] <= '9' {
        parse_number_in_range(s, MAX_REFERENCE_NUMBER)
    } else {
        None
    }
}

fn trim_trailing_punctuation_exec(s: &Vec<char>) -> (r: Vec<char>)
    ensures
        r@ == trim_trailing_punctuation(s@),
{
    let mut end: usize = s.len();
    assert(s@.take(s@.len() as int) =~= s@);
    while end > 0 && (s[end - 1] == '.' || s[end - 1] == ',' || s[end - 1] == ';' || s[end - 1]
        == '!' || s[end - 1] == '?')
        invariant
            end <= s@.len(),
            trim_trailing_punctuation(s@.take(end as int)) == trim_trailing_punctuation(s@),
        decreases end,
    {
        assert(s@.take(end as int).drop_last() =~= s@.take(end - 1));
        end = end - 1;
    }
    let r = sub_chars(s, 0, end);
    assert(r@ =~= s@.take(end as int));
    r
}

/// The chapter, verse and optional last verse that a token writes.
pub fn reference_numbers_of(token: &Vec<char>) -> (r: Option<(i32, i32, Option<i32>)>)
    ensures
        match reference_numbers(token@) {
            Some((c, v, e)) => match r {
                Some((c2, v2, e2)) => c2 == c && v2 == v && match e {
                    Some(e) => e2 == Some(e as i32) && 1 <= e <= MAX_REFERENCE_NUMBER,
                    None => e2 is None,
                },
                None => false,
            },
            None => r is None,
        },
{
    let t = trim_trailing_punctuation_exec(token);
    let colon = match find_char(&t, ':') {
        None => return None,
        Some(c) => c,
    };
    let chapter_text = sub_chars(&t, 0, colon);
    let rest = sub_chars(&t, colon + 1, t.len());
    assert(chapter_text@ =~= t@.take(colon as int));
    assert(rest@ =~= t@.skip(colon + 1));
    let chapter = numeral_exec(&chapter_text);
    match find_char(&rest, '-') {
        None => {
            let verse = numeral_exec(&rest);
            match (chapter, verse) {
                (Some(c), Some(v)) => Some((c, v, None)),
                _ => None,
            }
        },
        Some(dash) => {
            let verse_text = sub_chars(&rest, 0, dash);
            let end_text = sub_chars(&rest, dash + 1, rest.len());
            assert(verse_text@ =~= rest@.take(dash as int));
            assert(end_text@ =~= rest@.skip(dash + 1));
            let verse = numeral_exec(&verse_text);
            let end = numeral_exec(&end_text);
            match (chapter, verse, end) {
                (Some(c), Some(v), Some(e)) => Some((c, v, Some(e))),
                _ => None,
            }
        },
    }
}


// ---------------------------------------------------------------------------
// Finding references in a transcript
// ---------------------------------------------------------------------------

/// A reference as plain values: the book's index, chapter, verse and
/// optional last verse.
pub struct ReferenceView {
    pub book: int,
    pub chapter: int,
    pub verse: int,
    pub verse_end: Option<int>,
}

/// The numbers of a reference to book `b` whose name starts at token `i`:
/// the name, then a token such as `3:16`.
pub open spec fn book_reference_at(tokens: Seq<Seq<char>>, i: int, b: int) -> Option<
    (int, int, Option<int>),
> {
    let name = book_words(b);
    if name_at(tokens, i, name) && i + name.len() < tokens.len() {
        reference_numbers(tokens[i + name.len()])
    } else {
        None
    }
}

/// The reference at token `i` to the first book, from index `b` on, whose
/// name starts there.
pub open spec fn first_book_reference(tokens: Seq<Seq<char>>, i: int, b: nat) -> Option<
    ReferenceView,
>
    decreases BOOK_COUNT - b,
{
    if b >= BOOK_COUNT {
        None
    } else {
        match book_reference_at(tokens, i, b as int) {
            Some((c, v, e)) => Some(ReferenceView { book: b as int, chapter: c, verse: v, verse_end: e }),
            None => first_book_reference(tokens, i, b + 1),
        }
    }
}

/// The references in `tokens` from position `i` on, read from left to right;
/// the tokens of a reference found are not read again.
pub open spec fn scan_references(tokens: Seq<Seq<char>>, i: int) -> Seq<ReferenceView>
    decreases (if 0 <= i < tokens.len() {
        tokens.len() - i
    } else {
        0
    }),
{
    if i < 0 || i >= tokens.len() {
        Seq::empty()
    } else {
        match first_book_reference(tokens, i, 0) {
            Some(r) => seq![r] + scan_references(tokens, i + book_words(r.book).len() + 1),
            None => scan_references(tokens, i + 1),
        }
    }
}

/// The Bible references that a text writes, such as "John 3:16" or
/// "1 Corinthians 13:4-7", in order.
pub open spec fn references_in(text: Seq<char>) -> Seq<ReferenceView> {
    scan_references(words(text), 0)
}

/// A reference found in a text.
pub struct FoundReference {
    pub book_index: usize,
    pub chapter: i32,
    pub verse: i32,
    pub verse_end: Option<i32>,
}

impl View for FoundReference {
    type V = ReferenceView;

    open spec fn view(&self) -> ReferenceView {
        ReferenceView {
            book: self.book_index as int,
            chapter: self.chapter as int,
            verse: self.verse as int,
            verse_end: match self.verse_end {
                Some(e) => Some(e as int),
                None => None,
            },
        }
    }
}

/// The plain values of found references.
pub open spec fn reference_views(rs: Seq<FoundReference>) -> Seq<ReferenceView> {
    rs.map_values(|r: FoundReference| r@)
}

fn book_reference_at_exec(tokens: &Vec<Vec<char>>, i: usize, b: usize) -> (r: Option<
    FoundReference,
>)
    requires
        i < tokens@.len(),
        b < BOOK_COUNT,
    ensures
        match book_reference_at(views(tokens@), i as int, b as int) {
            Some((c, v, e)) => r is Some && r->0@ == (ReferenceView {
                book: b as int,
                chapter: c,
                verse: v,
                verse_end: e,
            }),
            None => r is None,
        },
{
    let name = book_words_of(b);
    if !name_at_exec(tokens, i, &name) {
        return None;
    }
    if name.len() >= tokens.len() - i {
        return None;
    }
    assert(views(tokens@)[i + name@.len()] == tokens@[i + name@.len()]@);
    match reference_numbers_of(&tokens[i + name.len()]) {
        Some((c, v, e)) => Some(FoundReference { book_index: b, chapter: c, verse: v, verse_end: e }),
        None => None,
    }
}

fn first_book_reference_exec(tokens: &Vec<Vec<char>>, i: usize) -> (r: Option<FoundReference>)
    requires
        i < tokens@.len(),
    ensures
        match first_book_reference(views(tokens@), i as int, 0) {
            Some(rv) => r is Some && r->0@ == rv && r->0.book_index < BOOK_COUNT,
            None => r is None,
        },
{
    let mut b: usize = 0;
    while b < BOOK_COUNT
        invariant
            i < tokens@.len(),
            b <= BOOK_COUNT,
            first_book_reference(views(tokens@), i as int, b as nat) == first_book_reference(
                views(tokens@),
                i as int,
                0,
            ),
        decreases BOOK_COUNT - b,
    {
        let found = book_reference_at_exec(tokens, i, b);
        if found.is_some() {
            return found;
        }
        b = b + 1;
    }
    None
}

/// Finds the Bible references that a text writes.
pub fn find_references(text: &Vec<char>) -> (r: Vec<FoundReference>)
    ensures
        reference_views(r@) == references_in(text@),
        forall|k: int| 0 <= k < r@.len() ==> #[trigger] r@[k].book_index < BOOK_COUNT,
{
    let tokens = crate::text::split_whitespace(text);
    let ghost tv = views(tokens@);
    let mut found: Vec<FoundReference> = Vec::new();
    let mut i: usize = 0;
    while i < tokens.len()
        invariant
            tv == views(tokens@),
            tv == words(text@),
            i <= tokens.len(),
            reference_views(found@) + scan_references(tv, i as int) == scan_references(tv, 0),
            forall|k: int| 0 <= k < found@.len() ==> #[trigger] found@[k].book_index < BOOK_COUNT,
        decreases tokens.len() - i,
    {
        match first_book_reference_exec(&tokens, i) {
            Some(reference) => {
                let name_len = book_words_of(reference.book_index).len();
                let ghost old_found = reference_views(found@);
                let ghost rv = reference@;
                found.push(reference);
                assert(reference_views(found@) =~= old_found.push(rv));
                assert(old_found + scan_references(tv, i as int) =~= reference_views(found@)
                    + scan_references(tv, i + name_len + 1));
                if name_len >= tokens.len() - i {
                    i = tokens.len();
                } else {
                    i = i + name_len + 1;
                }
            },
            None => {
                i = i + 1;
            },
        }
    }
    assert(reference_views(found@) + scan_references(tv, i as int) =~= reference_views(found@));
    found
}


// ---------------------------------------------------------------------------
// Laws
// ---------------------------------------------------------------------------

proof fn lemma_numeral_range(s: Seq<char>)
    ensures
        numeral(s) matches Some(n) ==> 1 <= n <= MAX_REFERENCE_NUMBER,
{
}

proof fn lemma_first_book_reference(tokens: Seq<Seq<char>>, i: int, b: nat)
    ensures
        first_book_reference(tokens, i, b) matches Some(r) ==> {
            &&& b <= r.book < BOOK_COUNT
            &&& 1 <= r.chapter <= MAX_REFERENCE_NUMBER
            &&& 1 <= r.verse <= MAX_REFERENCE_NUMBER
            &&& r.verse_end matches Some(e) ==> 1 <= e <= MAX_REFERENCE_NUMBER
            &&& name_at(tokens, i, book_words(r.book))
        },
    decreases BOOK_COUNT - b,
{
    if b < BOOK_COUNT {
        match book_reference_at(tokens, i, b as int) {
            Some(_) => {
                let name = book_words(b as int);
                let t = trim_trailing_punctuation(tokens[i + name.len()]);
                match find_char_from(t, ':', 0) {
                    Some(colon) => {
                        let rest = t.skip(colon + 1 as int);
                        lemma_numeral_range(t.take(colon as int));
                        lemma_numeral_range(rest);
                        match find_char_from(rest, '-', 0) {
                            Some(dash) => {
                                lemma_numeral_range(rest.take(dash as int));
                                lemma_numeral_range(rest.skip(dash + 1 as int));
                            },
                            None => {},
                        }
                    },
                    None => {},
                }
            },
            None => lemma_first_book_reference(tokens, i, b + 1),
        }
    }
}

proof fn lemma_scan_references(tokens: Seq<Seq<char>>, i: int)
    ensures
        forall|k: int|
            0 <= k < scan_references(tokens, i).len() ==> {
                let r = #[trigger] scan_references(tokens, i)[k];
                &&& 0 <= r.book < BOOK_COUNT
                &&& 1 <= r.chapter <= MAX_REFERENCE_NUMBER
                &&& 1 <= r.verse <= MAX_REFERENCE_NUMBER
                &&& r.verse_end matches Some(e) ==> 1 <= e <= MAX_REFERENCE_NUMBER
            },
    decreases (if 0 <= i < tokens.len() {
        tokens.len() - i
    } else {
        0
    }),
{
    if 0 <= i < tokens.len() {
        lemma_first_book_reference(tokens, i, 0);
        match first_book_reference(tokens, i, 0) {
            Some(r) => {
                let next = i + book_words(r.book).len() + 1;
                lemma_scan_references(tokens, next);
                let s = scan_references(tokens, i);
                assert forall|k: int| 0 <= k < s.len() implies {
                    let x = #[trigger] s[k];
                    &&& 0 <= x.book < BOOK_COUNT
                    &&& 1 <= x.chapter <= MAX_REFERENCE_NUMBER
                    &&& 1 <= x.verse <= MAX_REFERENCE_NUMBER
                    &&& x.verse_end matches Some(e) ==> 1 <= e <= MAX_REFERENCE_NUMBER
                } by {
                    if k > 0 {
                        assert(s[k] == scan_references(tokens, next)[k - 1]);
                    }
                }
            },
            None => lemma_scan_references(tokens, i + 1),
        }
    }
}

/// Every reference found names one of the books, and a chapter and verses
/// from 1 to 176.
pub proof fn law_references_are_well_formed(text: Seq<char>)
    ensures
        forall|k: int|
            0 <= k < references_in(text).len() ==> {
                let r = #[trigger] references_in(text)[k];
                &&& 0 <= r.book < BOOK_COUNT
                &&& 1 <= r.chapter <= MAX_REFERENCE_NUMBER
                &&& 1 <= r.verse <= MAX_REFERENCE_NUMBER
                &&& r.verse_end matches Some(e) ==> 1 <= e <= MAX_REFERENCE_NUMBER
            },
{
    lemma_scan_references(words(text), 0);
}

} // verus!
