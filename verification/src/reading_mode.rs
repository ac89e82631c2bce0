use crate::clock::{duration_as_millis, instant_elapsed, instant_now};
use crate::text::{
    ascii_lowercase, char_is_alphabetic, char_is_alphanumeric, chars_eq, chars_eq_str, chars_of,
    decimal, has_prefix, is_ascii_letter, is_ascii_text, is_digit, law_decimal_parses_back,
    lemma_decimal_digits, lemma_words_of_joined, parse_in_range, parse_number_in_range,
    push_decimal, replace_all, replace_chars, spec_is_alphabetic, spec_is_alphanumeric,
    spec_to_lowercase, split_whitespace, str_to_lowercase, string_from_chars, strip_prefix,
    strip_prefix_chars, trim, trim_chars, trim_end, trim_end_char, trim_end_matches_char,
    trim_start, utf8_len, utf8_len_at_least, views, words,
};
use std::time::Instant;
use vstd::prelude::*;

verus! {

/// Reading mode pauses after this many milliseconds without a verse match.
pub const READING_MODE_TIMEOUT_MS: u128 = 180_000;

/// The highest verse number that a spoken reference may name.
pub const MAX_VERSE_NUMBER: u32 = 176;

// ---------------------------------------------------------------------------
// Word sets
// ---------------------------------------------------------------------------

/// The characters that a cleaned word keeps: alphanumeric ones and `'`.
pub open spec fn is_word_char(c: char) -> bool {
    spec_is_alphanumeric(c) || c == '\''
}

/// `s` with every character dropped that is not a word character.
pub open spec fn keep_word_chars(s: Seq<char>) -> Seq<char>
    decreases s.len(),
{
    if s.len() == 0 {
        s
    } else {
        let kept = keep_word_chars(s.drop_last());
        if is_word_char(s.last()) {
            kept.push(s.last())
        } else {
            kept
        }
    }
}

/// A word lowercased and stripped of punctuation.
pub open spec fn clean_word(w: Seq<char>) -> Seq<char> {
    keep_word_chars(spec_to_lowercase(w))
}

/// The cleaned words of `ws` that take at least two bytes, each once, in the
/// order in which they first occur.
pub open spec fn distinct_clean_words(ws: Seq<Seq<char>>) -> Seq<Seq<char>>
    decreases ws.len(),
{
    if ws.len() == 0 {
        Seq::empty()
    } else {
        let prev = distinct_clean_words(ws.drop_last());
        let c = clean_word(ws.last());
        if utf8_len(c) >= 2 && !prev.contains(c) {
            prev.push(c)
        } else {
            prev
        }
    }
}

/// The word set of a text: its whitespace-separated words, lowercased and
/// stripped of punctuation, without those under two bytes, each once.
pub open spec fn word_list(text: Seq<char>) -> Seq<Seq<char>> {
    distinct_clean_words(words(text))
}

/// How many words of `vs` occur in `ts`.
pub open spec fn shared_count(vs: Seq<Seq<char>>, ts: Seq<Seq<char>>) -> nat
    decreases vs.len(),
{
    if vs.len() == 0 {
        0
    } else {
        shared_count(vs.drop_last(), ts) + if ts.contains(vs.last()) {
            1nat
        } else {
            0nat
        }
    }
}

/// Whether the transcript words `ts` cover at least 40% of the verse words
/// `vs` (a verse without words is never covered).
pub open spec fn overlap_reached(ts: Seq<Seq<char>>, vs: Seq<Seq<char>>) -> bool {
    vs.len() > 0 && 5 * shared_count(vs, ts) >= 2 * vs.len()
}

/// Whether `shared` words out of `total` make at least 40%.
pub open spec fn meets_min_overlap_spec(shared: nat, total: nat) -> bool {
    total > 0 && 5 * shared >= 2 * total
}

// ---------------------------------------------------------------------------
// Spoken verse numbers
// ---------------------------------------------------------------------------

/// The number that a spoken number word names: the words from one to twenty,
/// the tens from thirty to ninety, and hundred.
pub open spec fn spoken_number(w: Seq<char>) -> Option<int> {
    if w == "one"@ {
        Some(1)
    } else if w == "two"@ {
        Some(2)
    } else if w == "three"@ {
        Some(3)
    } else if w == "four"@ {
        Some(4)
    } else if w == "five"@ {
        Some(5)
    } else if w == "six"@ {
        Some(6)
    } else if w == "seven"@ {
        Some(7)
    } else if w == "eight"@ {
        Some(8)
    } else if w == "nine"@ {
        Some(9)
    } else if w == "ten"@ {
        Some(10)
    } else if w == "eleven"@ {
        Some(11)
    } else if w == "twelve"@ {
        Some(12)
    } else if w == "thirteen"@ {
        Some(13)
    } else if w == "fourteen"@ {
        Some(14)
    } else if w == "fifteen"@ {
        Some(15)
    } else if w == "sixteen"@ {
        Some(16)
    } else if w == "seventeen"@ {
        Some(17)
    } else if w == "eighteen"@ {
        Some(18)
    } else if w == "nineteen"@ {
        Some(19)
    } else if w == "twenty"@ {
        Some(20)
    } else if w == "thirty"@ {
        Some(30)
    } else if w == "forty"@ {
        Some(40)
    } else if w == "fifty"@ {
        Some(50)
    } else if w == "sixty"@ {
        Some(60)
    } else if w == "seventy"@ {
        Some(70)
    } else if w == "eighty"@ {
        Some(80)
    } else if w == "ninety"@ {
        Some(90)
    } else if w == "hundred"@ {
        Some(100)
    } else {
        None
    }
}

/// Whether `char::is_alphabetic` holds of `c`: for an ASCII character,
/// whether it is a letter.
pub open spec fn is_alphabetic_char(c: char) -> bool {
    if (c as u32) < 128 {
        is_ascii_letter(c)
    } else {
        spec_is_alphabetic(c)
    }
}

/// The length of the run of alphabetic characters that opens `s`.
pub open spec fn alphabetic_run_len(s: Seq<char>) -> nat
    decreases s.len(),
{
    if s.len() > 0 && is_alphabetic_char(s[0]) {
        1 + alphabetic_run_len(s.drop_first())
    } else {
        0
    }
}

/// The run of alphabetic characters that opens `s`.
pub open spec fn alphabetic_prefix(s: Seq<char>) -> Seq<char> {
    s.take(alphabetic_run_len(s) as int)
}

/// The verse number that follows `prefix` at the start of `text`: digits (after
/// trailing dots and surrounding white space are dropped) naming a number from
/// 1 to 176, or else a spoken number word.
pub open spec fn number_after_prefix(text: Seq<char>, prefix: Seq<char>) -> Option<int> {
    match strip_prefix(text, prefix) {
        None => None,
        Some(rest) => {
            let rest = trim_end_char(rest, '.');
            match parse_in_range(trim(rest), MAX_VERSE_NUMBER as int) {
                Some(n) => Some(n),
                None => spoken_number(alphabetic_prefix(rest)),
            }
        },
    }
}

/// The verse number that a (lowercased, trimmed) utterance names: "verse N",
/// "verses N", "first N" with N in digits or words, or, with optional trailing
/// dots, a bare number from 1 to 176 or a bare spoken number word ("three.").
pub open spec fn verse_number_in(text: Seq<char>) -> Option<int> {
    match number_after_prefix(text, "verse "@) {
        Some(n) => Some(n),
        None => match number_after_prefix(text, "verses "@) {
            Some(n) => Some(n),
            None => match number_after_prefix(text, "first "@) {
                Some(n) => Some(n),
                None => {
                    let clean = trim(trim_end_char(text, '.'));
                    match parse_in_range(clean, MAX_VERSE_NUMBER as int) {
                        Some(n) => Some(n),
                        None => spoken_number(clean),
                    }
                },
            },
        },
    }
}

/// A verse found among the loaded verses is one of them.
pub proof fn lemma_find_verse_in_range(vs: Seq<(i32, Seq<char>)>, n: int, i: nat)
    ensures
        find_verse_from(vs, n, i) matches Some(j) ==> i <= j < vs.len() && vs[j as int].0 == n,
    decreases vs.len() - i,
{
    if i < vs.len() && vs[i as int].0 != n {
        lemma_find_verse_in_range(vs, n, i + 1);
    }
}

/// A verse number named by an utterance lies between 1 and 176.
pub proof fn lemma_verse_number_range(text: Seq<char>)
    ensures
        verse_number_in(text) matches Some(n) ==> 1 <= n <= MAX_VERSE_NUMBER,
{
}

/// Whether it is known of the ASCII characters of `s` that exactly the
/// letters and digits are alphanumeric (it is, once each has been asked).
pub open spec fn ascii_classes_known(s: Seq<char>) -> bool {
    forall|i: int|
        0 <= i < s.len() && (s[i] as u32) < 128 ==> spec_is_alphanumeric(#[trigger] s[i]) == (
        is_ascii_letter(s[i]) || is_digit(s[i]))
}

/// Whether the ASCII facts that cleaning the word `w` needs are known: its
/// lowercase and the classes of the lowercase's characters.
pub open spec fn word_facts_known(w: Seq<char>) -> bool {
    ascii_lowercase_known(w) && ascii_classes_known(spec_to_lowercase(w))
}

// ---------------------------------------------------------------------------
// Executable helpers
// ---------------------------------------------------------------------------

fn keep_word_chars_exec(s: &Vec<char>) -> (r: Vec<char>)
    ensures
        r@ == keep_word_chars(s@),
        ascii_classes_known(s@),
{
    let mut r: Vec<char> = Vec::new();
    let mut i: usize = 0;
    while i < s.len()
        invariant
            i <= s@.len(),
            r@ == keep_word_chars(s@.take(i as int)),
            ascii_classes_known(s@.take(i as int)),
        decreases s@.len() - i,
    {
        let c = s[i];
        assert(s@.take(i + 1).drop_last() =~= s@.take(i as int));
        assert(s@.take(i + 1).last() == c);
        let alnum = char_is_alphanumeric(c);
        assert(ascii_classes_known(s@.take(i + 1))) by {
            assert forall|j: int|
                0 <= j < s@.take(i + 1).len() && (s@.take(i + 1)[j] as u32) < 128 implies spec_is_alphanumeric(
                #[trigger] s@.take(i + 1)[j],
            ) == (is_ascii_letter(s@.take(i + 1)[j]) || is_digit(s@.take(i + 1)[j])) by {
                if j < i {
                    assert(s@.take(i + 1)[j] == s@.take(i as int)[j]);
                }
            }
        }
        if alnum || c == '\'' {
            r.push(c);
        }
        i = i + 1;
    }
    assert(s@.take(s@.len() as int) =~= s@);
    r
}

fn clean_word_exec(w: &Vec<char>) -> (r: Vec<char>)
    ensures
        r@ == clean_word(w@),
        word_facts_known(w@),
{
    let s = string_from_chars(w);
    let lower = str_to_lowercase(s.as_str());
    let lower_chars = chars_of(lower.as_str());
    keep_word_chars_exec(&lower_chars)
}

/// Whether `w` occurs in `list`.
fn contains_word(list: &Vec<Vec<char>>, w: &Vec<char>) -> (r: bool)
    ensures
        r == views(list@).contains(w@),
{
    let mut i: usize = 0;
    while i < list.len()
        invariant
            i <= list@.len(),
            forall|j: int| 0 <= j < i ==> list@[j]@ != w@,
        decreases list@.len() - i,
    {
        if chars_eq(&list[i], w) {
            assert(views(list@)[i as int] == w@);
            return true;
        }
        i = i + 1;
    }
    assert forall|j: int| 0 <= j < views(list@).len() implies views(list@)[j] != w@ by {
        assert(views(list@)[j] == list@[j]@);
    }
    false
}

/// The word set of a text given as characters.
pub(crate) fn word_list_of_chars(text: &Vec<char>) -> (r: Vec<Vec<char>>)
    ensures
        views(r@) == word_list(text@),
        forall|j: int| 0 <= j < words(text@).len() ==> word_facts_known(#[trigger] words(text@)[j]),
{
    let ws = split_whitespace(text);
    let ghost wsv = views(ws@);
    let mut r: Vec<Vec<char>> = Vec::new();
    let mut i: usize = 0;
    while i < ws.len()
        invariant
            i <= ws@.len(),
            wsv == views(ws@),
            wsv == words(text@),
            views(r@) == distinct_clean_words(wsv.take(i as int)),
            forall|j: int| 0 <= j < i ==> word_facts_known(#[trigger] wsv[j]),
        decreases ws@.len() - i,
    {
        let c = clean_word_exec(&ws[i]);
        assert(wsv[i as int] == ws@[i as int]@);
        assert(wsv.take(i + 1).drop_last() =~= wsv.take(i as int));
        assert(wsv.take(i + 1).last() == ws@[i as int]@);
        if utf8_len_at_least(&c, 2) && !contains_word(&r, &c) {
            let ghost old_r = views(r@);
            let ghost cv = c@;
            r.push(c);
            assert(views(r@) =~= old_r.push(cv));
        }
        i = i + 1;
    }
    assert(wsv.take(ws@.len() as int) =~= wsv);
    r
}

/// Converts a text to its set of lowercase words, stripped of punctuation and
/// without words under two bytes. Each word occurs once.
pub fn text_to_word_set(text: &str) -> (r: Vec<Vec<char>>)
    ensures
        views(r@) == word_list(text@),
        forall|j: int| 0 <= j < words(text@).len() ==> word_facts_known(#[trigger] words(text@)[j]),
{
    let t = chars_of(text);
    word_list_of_chars(&t)
}

/// How many of `verse_words` occur in `transcript_words`; the overlap of the
/// verse is this number divided by `verse_word_count`, and a verse of no words
/// has none.
pub fn word_overlap(
    transcript_words: &Vec<Vec<char>>,
    verse_words: &Vec<Vec<char>>,
    verse_word_count: usize,
) -> (shared: usize)
    ensures
        shared == if verse_word_count == 0 {
            0
        } else {
            shared_count(views(verse_words@), views(transcript_words@))
        },
{
    if verse_word_count == 0 {
        return 0;
    }
    let ghost vs = views(verse_words@);
    let mut shared: usize = 0;
    let mut i: usize = 0;
    while i < verse_words.len()
        invariant
            i <= verse_words@.len(),
            vs == views(verse_words@),
            shared == shared_count(vs.take(i as int), views(transcript_words@)),
            shared <= i,
        decreases verse_words@.len() - i,
    {
        assert(vs.take(i + 1).drop_last() =~= vs.take(i as int));
        assert(vs.take(i + 1).last() == verse_words@[i as int]@);
        if contains_word(transcript_words, &verse_words[i]) {
            shared = shared + 1;
        }
        i = i + 1;
    }
    assert(vs.take(verse_words@.len() as int) =~= vs);
    shared
}

/// Whether `shared` words out of `total` reach the 40% overlap that counts as
/// a match.
pub fn meets_min_overlap(shared: usize, total: usize) -> (r: bool)
    ensures
        r == meets_min_overlap_spec(shared as nat, total as nat),
{
    total > 0 && (shared as u128) * 5 >= (total as u128) * 2
}

/// The number that a spoken number word names.
pub fn spoken_to_number(word: &str) -> (r: Option<i32>)
    ensures
        match spoken_number(word@) {
            Some(n) => r == Some(n as i32),
            None => r is None,
        },
{
    let w = chars_of(word);
    spoken_number_of(&w)
}

fn spoken_number_of(w: &Vec<char>) -> (r: Option<i32>)
    ensures
        match spoken_number(w@) {
            Some(n) => r == Some(n as i32),
            None => r is None,
        },
{
    if chars_eq_str(w, "one") {
        Some(1)
    } else if chars_eq_str(w, "two") {
        Some(2)
    } else if chars_eq_str(w, "three") {
        Some(3)
    } else if chars_eq_str(w, "four") {
        Some(4)
    } else if chars_eq_str(w, "five") {
        Some(5)
    } else if chars_eq_str(w, "six") {
        Some(6)
    } else if chars_eq_str(w, "seven") {
        Some(7)
    } else if chars_eq_str(w, "eight") {
        Some(8)
    } else if chars_eq_str(w, "nine") {
        Some(9)
    } else if chars_eq_str(w, "ten") {
        Some(10)
    } else if chars_eq_str(w, "eleven") {
        Some(11)
    } else if chars_eq_str(w, "twelve") {
        Some(12)
    } else if chars_eq_str(w, "thirteen") {
        Some(13)
    } else if chars_eq_str(w, "fourteen") {
        Some(14)
    } else if chars_eq_str(w, "fifteen") {
        Some(15)
    } else if chars_eq_str(w, "sixteen") {
        Some(16)
    } else if chars_eq_str(w, "seventeen") {
        Some(17)
    } else if chars_eq_str(w, "eighteen") {
        Some(18)
    } else if chars_eq_str(w, "nineteen") {
        Some(19)
    } else if chars_eq_str(w, "twenty") {
        Some(20)
    } else if chars_eq_str(w, "thirty") {
        Some(30)
    } else if chars_eq_str(w, "forty") {
        Some(40)
    } else if chars_eq_str(w, "fifty") {
        Some(50)
    } else if chars_eq_str(w, "sixty") {
        Some(60)
    } else if chars_eq_str(w, "seventy") {
        Some(70)
    } else if chars_eq_str(w, "eighty") {
        Some(80)
    } else if chars_eq_str(w, "ninety") {
        Some(90)
    } else if chars_eq_str(w, "hundred") {
        Some(100)
    } else {
        None
    }
}

fn alphabetic_prefix_exec(s: &Vec<char>) -> (r: Vec<char>)
    ensures
        r@ == alphabetic_prefix(s@),
{
    let mut k: usize = 0;
    assert(s@.skip(0) =~= s@);
    while k < s.len() && char_is_alphabetic(s[k])
        invariant
            k <= s@.len(),
            k + alphabetic_run_len(s@.skip(k as int)) == alphabetic_run_len(s@),
        decreases s@.len() - k,
    {
        assert(s@.skip(k as int).drop_first() =~= s@.skip(k + 1));
        k = k + 1;
    }
    let mut r: Vec<char> = Vec::new();
    let mut j: usize = 0;
    while j < k
        invariant
            j <= k <= s@.len(),
            r@ == s@.take(j as int),
        decreases k - j,
    {
        r.push(s[j]);
        assert(s@.take(j + 1) =~= s@.take(j as int).push(s@[j as int]));
        j = j + 1;
    }
    r
}

fn number_after_prefix_exec(text: &Vec<char>, prefix: &str) -> (r: Option<i32>)
    ensures
        match number_after_prefix(text@, prefix@) {
            Some(n) => r == Some(n as i32),
            None => r is None,
        },
{
    let p = chars_of(prefix);
    match strip_prefix_chars(text, &p) {
        None => None,
        Some(rest) => {
            let rest = trim_end_matches_char(&rest, '.');
            let trimmed = trim_chars(&rest);
            match parse_number_in_range(&trimmed, MAX_VERSE_NUMBER) {
                Some(n) => Some(n),
                None => {
                    let word = alphabetic_prefix_exec(&rest);
                    spoken_number_of(&word)
                },
            }
        },
    }
}

fn verse_number_in_chars(text: &Vec<char>) -> (r: Option<i32>)
    ensures
        match verse_number_in(text@) {
            Some(n) => r == Some(n as i32),
            None => r is None,
        },
{
    if let Some(n) = number_after_prefix_exec(text, "verse ") {
        return Some(n);
    }
    if let Some(n) = number_after_prefix_exec(text, "verses ") {
        return Some(n);
    }
    if let Some(n) = number_after_prefix_exec(text, "first ") {
        return Some(n);
    }
    let clean = trim_end_matches_char(text, '.');
    let trimmed = trim_chars(&clean);
    match parse_number_in_range(&trimmed, MAX_VERSE_NUMBER) {
        Some(n) => Some(n),
        None => spoken_number_of(&trimmed),
    }
}

/// Extracts a verse number from text like "verse three", "verse 4", "first
/// two", a bare "3." or a bare "three.".
pub fn extract_verse_number(text: &str) -> (r: Option<i32>)
    ensures
        match verse_number_in(text@) {
            Some(n) => r == Some(n as i32),
            None => r is None,
        },
{
    let t = chars_of(text);
    verse_number_in_chars(&t)
}


// ---------------------------------------------------------------------------
// Reading mode
// ---------------------------------------------------------------------------

/// A verse loaded for reading mode tracking.
struct LoadedVerse {
    verse_number: i32,
    text: String,
    /// The verse's word set, computed once.
    words: Vec<Vec<char>>,
    word_count: usize,
}

/// Result when reading mode advances to a new verse.
pub struct ReadingAdvance {
    pub book_number: i32,
    pub book_name: String,
    pub chapter: i32,
    pub verse: i32,
    pub verse_text: String,
    pub reference: String,
    /// Confidence in thousandths; an advance is always certain.
    pub confidence_permille: u32,
}

/// The plain values of a `ReadingAdvance`.
pub struct ReadingAdvanceView {
    pub book_number: i32,
    pub book_name: Seq<char>,
    pub chapter: i32,
    pub verse: i32,
    pub verse_text: Seq<char>,
    pub reference: Seq<char>,
    pub confidence_permille: u32,
}

impl View for ReadingAdvance {
    type V = ReadingAdvanceView;

    open spec fn view(&self) -> ReadingAdvanceView {
        ReadingAdvanceView {
            book_number: self.book_number,
            book_name: self.book_name@,
            chapter: self.chapter,
            verse: self.verse,
            verse_text: self.verse_text@,
            reference: self.reference@,
            confidence_permille: self.confidence_permille,
        }
    }
}

/// The plain values of an optional `ReadingAdvance`.
pub open spec fn advance_view_of(a: Option<ReadingAdvance>) -> Option<ReadingAdvanceView> {
    match a {
        Some(a) => Some(a@),
        None => None,
    }
}

/// The state of a `ReadingMode` as plain values: the loaded verses are pairs
/// of verse number and text.
pub struct ReadingModeView {
    pub active: bool,
    pub book_number: i32,
    pub book_name: Seq<char>,
    pub chapter: i32,
    pub current_index: nat,
    pub verses: Seq<(i32, Seq<char>)>,
    pub accumulated: Seq<char>,
}

impl ReadingModeView {
    /// The state invariant: an active mode has verses, and while verses are
    /// loaded the current index points at one of them.
    pub open spec fn valid(self) -> bool {
        &&& self.active ==> self.verses.len() > 0
        &&& self.verses.len() > 0 ==> self.current_index < self.verses.len()
    }

    /// The word set of the `i`-th loaded verse.
    pub open spec fn verse_words(self, i: int) -> Seq<Seq<char>> {
        word_list(self.verses[i].1)
    }

    /// The verse number that is current while the mode is active.
    pub open spec fn current_verse(self) -> Option<i32> {
        if self.active && self.current_index < self.verses.len() {
            Some(self.verses[self.current_index as int].0)
        } else {
            None
        }
    }
}

/// The verses, among `vs`, whose number is at least `start`, in order.
pub open spec fn verses_from(vs: Seq<(i32, Seq<char>)>, start: i32) -> Seq<(i32, Seq<char>)>
    decreases vs.len(),
{
    if vs.len() == 0 {
        vs
    } else {
        let prev = verses_from(vs.drop_last(), start);
        if vs.last().0 >= start {
            prev.push(vs.last())
        } else {
            prev
        }
    }
}

/// The plain values of the `(verse_number, verse_text)` pairs handed to `start`.
pub open spec fn verse_pairs(vs: Seq<(i32, String)>) -> Seq<(i32, Seq<char>)> {
    vs.map_values(|p: (i32, String)| (p.0, p.1@))
}

/// The reference text of a verse: "Book chapter:verse".
pub open spec fn reference_text(book_name: Seq<char>, chapter: i32, verse: i32) -> Seq<char> {
    book_name + seq![' '] + decimal(chapter as int) + seq![':'] + decimal(verse as int)
}

/// The advance reported on moving to the `idx`-th loaded verse.
pub open spec fn advance_view(m: ReadingModeView, idx: int) -> ReadingAdvanceView {
    ReadingAdvanceView {
        book_number: m.book_number,
        book_name: m.book_name,
        chapter: m.chapter,
        verse: m.verses[idx].0,
        verse_text: m.verses[idx].1,
        reference: reference_text(m.book_name, m.chapter, m.verses[idx].0),
        confidence_permille: 1000,
    }
}

/// The state after moving to the `idx`-th loaded verse: the accumulated
/// transcript starts over.
pub open spec fn moved_to(m: ReadingModeView, idx: nat) -> ReadingModeView {
    ReadingModeView { current_index: idx, accumulated: Seq::empty(), ..m }
}

/// The state after starting at `start_verse` with the `(number, text)` pairs
/// `vs`: active at the first of the verses numbered from `start_verse` on,
/// or unchanged when there is none.
pub open spec fn started(
    m: ReadingModeView,
    book_number: i32,
    book_name: Seq<char>,
    chapter: i32,
    start_verse: i32,
    vs: Seq<(i32, Seq<char>)>,
) -> ReadingModeView {
    let loaded = verses_from(vs, start_verse);
    if loaded.len() == 0 {
        m
    } else {
        ReadingModeView {
            active: true,
            book_number,
            book_name,
            chapter,
            current_index: 0,
            verses: loaded,
            accumulated: Seq::empty(),
        }
    }
}

/// The state after resuming: active again at the same verse, when verses are
/// loaded.
pub open spec fn resumed(m: ReadingModeView) -> ReadingModeView {
    if m.verses.len() > 0 {
        ReadingModeView { active: true, ..m }
    } else {
        m
    }
}

/// The state after deactivating: inactive, with no verses and no accumulated
/// transcript.
pub open spec fn deactivated(m: ReadingModeView) -> ReadingModeView {
    ReadingModeView { active: false, verses: Seq::empty(), accumulated: Seq::empty(), ..m }
}

/// Whether an utterance is a "next" command.
pub open spec fn is_next_command(t: Seq<char>) -> bool {
    t == "next"@ || t == "next."@ || t == "next verse"@ || t == "next verse."@
}

/// Whether an utterance is a "previous" command.
pub open spec fn is_previous_command(t: Seq<char>) -> bool {
    t == "previous verse"@ || t == "previous verse."@ || t == "go back"@ || t == "go back."@
}

/// The index of the first loaded verse, from `i` on, whose number is `n`.
pub open spec fn find_verse_from(vs: Seq<(i32, Seq<char>)>, n: int, i: nat) -> Option<nat>
    decreases vs.len() - i,
{
    if i >= vs.len() {
        None
    } else if vs[i as int].0 == n {
        Some(i)
    } else {
        find_verse_from(vs, n, i + 1)
    }
}

/// An utterance with repeated "verse verse " and "verses verses " collapsed.
pub open spec fn without_stutter(t: Seq<char>) -> Seq<char> {
    replace_all(replace_all(t, "verse verse "@, "verse "@), "verses verses "@, "verses "@)
}

/// The verse that a navigation command in the transcript `t` moves to:
/// "next", "previous", or a verse number of the loaded passage.
pub open spec fn command_target(m: ReadingModeView, t: Seq<char>) -> Option<nat> {
    let said = trim(spec_to_lowercase(t));
    if is_next_command(said) {
        if m.current_index + 1 < m.verses.len() {
            Some(m.current_index + 1)
        } else {
            None
        }
    } else if is_previous_command(said) {
        if m.current_index > 0 {
            Some((m.current_index - 1) as nat)
        } else {
            None
        }
    } else {
        match verse_number_in(without_stutter(said)) {
            Some(n) => find_verse_from(m.verses, n, 0),
            None => None,
        }
    }
}

/// Whether the lowercase of an all-ASCII utterance `t` is known to be its
/// ASCII lowercase (it is, once `t` has been lowercased).
pub open spec fn ascii_lowercase_known(t: Seq<char>) -> bool {
    is_ascii_text(t) ==> spec_to_lowercase(t) == t.map_values(|c: char| ascii_lowercase(c))
}

/// The accumulated transcript after hearing `t`.
pub open spec fn appended(acc: Seq<char>, t: Seq<char>) -> Seq<char> {
    if acc.len() == 0 {
        t
    } else {
        acc + seq![' '] + t
    }
}

/// The verse that the accumulated transcript `acc` shows the reader to have
/// reached: the next verse when both the current and the next are matched, or
/// when the current is not matched, the next or else the one after it.
pub open spec fn match_target(m: ReadingModeView, acc: Seq<char>) -> Option<nat> {
    let tw = word_list(acc);
    let ci = m.current_index;
    let has_next = ci + 1 < m.verses.len();
    let has_skip = ci + 2 < m.verses.len();
    if overlap_reached(tw, m.verse_words(ci as int)) {
        if has_next && overlap_reached(tw, m.verse_words((ci + 1) as int)) {
            Some(ci + 1)
        } else {
            None
        }
    } else if has_next && overlap_reached(tw, m.verse_words((ci + 1) as int)) {
        Some(ci + 1)
    } else if has_skip && overlap_reached(tw, m.verse_words((ci + 2) as int)) {
        Some(ci + 2)
    } else {
        None
    }
}

/// One transcript fragment `t` heard in state `m`, `timed_out` telling whether
/// the timeout has passed since the last match: the new state, the advance
/// reported, and whether the match timer restarts.
pub open spec fn transcript_step(m: ReadingModeView, t: Seq<char>, timed_out: bool) -> (
    ReadingModeView,
    Option<ReadingAdvanceView>,
    bool,
) {
    if !m.active || m.verses.len() == 0 {
        (m, None, false)
    } else {
        match command_target(m, t) {
            Some(idx) => (
                ReadingModeView { active: true, ..moved_to(m, idx) },
                Some(advance_view(m, idx as int)),
                true,
            ),
            None => if timed_out {
                (ReadingModeView { active: false, ..m }, None, false)
            } else {
                let acc = appended(m.accumulated, t);
                match match_target(m, acc) {
                    Some(idx) => (moved_to(m, idx), Some(advance_view(m, idx as int)), true),
                    None => (
                        ReadingModeView { accumulated: acc, ..m },
                        None,
                        overlap_reached(word_list(acc), m.verse_words(m.current_index as int)),
                    ),
                }
            },
        }
    }
}

/// The state of a newly created reading mode.
pub open spec fn initial_mode() -> ReadingModeView {
    ReadingModeView {
        active: false,
        book_number: 0,
        book_name: Seq::empty(),
        chapter: 0,
        current_index: 0,
        verses: Seq::empty(),
        accumulated: Seq::empty(),
    }
}

/// A call that changes a reading mode, by its plain arguments: `start`,
/// `resume`, `deactivate`, and a transcript fragment, which
/// `check_transcript` hears with or without the timeout having passed.
pub enum ReadingCall {
    Start {
        book_number: i32,
        book_name: Seq<char>,
        chapter: i32,
        start_verse: i32,
        verses: Seq<(i32, Seq<char>)>,
    },
    Resume,
    Deactivate,
    Transcript { text: Seq<char>, timed_out: bool },
}

/// The state after the call `c` in state `m`.
pub open spec fn after_call(m: ReadingModeView, c: ReadingCall) -> ReadingModeView {
    match c {
        ReadingCall::Start { book_number, book_name, chapter, start_verse, verses } => started(
            m,
            book_number,
            book_name,
            chapter,
            start_verse,
            verses,
        ),
        ReadingCall::Resume => resumed(m),
        ReadingCall::Deactivate => deactivated(m),
        ReadingCall::Transcript { text, timed_out } => transcript_step(m, text, timed_out).0,
    }
}

/// The state after the calls `cs`, in order, starting in state `m`.
pub open spec fn after_calls(m: ReadingModeView, cs: Seq<ReadingCall>) -> ReadingModeView
    decreases cs.len(),
{
    if cs.len() == 0 {
        m
    } else {
        after_call(after_calls(m, cs.drop_last()), cs.last())
    }
}

/// Tracks the current reading position and matches transcripts against
/// expected verse text to auto-advance through a passage.
///
/// Activated when direct detection catches a verse reference. Pre-loads the
/// remaining verses in the chapter. On each transcript, compares word overlap
/// against the current and next verse to detect advancement.
pub struct ReadingMode {
    active: bool,
    book_number: i32,
    book_name: String,
    chapter: i32,
    /// Index into `verses` for the current verse being read.
    current_index: usize,
    /// All verses from the starting verse to end of chapter.
    verses: Vec<LoadedVerse>,
    /// Last time a verse match was found.
    last_match_time: Instant,
    /// Accumulated transcript text since last advance.
    accumulated_text: Vec<char>,
}

impl View for ReadingMode {
    type V = ReadingModeView;

    closed spec fn view(&self) -> ReadingModeView {
        ReadingModeView {
            active: self.active,
            book_number: self.book_number,
            book_name: self.book_name@,
            chapter: self.chapter,
            current_index: self.current_index as nat,
            verses: self.verses@.map_values(|v: LoadedVerse| (v.verse_number, v.text@)),
            accumulated: self.accumulated_text@,
        }
    }
}

impl ReadingMode {
    /// Well-formedness: each loaded verse holds the word set of its text, and
    /// the state invariant holds.
    pub closed spec fn wf(&self) -> bool {
        &&& forall|i: int|
            0 <= i < self.verses@.len() ==> {
                &&& views(#[trigger] self.verses@[i].words@) == word_list(self.verses@[i].text@)
                &&& self.verses@[i].word_count == self.verses@[i].words@.len()
            }
        &&& self@.valid()
    }

    /// A well-formed mode satisfies the state invariant.
    pub proof fn lemma_wf_valid(&self)
        requires
            self.wf(),
        ensures
            self@.valid(),
    {
    }

    /// The clock reading of the last verse match, from which the timeout is
    /// measured.
    pub closed spec fn match_timer(&self) -> Instant {
        self.last_match_time
    }

    /// Creates an inactive reading mode.
    pub fn new() -> (r: Self)
        ensures
            r.wf(),
            r@ == initial_mode(),
    {
        let r = ReadingMode {
            active: false,
            book_number: 0,
            book_name: String::new(),
            chapter: 0,
            current_index: 0,
            verses: Vec::new(),
            last_match_time: instant_now(),
            accumulated_text: Vec::new(),
        };
        assert(r@.verses =~= Seq::<(i32, Seq<char>)>::empty());
        r
    }

    /// Activates reading mode starting from the given verse.
    ///
    /// `verses` are `(verse_number, verse_text)` pairs; those numbered below
    /// `start_verse` are dropped. When none is left, nothing changes.
    pub fn start(
        &mut self,
        book_number: i32,
        book_name: &str,
        chapter: i32,
        start_verse: i32,
        verses: Vec<(i32, String)>,
    )
        requires
            old(self).wf(),
        ensures
            final(self).wf(),
            final(self)@ == started(
                old(self)@,
                book_number,
                book_name@,
                chapter,
                start_verse,
                verse_pairs(verses@),
            ),
            verses_from(verse_pairs(verses@), start_verse).len() == 0 ==> final(self).match_timer()
                == old(self).match_timer(),
    {
        let ghost input = verse_pairs(verses@);
        let mut loaded: Vec<LoadedVerse> = Vec::new();
        let mut i: usize = 0;
        while i < verses.len()
            invariant
                i <= verses@.len(),
                input == verse_pairs(verses@),
                loaded@.map_values(|v: LoadedVerse| (v.verse_number, v.text@)) == verses_from(
                    input.take(i as int),
                    start_verse,
                ),
                forall|j: int|
                    0 <= j < loaded@.len() ==> {
                        &&& views(#[trigger] loaded@[j].words@) == word_list(loaded@[j].text@)
                        &&& loaded@[j].word_count == loaded@[j].words@.len()
                    },
            decreases verses@.len() - i,
        {
            assert(input.take(i + 1).drop_last() =~= input.take(i as int));
            assert(input.take(i + 1).last() == (verses@[i as int].0, verses@[i as int].1@));
            let v = verses[i].0;
            if v >= start_verse {
                let text = verses[i].1.clone();
                let text_chars = chars_of(text.as_str());
                let words = word_list_of_chars(&text_chars);
                let word_count = words.len();
                let ghost old_loaded = loaded@;
                loaded.push(LoadedVerse { verse_number: v, text, words, word_count });
                assert(loaded@.map_values(|v: LoadedVerse| (v.verse_number, v.text@))
                    =~= old_loaded.map_values(|v: LoadedVerse| (v.verse_number, v.text@)).push(
                    (v, verses@[i as int].1@),
                ));
            }
            i = i + 1;
        }
        assert(input.take(verses@.len() as int) =~= input);
        if loaded.len() == 0 {
            return;
        }
        self.active = true;
        self.book_number = book_number;
        self.book_name = String::from_str(book_name);
        self.chapter = chapter;
        self.current_index = 0;
        self.verses = loaded;
        self.last_match_time = instant_now();
        self.accumulated_text = Vec::new();
        assert(self.accumulated_text@ =~= Seq::<char>::empty());
    }

    /// Whether reading mode is currently active.
    pub fn is_active(&self) -> (r: bool)
        ensures
            r == self@.active,
    {
        self.active
    }

    /// Whether verses are still loaded (paused but resumable).
    pub fn has_verses(&self) -> (r: bool)
        ensures
            r == (self@.verses.len() > 0),
    {
        self.verses.len() > 0
    }

    /// Resumes from the current position when verses are loaded.
    pub fn resume(&mut self)
        requires
            old(self).wf(),
        ensures
            final(self).wf(),
            final(self)@ == resumed(old(self)@),
            old(self)@.verses.len() == 0 ==> final(self).match_timer() == old(self).match_timer(),
    {
        if self.verses.len() > 0 {
            self.active = true;
            self.last_match_time = instant_now();
        }
    }

    /// The book number being tracked.
    pub fn current_book(&self) -> (r: i32)
        ensures
            r == self@.book_number,
    {
        self.book_number
    }

    /// The chapter being tracked.
    pub fn current_chapter(&self) -> (r: i32)
        ensures
            r == self@.chapter,
    {
        self.chapter
    }

    /// The current verse number while active.
    pub fn current_verse(&self) -> (r: Option<i32>)
        requires
            self.wf(),
        ensures
            r == self@.current_verse(),
    {
        if self.active {
            Some(self.verses[self.current_index].verse_number)
        } else {
            None
        }
    }

    /// Fully deactivates reading mode and clears all loaded verses.
    pub fn deactivate(&mut self)
        requires
            old(self).wf(),
        ensures
            final(self).wf(),
            final(self)@ == deactivated(old(self)@),
            final(self).match_timer() == old(self).match_timer(),
    {
        self.active = false;
        self.verses.clear();
        self.accumulated_text.clear();
        assert(self@.verses =~= Seq::<(i32, Seq<char>)>::empty());
        assert(self.accumulated_text@ =~= Seq::<char>::empty());
    }

    /// The verse number of the `i`-th loaded verse.
    proof fn lemma_verse_at(&self, i: int)
        requires
            self.wf(),
            0 <= i < self@.verses.len(),
        ensures
            self@.verses[i].0 == self.verses@[i].verse_number,
            self@.verses[i].1 == self.verses@[i].text@,
            self@.verse_words(i) == views(self.verses@[i].words@),
            self.verses@[i].word_count == self.verses@[i].words@.len(),
    {
    }

    /// Whether the transcript words `tw` reach the overlap of the `i`-th verse.
    fn verse_matched(&self, tw: &Vec<Vec<char>>, i: usize) -> (r: bool)
        requires
            self.wf(),
            i < self@.verses.len(),
        ensures
            r == overlap_reached(views(tw@), self@.verse_words(i as int)),
    {
        proof {
            self.lemma_verse_at(i as int);
        }
        let verse = &self.verses[i];
        let shared = word_overlap(tw, &verse.words, verse.word_count);
        meets_min_overlap(shared, verse.word_count)
    }

    /// Moves to the `index`-th loaded verse and reports the advance.
    fn advance_to(&mut self, index: usize) -> (r: Option<ReadingAdvance>)
        requires
            old(self).wf(),
        ensures
            final(self).wf(),
            index < old(self)@.verses.len() ==> {
                &&& final(self)@ == moved_to(old(self)@, index as nat)
                &&& advance_view_of(r) == Some(advance_view(old(self)@, index as int))
            },
            final(self).match_timer() == old(self).match_timer(),
            index >= old(self)@.verses.len() ==> r is None && *final(self) == *old(self),
    {
        if index >= self.verses.len() {
            return None;
        }
        proof {
            self.lemma_verse_at(index as int);
        }
        let verse_number = self.verses[index].verse_number;
        let verse_text = self.verses[index].text.clone();
        self.current_index = index;
        self.accumulated_text = Vec::new();
        let mut reference = chars_of(self.book_name.as_str());
        reference.push(' ');
        push_decimal(&mut reference, self.chapter as i64);
        reference.push(':');
        push_decimal(&mut reference, verse_number as i64);
        assert(self.accumulated_text@ =~= Seq::<char>::empty());
        assert(reference@ =~= reference_text(self.book_name@, self.chapter, verse_number));
        Some(
            ReadingAdvance {
                book_number: self.book_number,
                book_name: self.book_name.clone(),
                chapter: self.chapter,
                verse: verse_number,
                verse_text,
                reference: string_from_chars(&reference),
                confidence_permille: 1000,
            },
        )
    }

    /// The index of the first loaded verse numbered `n`.
    fn find_verse(&self, n: i32) -> (r: Option<usize>)
        requires
            self.wf(),
        ensures
            match find_verse_from(self@.verses, n as int, 0) {
                Some(i) => r is Some && r->0 as nat == i,
                None => r is None,
            },
            r is Some ==> r->0 < self@.verses.len(),
    {
        let mut i: usize = 0;
        while i < self.verses.len()
            invariant
                self.wf(),
                i <= self@.verses.len(),
                find_verse_from(self@.verses, n as int, i as nat) == find_verse_from(
                    self@.verses,
                    n as int,
                    0,
                ),
            decreases self@.verses.len() - i,
        {
            proof {
                self.lemma_verse_at(i as int);
            }
            if self.verses[i].verse_number == n {
                return Some(i);
            }
            i = i + 1;
        }
        None
    }

    /// The verse that a navigation command in `text` moves to.
    fn command_target_exec(&self, text: &str) -> (r: Option<usize>)
        requires
            self.wf(),
            self@.verses.len() > 0,
        ensures
            match command_target(self@, text@) {
                Some(i) => r is Some && r->0 as nat == i && i < self@.verses.len(),
                None => r is None,
            },
            ascii_lowercase_known(text@),
    {
        proof {
            self.lemma_wf_valid();
        }
        let lower = str_to_lowercase(text);
        let lower_chars = chars_of(lower.as_str());
        let said = trim_chars(&lower_chars);
        if chars_eq_str(&said, "next") || chars_eq_str(&said, "next.") || chars_eq_str(
            &said,
            "next verse",
        ) || chars_eq_str(&said, "next verse.") {
            if self.verses.len() - self.current_index > 1 {
                return Some(self.current_index + 1);
            }
            return None;
        }
        if chars_eq_str(&said, "previous verse") || chars_eq_str(&said, "previous verse.")
            || chars_eq_str(&said, "go back") || chars_eq_str(&said, "go back.") {
            if self.current_index > 0 {
                return Some(self.current_index - 1);
            }
            return None;
        }
        let doubled = chars_of("verse verse ");
        let single = chars_of("verse ");
        let doubled_plural = chars_of("verses verses ");
        let single_plural = chars_of("verses ");
        proof {
            reveal_strlit("verse verse ");
            reveal_strlit("verses verses ");
        }
        let once = replace_chars(&said, &doubled, &single);
        let cleaned = replace_chars(&once, &doubled_plural, &single_plural);
        match verse_number_in_chars(&cleaned) {
            Some(n) => {
                proof {
                    lemma_verse_number_range(cleaned@);
                    lemma_find_verse_in_range(self@.verses, n as int, 0);
                }
                self.find_verse(n)
            },
            None => None,
        }
    }

    /// Checks the transcript for a navigation command ("verse three", "next",
    /// "go back") and moves to the verse it names.
    fn check_verse_number_reference(&mut self, text: &str) -> (r: Option<ReadingAdvance>)
        requires
            old(self).wf(),
            old(self)@.verses.len() > 0,
        ensures
            final(self).wf(),
            match command_target(old(self)@, text@) {
                Some(idx) => final(self)@ == moved_to(old(self)@, idx) && advance_view_of(r)
                    == Some(advance_view(old(self)@, idx as int)),
                None => final(self)@ == old(self)@ && r is None,
            },
            final(self).match_timer() == old(self).match_timer(),
            ascii_lowercase_known(text@),
    {
        let target = self.command_target_exec(text);
        match target {
            Some(idx) => {
                assert(command_target(old(self)@, text@) == Some(idx as nat));
                self.advance_to(idx)
            },
            None => {
                assert(command_target(old(self)@, text@) is None);
                None
            },
        }
    }

    /// Processes a transcript fragment, `elapsed_ms` being the time since the
    /// last verse match. Returns the advance, if the reader moved to another
    /// verse, and whether the match timer restarts.
    pub fn check_transcript_elapsed(&mut self, text: &str, elapsed_ms: u128) -> (r: (
        Option<ReadingAdvance>,
        bool,
    ))
        requires
            old(self).wf(),
        ensures
            final(self).wf(),
            ({
                let step = transcript_step(
                    old(self)@,
                    text@,
                    elapsed_ms > READING_MODE_TIMEOUT_MS,
                );
                &&& final(self)@ == step.0
                &&& advance_view_of(r.0) == step.1
                &&& r.1 == step.2
            }),
            final(self).match_timer() == old(self).match_timer(),
            old(self)@.active && old(self)@.verses.len() > 0 ==> ascii_lowercase_known(text@),
    {
        if !self.active || self.verses.len() == 0 {
            return (None, false);
        }
        let ghost m = self@;
        if elapsed_ms > READING_MODE_TIMEOUT_MS {
            self.active = false;
        }
        let ghost paused = self@;
        assert(command_target(paused, text@) == command_target(m, text@));
        if let Some(advance) = self.check_verse_number_reference(text) {
            self.active = true;
            return (Some(advance), true);
        }
        if !self.active {
            return (None, false);
        }
        if self.accumulated_text.len() > 0 {
            self.accumulated_text.push(' ');
        }
        let text_chars = chars_of(text);
        let mut k: usize = 0;
        let ghost before = self.accumulated_text@;
        let ghost timer = self.last_match_time;
        while k < text_chars.len()
            invariant
                self.wf(),
                self.last_match_time == timer,
                self@ == (ReadingModeView { accumulated: self@.accumulated, ..m }),
                k <= text_chars@.len(),
                self.accumulated_text@ == before + text_chars@.take(k as int),
            decreases text_chars@.len() - k,
        {
            self.accumulated_text.push(text_chars[k]);
            assert(text_chars@.take(k + 1) =~= text_chars@.take(k as int).push(text_chars@[k as int]));
            k = k + 1;
        }
        assert(text_chars@.take(text_chars@.len() as int) =~= text_chars@);
        assert(self.accumulated_text@ =~= appended(m.accumulated, text@));
        let tw = word_list_of_chars(&self.accumulated_text);
        let ci = self.current_index;
        let len = self.verses.len();
        proof {
            self.lemma_wf_valid();
        }
        if self.verse_matched(&tw, ci) {
            if len - ci > 1 && self.verse_matched(&tw, ci + 1) {
                return (self.advance_to(ci + 1), true);
            }
            return (None, true);
        }
        if len - ci > 1 && self.verse_matched(&tw, ci + 1) {
            return (self.advance_to(ci + 1), true);
        }
        if len - ci > 2 && self.verse_matched(&tw, ci + 2) {
            return (self.advance_to(ci + 2), true);
        }
        (None, false)
    }

    /// Processes a transcript fragment and checks whether the reader has
    /// advanced: `Some` with the new verse when the reader moved, `None` when
    /// still on the current verse or nothing matched. Pauses after the
    /// timeout without a match; the verses stay loaded.
    pub fn check_transcript(&mut self, text: &str) -> (r: Option<ReadingAdvance>)
        requires
            old(self).wf(),
        ensures
            final(self).wf(),
            ({
                let step = transcript_step(old(self)@, text@, false);
                &&& final(self)@ == step.0
                &&& advance_view_of(r) == step.1
                &&& !step.2 ==> final(self).match_timer() == old(self).match_timer()
            }) || ({
                let step = transcript_step(old(self)@, text@, true);
                &&& final(self)@ == step.0
                &&& advance_view_of(r) == step.1
                &&& !step.2 ==> final(self).match_timer() == old(self).match_timer()
            }),
            old(self)@.active && old(self)@.verses.len() > 0 ==> ascii_lowercase_known(text@),
    {
        let elapsed = instant_elapsed(&self.last_match_time);
        let elapsed_ms = duration_as_millis(&elapsed);
        let now = instant_now();
        self.check_transcript_at(text, elapsed_ms, now)
    }

    /// Processes a transcript fragment as `check_transcript` does, with
    /// `elapsed_ms` the time since the last verse match and `now` the clock
    /// reading that becomes the match timer when the step restarts it.
    pub fn check_transcript_at(&mut self, text: &str, elapsed_ms: u128, now: Instant) -> (r:
        Option<ReadingAdvance>)
        requires
            old(self).wf(),
        ensures
            final(self).wf(),
            ({
                let step = transcript_step(
                    old(self)@,
                    text@,
                    elapsed_ms > READING_MODE_TIMEOUT_MS,
                );
                &&& final(self)@ == step.0
                &&& advance_view_of(r) == step.1
                &&& step.2 ==> final(self).match_timer() == now
                &&& !step.2 ==> final(self).match_timer() == old(self).match_timer()
            }),
            old(self)@.active && old(self)@.verses.len() > 0 ==> ascii_lowercase_known(text@),
    {
        let (advance, restart_timer) = self.check_transcript_elapsed(text, elapsed_ms);
        if restart_timer {
            self.last_match_time = now;
        }
        advance
    }
}

impl Default for ReadingMode {
    fn default() -> (r: Self)
        ensures
            r.wf(),
            r@ == initial_mode(),
    {
        Self::new()
    }
}


// ---------------------------------------------------------------------------
// Laws
// ---------------------------------------------------------------------------

proof fn lemma_distinct_clean_words(ws: Seq<Seq<char>>)
    ensures
        distinct_clean_words(ws).no_duplicates(),
        forall|i: int|
            0 <= i < distinct_clean_words(ws).len() ==> utf8_len(
                #[trigger] distinct_clean_words(ws)[i],
            ) >= 2,
    decreases ws.len(),
{
    if ws.len() > 0 {
        lemma_distinct_clean_words(ws.drop_last());
        let prev = distinct_clean_words(ws.drop_last());
        let c = clean_word(ws.last());
        if utf8_len(c) >= 2 && !prev.contains(c) {
            let next = prev.push(c);
            assert forall|i: int, j: int| 0 <= i < next.len() && 0 <= j < next.len() && i != j implies next[i]
                != next[j] by {
                if i == prev.len() as int {
                    assert(prev[j] == next[j]);
                } else if j == prev.len() as int {
                    assert(prev[i] == next[i]);
                }
            }
            assert forall|i: int| 0 <= i < next.len() implies utf8_len(#[trigger] next[i]) >= 2 by {
                if i < prev.len() {
                    assert(next[i] == prev[i]);
                }
            }
        }
    }
}

/// The word set of a text holds each word once, and no word under two bytes.
pub proof fn law_word_list_is_a_set(text: Seq<char>)
    ensures
        word_list(text).no_duplicates(),
        forall|i: int| 0 <= i < word_list(text).len() ==> utf8_len(#[trigger] word_list(text)[i]) >= 2,
{
    lemma_distinct_clean_words(words(text));
}

proof fn lemma_shared_count_all(vs: Seq<Seq<char>>, ts: Seq<Seq<char>>)
    requires
        forall|i: int| 0 <= i < vs.len() ==> ts.contains(#[trigger] vs[i]),
    ensures
        shared_count(vs, ts) == vs.len(),
    decreases vs.len(),
{
    if vs.len() > 0 {
        assert forall|i: int| 0 <= i < vs.drop_last().len() implies ts.contains(
            #[trigger] vs.drop_last()[i],
        ) by {
            assert(vs.drop_last()[i] == vs[i]);
        }
        lemma_shared_count_all(vs.drop_last(), ts);
        assert(ts.contains(vs[vs.len() - 1]));
    }
}

/// Overlap never exceeds the number of verse words.
pub proof fn law_shared_count_bounded(vs: Seq<Seq<char>>, ts: Seq<Seq<char>>)
    ensures
        shared_count(vs, ts) <= vs.len(),
    decreases vs.len(),
{
    if vs.len() > 0 {
        law_shared_count_bounded(vs.drop_last(), ts);
    }
}

/// A transcript that says a verse's text matches that verse, when the verse
/// has words.
pub proof fn law_verse_text_matches_itself(text: Seq<char>)
    requires
        word_list(text).len() > 0,
    ensures
        overlap_reached(word_list(text), word_list(text)),
{
    let ws = word_list(text);
    assert forall|i: int| 0 <= i < ws.len() implies ws.contains(#[trigger] ws[i]) by {}
    lemma_shared_count_all(ws, ws);
}

/// A mode that is not active ignores every transcript: nothing changes and
/// nothing is reported.
pub proof fn law_inactive_ignores_transcripts(m: ReadingModeView, t: Seq<char>, timed_out: bool)
    requires
        !m.active,
    ensures
        transcript_step(m, t, timed_out) == (m, None::<ReadingAdvanceView>, false),
{
}

/// A deactivated mode stays inactive: resuming does nothing, transcripts are
/// ignored, and no verse is current.
pub proof fn law_deactivated_stays_inactive(m: ReadingModeView, t: Seq<char>, timed_out: bool)
    ensures
        ({
            let d = deactivated(m);
            &&& !d.active
            &&& d.verses.len() == 0
            &&& d.current_verse() is None
            &&& resumed(d) == d
            &&& transcript_step(d, t, timed_out) == (d, None::<ReadingAdvanceView>, false)
        }),
{
}

proof fn lemma_targets_in_range(m: ReadingModeView, t: Seq<char>)
    requires
        m.valid(),
        m.verses.len() > 0,
    ensures
        command_target(m, t) matches Some(i) ==> i < m.verses.len(),
        match_target(m, appended(m.accumulated, t)) matches Some(i) ==> i < m.verses.len()
            && (i == m.current_index + 1 || i == m.current_index + 2),
{
    let said = trim(spec_to_lowercase(t));
    if !is_next_command(said) && !is_previous_command(said) {
        match verse_number_in(without_stutter(said)) {
            Some(n) => lemma_find_verse_in_range(m.verses, n, 0),
            None => {},
        }
    }
}

/// Every transcript step keeps the state invariant.
pub proof fn law_step_keeps_valid(m: ReadingModeView, t: Seq<char>, timed_out: bool)
    requires
        m.valid(),
    ensures
        transcript_step(m, t, timed_out).0.valid(),
{
    if m.active && m.verses.len() > 0 {
        lemma_targets_in_range(m, t);
    }
}

/// When an advance is reported, the mode is active at the reported verse, the
/// advance carries that verse's text and its "Book chapter:verse" reference,
/// and the accumulated transcript starts over. Without an advance the
/// position does not move.
pub proof fn law_advance_reports_new_position(m: ReadingModeView, t: Seq<char>, timed_out: bool)
    requires
        m.valid(),
    ensures
        ({
            let (n, a, _) = transcript_step(m, t, timed_out);
            match a {
                Some(a) => {
                    &&& n.active
                    &&& n.current_verse() == Some(a.verse)
                    &&& a.verse_text == n.verses[n.current_index as int].1
                    &&& a.reference == reference_text(m.book_name, m.chapter, a.verse)
                    &&& a.book_number == m.book_number
                    &&& a.chapter == m.chapter
                    &&& a.confidence_permille == 1000
                    &&& n.accumulated.len() == 0
                    &&& n.verses == m.verses
                },
                None => n.current_index == m.current_index && n.verses == m.verses,
            }
        }),
{
    if m.active && m.verses.len() > 0 {
        lemma_targets_in_range(m, t);
    }
}

/// Without a navigation command, matching only moves reading forward, by one
/// verse or, when one was skipped, by two.
pub proof fn law_matching_moves_forward(m: ReadingModeView, t: Seq<char>, timed_out: bool)
    requires
        m.valid(),
        command_target(m, t) is None,
    ensures
        transcript_step(m, t, timed_out).1 is Some ==> {
            let i = transcript_step(m, t, timed_out).0.current_index;
            i == m.current_index + 1 || i == m.current_index + 2
        },
{
    if m.active && m.verses.len() > 0 {
        lemma_targets_in_range(m, t);
    }
}

/// A timeout pauses reading without losing the position: the verses stay
/// loaded, and resuming returns to the verse that was current.
pub proof fn law_timeout_pauses_resumably(m: ReadingModeView, t: Seq<char>)
    requires
        m.valid(),
        m.active,
        command_target(m, t) is None,
    ensures
        ({
            let (n, a, restart) = transcript_step(m, t, true);
            &&& !n.active
            &&& a is None
            &&& !restart
            &&& n.verses == m.verses
            &&& resumed(n) == m
            &&& resumed(n).current_verse() == m.current_verse()
        }),
{
}

/// A "verse N" command naming a loaded verse moves to the first loaded verse
/// with that number, even after a timeout.
pub proof fn law_verse_command_jumps(m: ReadingModeView, t: Seq<char>, timed_out: bool, n: int)
    requires
        m.valid(),
        m.active,
        !is_next_command(trim(spec_to_lowercase(t))),
        !is_previous_command(trim(spec_to_lowercase(t))),
        verse_number_in(without_stutter(trim(spec_to_lowercase(t)))) == Some(n),
        find_verse_from(m.verses, n, 0) is Some,
    ensures
        ({
            let (s, a, restart) = transcript_step(m, t, timed_out);
            &&& s.active
            &&& s.current_verse() == Some(n as i32)
            &&& a matches Some(adv) && adv.verse == n
            &&& restart
        }),
{
    lemma_find_verse_in_range(m.verses, n, 0);
    lemma_verse_number_range(without_stutter(trim(spec_to_lowercase(t))));
}

/// Starting keeps exactly the verses numbered at or after the start verse, in
/// their order.
pub proof fn law_start_keeps_later_verses(vs: Seq<(i32, Seq<char>)>, start: i32)
    ensures
        forall|i: int|
            0 <= i < verses_from(vs, start).len() ==> (#[trigger] verses_from(vs, start)[i]).0
                >= start && vs.contains(verses_from(vs, start)[i]),
        forall|i: int| 0 <= i < vs.len() && (#[trigger] vs[i]).0 >= start ==> verses_from(
            vs,
            start,
        ).contains(vs[i]),
    decreases vs.len(),
{
    if vs.len() > 0 {
        let init = vs.drop_last();
        law_start_keeps_later_verses(init, start);
        let prev = verses_from(init, start);
        let cur = verses_from(vs, start);
        assert forall|i: int| 0 <= i < cur.len() implies (#[trigger] cur[i]).0 >= start
            && vs.contains(cur[i]) by {
            if i < prev.len() {
                assert(cur[i] == prev[i]);
                let j = choose|j: int| 0 <= j < init.len() && init[j] == prev[i];
                assert(vs[j] == init[j]);
            } else {
                assert(vs[vs.len() - 1] == cur[i]);
            }
        }
        assert forall|i: int| 0 <= i < vs.len() && (#[trigger] vs[i]).0 >= start implies cur.contains(
            vs[i],
        ) by {
            if i < init.len() {
                assert(init[i] == vs[i]);
                let j = choose|j: int| 0 <= j < prev.len() && prev[j] == init[i];
                assert(cur[j] == prev[j]);
            } else {
                assert(cur[cur.len() - 1] == vs[i]);
            }
        }
    }
}

/// Every call keeps the state invariant: an active mode has verses loaded
/// and the current index points at one of them.
pub proof fn law_calls_keep_valid(m: ReadingModeView, c: ReadingCall)
    requires
        m.valid(),
    ensures
        after_call(m, c).valid(),
{
    if let ReadingCall::Transcript { text, timed_out } = c {
        law_step_keeps_valid(m, text, timed_out);
    }
}

/// Every state reached from a new reading mode by any sequence of calls is
/// valid: in particular, while active it has verses loaded.
pub proof fn law_reachable_states_valid(cs: Seq<ReadingCall>)
    ensures
        after_calls(initial_mode(), cs).valid(),
        after_calls(initial_mode(), cs).active ==> after_calls(initial_mode(), cs).verses.len() > 0,
    decreases cs.len(),
{
    if cs.len() > 0 {
        law_reachable_states_valid(cs.drop_last());
        law_calls_keep_valid(after_calls(initial_mode(), cs.drop_last()), cs.last());
    }
}

/// An inactive mode becomes active only by starting with verses to load or
/// by resuming with verses loaded; a transcript never activates it.
pub proof fn law_activation_needs_start_or_resume(m: ReadingModeView, c: ReadingCall)
    requires
        !m.active,
        after_call(m, c).active,
    ensures
        (c matches ReadingCall::Start { start_verse, verses, .. } && verses_from(
            verses,
            start_verse,
        ).len() > 0) || (c is Resume && m.verses.len() > 0),
{
}

/// An active mode stops being active only when deactivated, or when a
/// transcript arrives after the timeout without a navigation command.
pub proof fn law_pause_needs_deactivate_or_timeout(m: ReadingModeView, c: ReadingCall)
    requires
        m.valid(),
        m.active,
        !after_call(m, c).active,
    ensures
        c is Deactivate || (c matches ReadingCall::Transcript { text, timed_out } && timed_out
            && command_target(m, text) is None),
{
}

/// The loaded verses change only by starting with verses to load, which
/// loads exactly those, or by deactivating, which clears them. So verses
/// appear only through such a start and vanish only through deactivation.
pub proof fn law_verses_change_by_start_or_deactivate(m: ReadingModeView, c: ReadingCall)
    requires
        after_call(m, c).verses != m.verses,
    ensures
        (c matches ReadingCall::Start { start_verse, verses, .. } && verses_from(
            verses,
            start_verse,
        ).len() > 0 && after_call(m, c).verses == verses_from(verses, start_verse)) || (
        c is Deactivate && after_call(m, c).verses.len() == 0),
        m.verses.len() > 0 && after_call(m, c).verses.len() == 0 ==> c is Deactivate,
        m.verses.len() == 0 && after_call(m, c).verses.len() > 0 ==> c is Start,
{
}

/// A word is among the distinct cleaned words of `ws` exactly when it is the
/// cleaned form, of at least two bytes, of one of them.
proof fn lemma_distinct_clean_words_contains(ws: Seq<Seq<char>>, x: Seq<char>)
    ensures
        distinct_clean_words(ws).contains(x) <==> exists|i: int|
            0 <= i < ws.len() && clean_word(#[trigger] ws[i]) == x && utf8_len(x) >= 2,
    decreases ws.len(),
{
    if ws.len() > 0 {
        let init = ws.drop_last();
        lemma_distinct_clean_words_contains(init, x);
        let prev = distinct_clean_words(init);
        let c = clean_word(ws.last());
        if distinct_clean_words(ws).contains(x) {
            if prev.contains(x) {
                let i = choose|i: int|
                    0 <= i < init.len() && clean_word(#[trigger] init[i]) == x && utf8_len(x) >= 2;
                assert(ws[i] == init[i]);
            } else {
                let k = choose|k: int|
                    0 <= k < distinct_clean_words(ws).len() && distinct_clean_words(ws)[k] == x;
                assert(distinct_clean_words(ws) == prev.push(c));
                assert(k == prev.len());
                assert(clean_word(ws[ws.len() - 1]) == x);
            }
        }
        if exists|i: int| 0 <= i < ws.len() && clean_word(#[trigger] ws[i]) == x && utf8_len(x) >= 2 {
            let i = choose|i: int| 0 <= i < ws.len() && clean_word(#[trigger] ws[i]) == x && utf8_len(x) >= 2;
            if i < init.len() {
                assert(init[i] == ws[i]);
                assert(prev.contains(x));
                if !(distinct_clean_words(ws) == prev) {
                    assert(distinct_clean_words(ws) == prev.push(c));
                    let k = choose|k: int| 0 <= k < prev.len() && prev[k] == x;
                    assert(distinct_clean_words(ws)[k] == x);
                }
            } else {
                assert(c == x);
                if !prev.contains(x) {
                    assert(distinct_clean_words(ws) == prev.push(c));
                    assert(distinct_clean_words(ws)[prev.len() as int] == x);
                }
            }
        }
    }
}

/// The word set of two texts joined by a space is the union of their word
/// sets: the word set ignores word order and repetition.
pub proof fn law_word_set_of_joined_texts(a: Seq<char>, b: Seq<char>)
    ensures
        word_list(a + seq![' '] + b).to_set() == word_list(a).to_set().union(
            word_list(b).to_set(),
        ),
{
    lemma_words_of_joined(a, b);
    let wa = words(a);
    let wb = words(b);
    let w = words(a + seq![' '] + b);
    assert forall|x: Seq<char>| word_list(a + seq![' '] + b).contains(x) <==> (word_list(
        a,
    ).contains(x) || word_list(b).contains(x)) by {
        lemma_distinct_clean_words_contains(w, x);
        lemma_distinct_clean_words_contains(wa, x);
        lemma_distinct_clean_words_contains(wb, x);
        if exists|i: int| 0 <= i < w.len() && clean_word(#[trigger] w[i]) == x && utf8_len(x) >= 2 {
            let i = choose|i: int| 0 <= i < w.len() && clean_word(#[trigger] w[i]) == x && utf8_len(x) >= 2;
            if i < wa.len() {
                assert(w[i] == wa[i]);
            } else {
                assert(w[i] == wb[i - wa.len()]);
            }
        }
        if exists|i: int| 0 <= i < wa.len() && clean_word(#[trigger] wa[i]) == x && utf8_len(x) >= 2 {
            let i = choose|i: int| 0 <= i < wa.len() && clean_word(#[trigger] wa[i]) == x && utf8_len(x) >= 2;
            assert(w[i] == wa[i]);
        }
        if exists|i: int| 0 <= i < wb.len() && clean_word(#[trigger] wb[i]) == x && utf8_len(x) >= 2 {
            let i = choose|i: int| 0 <= i < wb.len() && clean_word(#[trigger] wb[i]) == x && utf8_len(x) >= 2;
            assert(w[i + wa.len()] == wb[i]);
        }
    }
    assert(word_list(a + seq![' '] + b).to_set() =~= word_list(a).to_set().union(
        word_list(b).to_set(),
    ));
}

/// Without a navigation command and before the timeout, an active mode
/// follows the reader by word overlap with the accumulated transcript: when
/// the current and the next verse both reach the overlap it moves to the
/// next; when only the current does it stays and restarts the timer; when
/// the current does not but the next does (the reader moved on without the
/// current being caught) it moves to the next; when neither does but the one
/// after does (a verse was skipped) it moves two on; otherwise it stays and
/// keeps the transcript.
pub proof fn law_overlap_moves_the_reader(m: ReadingModeView, t: Seq<char>)
    requires
        m.valid(),
        m.active,
        command_target(m, t) is None,
    ensures
        ({
            let acc = appended(m.accumulated, t);
            let tw = word_list(acc);
            let ci = m.current_index;
            let cur = overlap_reached(tw, m.verse_words(ci as int));
            let next = ci + 1 < m.verses.len() && overlap_reached(tw, m.verse_words(ci + 1 as int));
            let skip = ci + 2 < m.verses.len() && overlap_reached(tw, m.verse_words(ci + 2 as int));
            let step = transcript_step(m, t, false);
            let stay = ReadingModeView { accumulated: acc, ..m };
            &&& cur && next ==> step == (moved_to(m, (ci + 1) as nat), Some(advance_view(m, ci + 1 as int)), true)
            &&& cur && !next ==> step == (stay, None::<ReadingAdvanceView>, true)
            &&& !cur && next ==> step == (moved_to(m, (ci + 1) as nat), Some(advance_view(m, ci + 1 as int)), true)
            &&& !cur && !next && skip ==> step == (
                moved_to(m, (ci + 2) as nat),
                Some(advance_view(m, ci + 2 as int)),
                true,
            )
            &&& !cur && !next && !skip ==> step == (stay, None::<ReadingAdvanceView>, false)
        }),
{
}

/// "previous verse" and "go back" (with or without a final dot, in any case,
/// with surrounding white space) move an active mode one verse back and
/// report that verse, even after the timeout; at the first verse they do
/// nothing of their own. "next" and "next verse" likewise move one verse on,
/// unless at the last verse.
pub proof fn law_navigation_commands(m: ReadingModeView, t: Seq<char>, timed_out: bool)
    requires
        m.valid(),
        m.active,
    ensures
        ({
            let said = trim(spec_to_lowercase(t));
            let ci = m.current_index;
            let back = said == "previous verse"@ || said == "previous verse."@ || said
                == "go back"@ || said == "go back."@;
            let on = said == "next"@ || said == "next."@ || said == "next verse"@ || said
                == "next verse."@;
            &&& back && ci > 0 ==> transcript_step(m, t, timed_out) == (
                ReadingModeView { active: true, ..moved_to(m, (ci - 1) as nat) },
                Some(advance_view(m, ci - 1 as int)),
                true,
            )
            &&& back && ci == 0 ==> command_target(m, t) is None
            &&& on && ci + 1 < m.verses.len() ==> transcript_step(m, t, timed_out) == (
                ReadingModeView { active: true, ..moved_to(m, (ci + 1) as nat) },
                Some(advance_view(m, ci + 1 as int)),
                true,
            )
            &&& on && ci + 1 >= m.verses.len() ==> command_target(m, t) is None
        }),
{
    reveal_strlit("previous verse");
    reveal_strlit("previous verse.");
    reveal_strlit("go back");
    reveal_strlit("go back.");
    reveal_strlit("next");
    reveal_strlit("next.");
    reveal_strlit("next verse");
    reveal_strlit("next verse.");
}

/// The English word for the numbers one to twenty, the tens from thirty to
/// ninety, and a hundred; empty for other numbers.
pub open spec fn number_word(n: int) -> Seq<char> {
    if n == 1 {
        "one"@
    } else if n == 2 {
        "two"@
    } else if n == 3 {
        "three"@
    } else if n == 4 {
        "four"@
    } else if n == 5 {
        "five"@
    } else if n == 6 {
        "six"@
    } else if n == 7 {
        "seven"@
    } else if n == 8 {
        "eight"@
    } else if n == 9 {
        "nine"@
    } else if n == 10 {
        "ten"@
    } else if n == 11 {
        "eleven"@
    } else if n == 12 {
        "twelve"@
    } else if n == 13 {
        "thirteen"@
    } else if n == 14 {
        "fourteen"@
    } else if n == 15 {
        "fifteen"@
    } else if n == 16 {
        "sixteen"@
    } else if n == 17 {
        "seventeen"@
    } else if n == 18 {
        "eighteen"@
    } else if n == 19 {
        "nineteen"@
    } else if n == 20 {
        "twenty"@
    } else if n == 30 {
        "thirty"@
    } else if n == 40 {
        "forty"@
    } else if n == 50 {
        "fifty"@
    } else if n == 60 {
        "sixty"@
    } else if n == 70 {
        "seventy"@
    } else if n == 80 {
        "eighty"@
    } else if n == 90 {
        "ninety"@
    } else if n == 100 {
        "hundred"@
    } else {
        Seq::empty()
    }
}

/// Whether `n` is a number that has a spoken word: one to twenty, a ten from
/// thirty to ninety, or a hundred.
pub open spec fn is_spoken_value(n: int) -> bool {
    (1 <= n <= 20) || (30 <= n <= 90 && n % 10 == 0) || n == 100
}

/// Whether `w` is made of lowercase ASCII letters only.
pub open spec fn lowercase_letters(w: Seq<char>) -> bool {
    forall|i: int| 0 <= i < w.len() ==> 'a' <= #[trigger] w[i] <= 'z'
}


/// Every spoken number word is a word of lowercase letters.
proof fn lemma_number_words_are_letters(n: int)
    requires
        is_spoken_value(n),
    ensures
        number_word(n).len() > 0,
        lowercase_letters(number_word(n)),
{
    reveal_strlit("one");
    reveal_strlit("two");
    reveal_strlit("three");
    reveal_strlit("four");
    reveal_strlit("five");
    reveal_strlit("six");
    reveal_strlit("seven");
    reveal_strlit("eight");
    reveal_strlit("nine");
    reveal_strlit("ten");
    reveal_strlit("eleven");
    reveal_strlit("twelve");
    reveal_strlit("thirteen");
    reveal_strlit("fourteen");
    reveal_strlit("fifteen");
    reveal_strlit("sixteen");
    reveal_strlit("seventeen");
    reveal_strlit("eighteen");
    reveal_strlit("nineteen");
    reveal_strlit("twenty");
    reveal_strlit("thirty");
    reveal_strlit("forty");
    reveal_strlit("fifty");
    reveal_strlit("sixty");
    reveal_strlit("seventy");
    reveal_strlit("eighty");
    reveal_strlit("ninety");
    reveal_strlit("hundred");
}

/// Each spoken number word names its number, and a word names a number only
/// when it is that number's word: "seven" names 7, "ninety" names 90.
pub proof fn law_spoken_words_name_their_numbers(n: int, w: Seq<char>)
    ensures
        is_spoken_value(n) ==> spoken_number(number_word(n)) == Some(n),
        spoken_number(w) matches Some(v) ==> is_spoken_value(v) && w == number_word(v),
{
    reveal_strlit("one");
    reveal_strlit("two");
    reveal_strlit("three");
    reveal_strlit("four");
    reveal_strlit("five");
    reveal_strlit("six");
    reveal_strlit("seven");
    reveal_strlit("eight");
    reveal_strlit("nine");
    reveal_strlit("ten");
    reveal_strlit("eleven");
    reveal_strlit("twelve");
    reveal_strlit("thirteen");
    reveal_strlit("fourteen");
    reveal_strlit("fifteen");
    reveal_strlit("sixteen");
    reveal_strlit("seventeen");
    reveal_strlit("eighteen");
    reveal_strlit("nineteen");
    reveal_strlit("twenty");
    reveal_strlit("thirty");
    reveal_strlit("forty");
    reveal_strlit("fifty");
    reveal_strlit("sixty");
    reveal_strlit("seventy");
    reveal_strlit("eighty");
    reveal_strlit("ninety");
    reveal_strlit("hundred");
    assert("one"@.len() == 3);
    assert("two"@.len() == 3);
    assert("three"@.len() == 5);
    assert("four"@.len() == 4);
    assert("five"@.len() == 4);
    assert("six"@.len() == 3);
    assert("seven"@.len() == 5);
    assert("eight"@.len() == 5);
    assert("nine"@.len() == 4);
    assert("ten"@.len() == 3);
    assert("eleven"@.len() == 6);
    assert("twelve"@.len() == 6);
    assert("thirteen"@.len() == 8);
    assert("fourteen"@.len() == 8);
    assert("fifteen"@.len() == 7);
    assert("sixteen"@.len() == 7);
    assert("seventeen"@.len() == 9);
    assert("eighteen"@.len() == 8);
    assert("nineteen"@.len() == 8);
    assert("twenty"@.len() == 6);
    assert("thirty"@.len() == 6);
    assert("forty"@.len() == 5);
    assert("fifty"@.len() == 5);
    assert("sixty"@.len() == 5);
    assert("seventy"@.len() == 7);
    assert("eighty"@.len() == 6);
    assert("ninety"@.len() == 6);
    assert("hundred"@.len() == 7);
    if is_spoken_value(n) {
        if n == 1 {
            assert(spoken_number("one"@) == Some(1int));
        }
        if n == 2 {
            assert("two"@[0] != "one"@[0]);
            assert(spoken_number("two"@) == Some(2int));
        }
        if n == 3 {
            assert(spoken_number("three"@) == Some(3int));
        }
        if n == 4 {
            assert(spoken_number("four"@) == Some(4int));
        }
        if n == 5 {
            assert("five"@[1] != "four"@[1]);
            assert(spoken_number("five"@) == Some(5int));
        }
        if n == 6 {
            assert("six"@[0] != "one"@[0]);
            assert("six"@[0] != "two"@[0]);
            assert(spoken_number("six"@) == Some(6int));
        }
        if n == 7 {
            assert("seven"@[0] != "three"@[0]);
            assert(spoken_number("seven"@) == Some(7int));
        }
        if n == 8 {
            assert("eight"@[0] != "three"@[0]);
            assert("eight"@[0] != "seven"@[0]);
            assert(spoken_number("eight"@) == Some(8int));
        }
        if n == 9 {
            assert("nine"@[0] != "four"@[0]);
            assert("nine"@[0] != "five"@[0]);
            assert(spoken_number("nine"@) == Some(9int));
        }
        if n == 10 {
            assert("ten"@[0] != "one"@[0]);
            assert("ten"@[1] != "two"@[1]);
            assert("ten"@[0] != "six"@[0]);
            assert(spoken_number("ten"@) == Some(10int));
        }
        if n == 11 {
            assert(spoken_number("eleven"@) == Some(11int));
        }
        if n == 12 {
            assert("twelve"@[0] != "eleven"@[0]);
            assert(spoken_number("twelve"@) == Some(12int));
        }
        if n == 13 {
            assert(spoken_number("thirteen"@) == Some(13int));
        }
        if n == 14 {
            assert("fourteen"@[0] != "thirteen"@[0]);
            assert(spoken_number("fourteen"@) == Some(14int));
        }
        if n == 15 {
            assert(spoken_number("fifteen"@) == Some(15int));
        }
        if n == 16 {
            assert("sixteen"@[0] != "fifteen"@[0]);
            assert(spoken_number("sixteen"@) == Some(16int));
        }
        if n == 17 {
            assert(spoken_number("seventeen"@) == Some(17int));
        }
        if n == 18 {
            assert("eighteen"@[0] != "thirteen"@[0]);
            assert("eighteen"@[0] != "fourteen"@[0]);
            assert(spoken_number("eighteen"@) == Some(18int));
        }
        if n == 19 {
            assert("nineteen"@[0] != "thirteen"@[0]);
            assert("nineteen"@[0] != "fourteen"@[0]);
            assert("nineteen"@[0] != "eighteen"@[0]);
            assert(spoken_number("nineteen"@) == Some(19int));
        }
        if n == 20 {
            assert("twenty"@[0] != "eleven"@[0]);
            assert("twenty"@[3] != "twelve"@[3]);
            assert(spoken_number("twenty"@) == Some(20int));
        }
        if n == 30 {
            assert("thirty"@[0] != "eleven"@[0]);
            assert("thirty"@[1] != "twelve"@[1]);
            assert("thirty"@[1] != "twenty"@[1]);
            assert(spoken_number("thirty"@) == Some(30int));
        }
        if n == 40 {
            assert("forty"@[0] != "three"@[0]);
            assert("forty"@[0] != "seven"@[0]);
            assert("forty"@[0] != "eight"@[0]);
            assert(spoken_number("forty"@) == Some(40int));
        }
        if n == 50 {
            assert("fifty"@[0] != "three"@[0]);
            assert("fifty"@[0] != "seven"@[0]);
            assert("fifty"@[0] != "eight"@[0]);
            assert("fifty"@[1] != "forty"@[1]);
            assert(spoken_number("fifty"@) == Some(50int));
        }
        if n == 60 {
            assert("sixty"@[0] != "three"@[0]);
            assert("sixty"@[1] != "seven"@[1]);
            assert("sixty"@[0] != "eight"@[0]);
            assert("sixty"@[0] != "forty"@[0]);
            assert("sixty"@[0] != "fifty"@[0]);
            assert(spoken_number("sixty"@) == Some(60int));
        }
        if n == 70 {
            assert("seventy"@[0] != "fifteen"@[0]);
            assert("seventy"@[1] != "sixteen"@[1]);
            assert(spoken_number("seventy"@) == Some(70int));
        }
        if n == 80 {
            assert("eighty"@[1] != "eleven"@[1]);
            assert("eighty"@[0] != "twelve"@[0]);
            assert("eighty"@[0] != "twenty"@[0]);
            assert("eighty"@[0] != "thirty"@[0]);
            assert(spoken_number("eighty"@) == Some(80int));
        }
        if n == 90 {
            assert("ninety"@[0] != "eleven"@[0]);
            assert("ninety"@[0] != "twelve"@[0]);
            assert("ninety"@[0] != "twenty"@[0]);
            assert("ninety"@[0] != "thirty"@[0]);
            assert("ninety"@[0] != "eighty"@[0]);
            assert(spoken_number("ninety"@) == Some(90int));
        }
        if n == 100 {
            assert("hundred"@[0] != "fifteen"@[0]);
            assert("hundred"@[0] != "sixteen"@[0]);
            assert("hundred"@[0] != "seventy"@[0]);
            assert(spoken_number("hundred"@) == Some(100int));
        }
    }
}

/// A word of lowercase letters opens with its whole self as its alphabetic
/// run.
proof fn lemma_letters_are_one_run(w: Seq<char>)
    requires
        lowercase_letters(w),
    ensures
        alphabetic_run_len(w) == w.len(),
    decreases w.len(),
{
    if w.len() > 0 {
        assert(lowercase_letters(w.drop_first())) by {
            assert forall|i: int| 0 <= i < w.drop_first().len() implies 'a' <= #[trigger] w.drop_first()[i]
                <= 'z' by {
                assert(w.drop_first()[i] == w[i + 1]);
            }
        }
        lemma_letters_are_one_run(w.drop_first());
        assert('a' <= w[0] <= 'z');
    }
}

/// A nonempty word of lowercase letters is unchanged by trimming and by
/// dropping trailing dots, is no number, and is its own alphabetic prefix.
proof fn lemma_letters_word(w: Seq<char>)
    requires
        w.len() > 0,
        lowercase_letters(w),
    ensures
        trim(w) == w,
        trim_end_char(w, '.') == w,
        parse_in_range(w, MAX_VERSE_NUMBER as int) is None,
        alphabetic_prefix(w) == w,
{
    assert('a' <= w[0] <= 'z');
    assert('a' <= w[w.len() - 1] <= 'z');
    assert(trim_start(w) == w);
    assert(trim_end(w) == w);
    assert(w.skip(0) =~= w);
    assert(!is_digit(w[0]));
    lemma_letters_are_one_run(w);
    assert(w.take(w.len() as int) =~= w);
}

/// A word without spaces does not begin with a prefix that holds a space.
proof fn lemma_no_space_lacks_prefix(w: Seq<char>, p: Seq<char>, k: int)
    requires
        forall|i: int| 0 <= i < w.len() ==> #[trigger] w[i] != ' ',
        0 <= k < p.len(),
        p[k] == ' ',
    ensures
        strip_prefix(w, p) is None,
{
    if has_prefix(w, p) {
        assert(w.take(p.len() as int)[k] == w[k]);
    }
}

/// "verse" followed by a spoken number word, and the spoken number word on
/// its own, name that word's number: "verse seven" and "seven" name 7.
pub proof fn law_spoken_verse_numbers(n: int)
    requires
        is_spoken_value(n),
    ensures
        verse_number_in("verse "@ + number_word(n)) == Some(n),
        verse_number_in(number_word(n)) == Some(n),
{
    let w = number_word(n);
    law_spoken_words_name_their_numbers(n, w);
    lemma_number_words_are_letters(n);
    lemma_letters_word(w);
    reveal_strlit("verse ");
    reveal_strlit("verses ");
    reveal_strlit("first ");
    let t = "verse "@ + w;
    assert(t.take(6) =~= "verse "@);
    assert(t.skip(6) =~= w);
    assert(strip_prefix(t, "verse "@) == Some(w));
    assert(number_after_prefix(t, "verse "@) == Some(n));
    assert forall|i: int| 0 <= i < w.len() implies #[trigger] w[i] != ' ' by {
        assert('a' <= w[i] <= 'z');
    }
    lemma_no_space_lacks_prefix(w, "verse "@, 5);
    lemma_no_space_lacks_prefix(w, "verses "@, 6);
    lemma_no_space_lacks_prefix(w, "first "@, 5);
}

/// "verse N" with N written in digits, and N on its own with or without a
/// final dot, name verse N for every N from 1 to 176.
pub proof fn law_verse_numbers_in_digits(n: int)
    requires
        1 <= n <= MAX_VERSE_NUMBER,
    ensures
        verse_number_in("verse "@ + decimal(n)) == Some(n),
        verse_number_in(decimal(n)) == Some(n),
        verse_number_in(decimal(n) + "."@) == Some(n),
{
    let w = decimal(n);
    lemma_decimal_digits(n as nat);
    law_decimal_parses_back(n);
    assert(is_digit(w[0]));
    assert(is_digit(w[w.len() - 1]));
    assert(trim_start(w) == w);
    assert(trim_end(w) == w);
    assert(trim_end_char(w, '.') == w);
    reveal_strlit("verse ");
    reveal_strlit("verses ");
    reveal_strlit("first ");
    reveal_strlit(".");
    let t = "verse "@ + w;
    assert(t.take(6) =~= "verse "@);
    assert(t.skip(6) =~= w);
    assert(strip_prefix(t, "verse "@) == Some(w));
    assert(number_after_prefix(t, "verse "@) == Some(n));
    assert forall|i: int| 0 <= i < w.len() implies #[trigger] w[i] != ' ' by {
        assert(is_digit(w[i]));
    }
    lemma_no_space_lacks_prefix(w, "verse "@, 5);
    lemma_no_space_lacks_prefix(w, "verses "@, 6);
    lemma_no_space_lacks_prefix(w, "first "@, 5);
    let d = w + "."@;
    assert(d.drop_last() =~= w);
    assert(trim_end_char(d, '.') == w);
    assert forall|i: int| 0 <= i < d.len() implies #[trigger] d[i] != ' ' by {
        if i < w.len() {
            assert(d[i] == w[i]);
        }
    }
    lemma_no_space_lacks_prefix(d, "verse "@, 5);
    lemma_no_space_lacks_prefix(d, "verses "@, 6);
    lemma_no_space_lacks_prefix(d, "first "@, 5);
}

} // verus!
