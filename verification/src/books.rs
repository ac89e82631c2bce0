use crate::text::{chars_of, string_from_chars, views};
use vstd::prelude::*;

verus! {

/// The number of books of the Bible.
pub const BOOK_COUNT: usize = 66;

/// The words of the name of the book with index `b` (book number `b + 1`),
/// in canonical order from Genesis to Revelation.
pub open spec fn book_words(b: int) -> Seq<Seq<char>> {
    if b == 0 {
        seq!["Genesis"@]
    } else if b == 1 {
        seq!["Exodus"@]
    } else if b == 2 {
        seq!["Leviticus"@]
    } else if b == 3 {
        seq!["Numbers"@]
    } else if b == 4 {
        seq!["Deuteronomy"@]
    } else if b == 5 {
        seq!["Joshua"@]
    } else if b == 6 {
        seq!["Judges"@]
    } else if b == 7 {
        seq!["Ruth"@]
    } else if b == 8 {
        seq!["1"@, "Samuel"@]
    } else if b == 9 {
        seq!["2"@, "Samuel"@]
    } else if b == 10 {
        seq!["1"@, "Kings"@]
    } else if b == 11 {
        seq!["2"@, "Kings"@]
    } else if b == 12 {
        seq!["1"@, "Chronicles"@]
    } else if b == 13 {
        seq!["2"@, "Chronicles"@]
    } else if b == 14 {
        seq!["Ezra"@]
    } else if b == 15 {
        seq!["Nehemiah"@]
    } else if b == 16 {
        seq!["Esther"@]
    } else if b == 17 {
        seq!["Job"@]
    } else if b == 18 {
        seq!["Psalms"@]
    } else if b == 19 {
        seq!["Proverbs"@]
    } else if b == 20 {
        seq!["Ecclesiastes"@]
    } else if b == 21 {
        seq!["Song"@, "of"@, "Solomon"@]
    } else if b == 22 {
        seq!["Isaiah"@]
    } else if b == 23 {
        seq!["Jeremiah"@]
    } else if b == 24 {
        seq!["Lamentations"@]
    } else if b == 25 {
        seq!["Ezekiel"@]
    } else if b == 26 {
        seq!["Daniel"@]
    } else if b == 27 {
        seq!["Hosea"@]
    } else if b == 28 {
        seq!["Joel"@]
    } else if b == 29 {
        seq!["Amos"@]
    } else if b == 30 {
        seq!["Obadiah"@]
    } else if b == 31 {
        seq!["Jonah"@]
    } else if b == 32 {
        seq!["Micah"@]
    } else if b == 33 {
        seq!["Nahum"@]
    } else if b == 34 {
        seq!["Habakkuk"@]
    } else if b == 35 {
        seq!["Zephaniah"@]
    } else if b == 36 {
        seq!["Haggai"@]
    } else if b == 37 {
        seq!["Zechariah"@]
    } else if b == 38 {
        seq!["Malachi"@]
    } else if b == 39 {
        seq!["Matthew"@]
    } else if b == 40 {
        seq!["Mark"@]
    } else if b == 41 {
        seq!["Luke"@]
    } else if b == 42 {
        seq!["John"@]
    } else if b == 43 {
        seq!["Acts"@]
    } else if b == 44 {
        seq!["Romans"@]
    } else if b == 45 {
        seq!["1"@, "Corinthians"@]
    } else if b == 46 {
        seq!["2"@, "Corinthians"@]
    } else if b == 47 {
        seq!["Galatians"@]
    } else if b == 48 {
        seq!["Ephesians"@]
    } else if b == 49 {
        seq!["Philippians"@]
    } else if b == 50 {
        seq!["Colossians"@]
    } else if b == 51 {
        seq!["1"@, "Thessalonians"@]
    } else if b == 52 {
        seq!["2"@, "Thessalonians"@]
    } else if b == 53 {
        seq!["1"@, "Timothy"@]
    } else if b == 54 {
        seq!["2"@, "Timothy"@]
    } else if b == 55 {
        seq!["Titus"@]
    } else if b == 56 {
        seq!["Philemon"@]
    } else if b == 57 {
        seq!["Hebrews"@]
    } else if b == 58 {
        seq!["James"@]
    } else if b == 59 {
        seq!["1"@, "Peter"@]
    } else if b == 60 {
        seq!["2"@, "Peter"@]
    } else if b == 61 {
        seq!["1"@, "John"@]
    } else if b == 62 {
        seq!["2"@, "John"@]
    } else if b == 63 {
        seq!["3"@, "John"@]
    } else if b == 64 {
        seq!["Jude"@]
    } else {
        seq!["Revelation"@]
    }
}

/// The words of the name of the book with index `b`.
pub fn book_words_of(b: usize) -> (r: Vec<Vec<char>>)
    requires
        b < BOOK_COUNT,
    ensures
        views(r@) == book_words(b as int),
{
    match b {
        0 => vec![chars_of("Genesis")],
        1 => vec![chars_of("Exodus")],
        2 => vec![chars_of("Leviticus")],
        3 => vec![chars_of("Numbers")],
        4 => vec![chars_of("Deuteronomy")],
        5 => vec![chars_of("Joshua")],
        6 => vec![chars_of("Judges")],
        7 => vec![chars_of("Ruth")],
        8 => vec![chars_of("1"), chars_of("Samuel")],
        9 => vec![chars_of("2"), chars_of("Samuel")],
        10 => vec![chars_of("1"), chars_of("Kings")],
        11 => vec![chars_of("2"), chars_of("Kings")],
        12 => vec![chars_of("1"), chars_of("Chronicles")],
        13 => vec![chars_of("2"), chars_of("Chronicles")],
        14 => vec![chars_of("Ezra")],
        15 => vec![chars_of("Nehemiah")],
        16 => vec![chars_of("Esther")],
        17 => vec![chars_of("Job")],
        18 => vec![chars_of("Psalms")],
        19 => vec![chars_of("Proverbs")],
        20 => vec![chars_of("Ecclesiastes")],
        21 => vec![chars_of("Song"), chars_of("of"), chars_of("Solomon")],
        22 => vec![chars_of("Isaiah")],
        23 => vec![chars_of("Jeremiah")],
        24 => vec![chars_of("Lamentations")],
        25 => vec![chars_of("Ezekiel")],
        26 => vec![chars_of("Daniel")],
        27 => vec![chars_of("Hosea")],
        28 => vec![chars_of("Joel")],
        29 => vec![chars_of("Amos")],
        30 => vec![chars_of("Obadiah")],
        31 => vec![chars_of("Jonah")],
        32 => vec![chars_of("Micah")],
        33 => vec![chars_of("Nahum")],
        34 => vec![chars_of("Habakkuk")],
        35 => vec![chars_of("Zephaniah")],
        36 => vec![chars_of("Haggai")],
        37 => vec![chars_of("Zechariah")],
        38 => vec![chars_of("Malachi")],
        39 => vec![chars_of("Matthew")],
        40 => vec![chars_of("Mark")],
        41 => vec![chars_of("Luke")],
        42 => vec![chars_of("John")],
        43 => vec![chars_of("Acts")],
        44 => vec![chars_of("Romans")],
        45 => vec![chars_of("1"), chars_of("Corinthians")],
        46 => vec![chars_of("2"), chars_of("Corinthians")],
        47 => vec![chars_of("Galatians")],
        48 => vec![chars_of("Ephesians")],
        49 => vec![chars_of("Philippians")],
        50 => vec![chars_of("Colossians")],
        51 => vec![chars_of("1"), chars_of("Thessalonians")],
        52 => vec![chars_of("2"), chars_of("Thessalonians")],
        53 => vec![chars_of("1"), chars_of("Timothy")],
        54 => vec![chars_of("2"), chars_of("Timothy")],
        55 => vec![chars_of("Titus")],
        56 => vec![chars_of("Philemon")],
        57 => vec![chars_of("Hebrews")],
        58 => vec![chars_of("James")],
        59 => vec![chars_of("1"), chars_of("Peter")],
        60 => vec![chars_of("2"), chars_of("Peter")],
        61 => vec![chars_of("1"), chars_of("John")],
        62 => vec![chars_of("2"), chars_of("John")],
        63 => vec![chars_of("3"), chars_of("John")],
        64 => vec![chars_of("Jude")],
        _ => vec![chars_of("Revelation")],
    }
}


/// Words joined by single spaces.
pub open spec fn join_words(ws: Seq<Seq<char>>) -> Seq<char>
    decreases ws.len(),
{
    if ws.len() == 0 {
        Seq::empty()
    } else if ws.len() == 1 {
        ws[0]
    } else {
        join_words(ws.drop_last()) + seq![' '] + ws.last()
    }
}

/// The name of the book with index `b`, such as "Song of Solomon".
pub open spec fn book_name(b: int) -> Seq<char> {
    join_words(book_words(b))
}

/// The name of the book with index `b`.
pub fn book_name_of(b: usize) -> (r: String)
    requires
        b < BOOK_COUNT,
    ensures
        r@ == book_name(b as int),
{
    let ws = book_words_of(b);
    let ghost wv = views(ws@);
    let mut out: Vec<char> = Vec::new();
    let mut i: usize = 0;
    while i < ws.len()
        invariant
            wv == views(ws@),
            i <= ws@.len(),
            out@ == join_words(wv.take(i as int)),
        decreases ws@.len() - i,
    {
        assert(wv.take(i + 1).drop_last() =~= wv.take(i as int));
        assert(wv.take(i + 1).last() == ws@[i as int]@);
        if i > 0 {
            out.push(' ');
        }
        let w = &ws[i];
        let ghost before = out@;
        let mut k: usize = 0;
        while k < w.len()
            invariant
                k <= w@.len(),
                out@ == before + w@.take(k as int),
            decreases w@.len() - k,
        {
            out.push(w[k]);
            assert(w@.take(k + 1) =~= w@.take(k as int).push(w@[k as int]));
            k = k + 1;
        }
        assert(w@.take(w@.len() as int) =~= w@);
        assert(i == 0 ==> wv.take(1) =~= seq![w@]);
        assert(i == 0 ==> before =~= Seq::<char>::empty());
        assert(out@ =~= join_words(wv.take(i + 1)));
        i = i + 1;
    }
    assert(wv.take(ws@.len() as int) =~= wv);
    string_from_chars(&out)
}

} // verus!
