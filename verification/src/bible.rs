use crate::text::{decimal, push_decimal, string_from_chars};
use vstd::prelude::*;

verus! {

/// The key under which cross references of a verse are stored:
/// "book:chapter:verse" in decimal.
pub open spec fn cross_reference_key_text(book_number: i32, chapter: i32, verse: i32) -> Seq<char> {
    decimal(book_number as int) + seq![':'] + decimal(chapter as int) + seq![':'] + decimal(
        verse as int,
    )
}

/// The key under which cross references of a verse are stored.
pub fn cross_reference_key(book_number: i32, chapter: i32, verse: i32) -> (r: String)
    ensures
        r@ == cross_reference_key_text(book_number, chapter, verse),
{
    let mut out: Vec<char> = Vec::new();
    push_decimal(&mut out, book_number as i64);
    out.push(':');
    push_decimal(&mut out, chapter as i64);
    out.push(':');
    push_decimal(&mut out, verse as i64);
    assert(out@ =~= cross_reference_key_text(book_number, chapter, verse));
    string_from_chars(&out)
}

} // verus!
