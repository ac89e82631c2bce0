use std::collections::HashSet;
use rhema::reading_mode::{
    extract_verse_number, meets_min_overlap, spoken_to_number, text_to_word_set, word_overlap,
    ReadingMode,
};

fn sample_verses() -> Vec<(i32, String)> {
    vec![
        (28, "For it seemed good to the Holy Ghost, and to us, to lay upon you no greater burden than these necessary things;".to_string()),
        (29, "That ye abstain from meats offered to idols, and from blood, and from things strangled, and from fornication: from which if ye keep yourselves, ye shall do well. Fare ye well.".to_string()),
        (30, "So when they were dismissed, they came to Antioch: and when they had gathered the multitude together, they delivered the epistle:".to_string()),
        (31, "Which when they had read, they rejoiced for the consolation.".to_string()),
    ]
}

#[test]
fn test_starts_inactive() {
    let rm = ReadingMode::new();
    assert!(!rm.is_active());
    assert!(rm.current_verse().is_none());
}

#[test]
fn test_start_activates() {
    let mut rm = ReadingMode::new();

    rm.start(44, "Acts", 15, 28, sample_verses());
    assert!(rm.is_active());
    assert_eq!(rm.current_verse(), Some(28));
}

#[test]
fn test_advance_on_next_verse_match() {
    let mut rm = ReadingMode::new();

    rm.start(44, "Acts", 15, 28, sample_verses());

    // Feed text matching verse 28
    let r = rm.check_transcript("it seemed good to the Holy Ghost and to us to lay upon you no greater burden than these necessary things");
    // Still on verse 28 — no advance yet
    assert!(r.is_none());

    // Feed text matching verse 29
    let r = rm.check_transcript("that ye abstain from meats offered to idols and from blood and from things strangled and from fornication");
    assert!(r.is_some());
    let advance = r.unwrap();
    assert_eq!(advance.verse, 29);
    assert_eq!(advance.reference, "Acts 15:29");
}

#[test]
fn test_deactivate() {
    let mut rm = ReadingMode::new();

    rm.start(44, "Acts", 15, 28, sample_verses());
    assert!(rm.is_active());
    rm.deactivate();
    assert!(!rm.is_active());
}

#[test]
fn test_no_match_returns_none() {
    let mut rm = ReadingMode::new();

    rm.start(44, "Acts", 15, 28, sample_verses());

    let r = rm.check_transcript("the weather is nice today and I like coffee");
    assert!(r.is_none());
}

#[test]
fn test_word_overlap_function() {
    let transcript = text_to_word_set("for it seemed good to the holy ghost");
    let verse = text_to_word_set("For it seemed good to the Holy Ghost, and to us, to lay upon you no greater burden than these necessary things;");
    let count = verse.len();
    let overlap = word_overlap(&transcript, &verse, count) as f64 / count as f64;
    assert!(overlap > 0.3); // At least some overlap
}

// ---------------------------------------------------------------------------

fn word(s: &str) -> Vec<char> {
    s.chars().collect()
}

#[test]
fn word_set_lowercases_strips_and_dedups() {
    let ws = text_to_word_set("The LORD, the lord; a I'm  x9 é");
    assert_eq!(ws, vec![word("the"), word("lord"), word("i'm"), word("x9"), word("é")]);
}

#[test]
fn word_overlap_counts_shared_words() {
    let t = text_to_word_set("alpha beta gamma");
    let v = text_to_word_set("alpha beta delta epsilon zeta");
    assert_eq!(word_overlap(&t, &v, v.len()), 2);
    assert!(meets_min_overlap(2, 5));
    assert!(!meets_min_overlap(1, 3));
    assert!(!meets_min_overlap(0, 0));
    assert_eq!(word_overlap(&t, &v, 0), 0);
}

#[test]
fn spoken_numbers() {
    assert_eq!(spoken_to_number("three"), Some(3));
    assert_eq!(spoken_to_number("fifty"), Some(50));
    assert_eq!(spoken_to_number("sixty"), Some(60));
    assert_eq!(spoken_to_number("seventy"), Some(70));
    assert_eq!(spoken_to_number("eighty"), Some(80));
    assert_eq!(spoken_to_number("ninety"), Some(90));
    assert_eq!(spoken_to_number("hundred"), Some(100));
    assert_eq!(spoken_to_number("Three"), None);
    assert_eq!(spoken_to_number("thousand"), None);
}

#[test]
fn verse_numbers_in_utterances() {
    assert_eq!(extract_verse_number("verse three"), Some(3));
    assert_eq!(extract_verse_number("verse 4."), Some(4));
    assert_eq!(extract_verse_number("verses 12"), Some(12));
    assert_eq!(extract_verse_number("first two"), Some(2));
    assert_eq!(extract_verse_number("3."), Some(3));
    assert_eq!(extract_verse_number("176"), Some(176));
    assert_eq!(extract_verse_number("177"), None);
    assert_eq!(extract_verse_number("0"), None);
    assert_eq!(extract_verse_number("-3"), None);
    assert_eq!(extract_verse_number("verse 99999999999999999999"), None);
    assert_eq!(extract_verse_number("verse twentyfive"), None);
    assert_eq!(extract_verse_number("hello"), None);
    assert_eq!(extract_verse_number("verse three4"), Some(3));
    assert_eq!(extract_verse_number("verse  7 ."), Some(7));
    assert_eq!(extract_verse_number("three."), Some(3));
    assert_eq!(extract_verse_number(" ninety "), Some(90));
    assert_eq!(extract_verse_number("verse hundred"), Some(100));
    assert_eq!(extract_verse_number("ten commandments"), None);
}

#[test]
fn navigation_commands_move_the_position() {
    let mut rm = ReadingMode::new();
    rm.start(44, "Acts", 15, 28, sample_verses());
    let r = rm.check_transcript("Next verse.").unwrap();
    assert_eq!(r.verse, 29);
    assert_eq!(r.reference, "Acts 15:29");
    assert_eq!(r.confidence_permille, 1000);
    let r = rm.check_transcript("  go back ").unwrap();
    assert_eq!(r.verse, 28);
    assert!(rm.check_transcript("go back").is_none());
    let r = rm.check_transcript("verse verse thirty").unwrap();
    assert_eq!(r.verse, 30);
    assert_eq!(r.verse_text, "So when they were dismissed, they came to Antioch: and when they had gathered the multitude together, they delivered the epistle:");
    assert_eq!(rm.current_verse(), Some(30));
    let r = rm.check_transcript("verse 28").unwrap();
    assert_eq!(r.verse, 28);
}

#[test]
fn start_drops_earlier_verses_and_ignores_empty() {
    let mut rm = ReadingMode::new();
    rm.start(44, "Acts", 15, 30, sample_verses());
    assert_eq!(rm.current_verse(), Some(30));
    assert_eq!(rm.current_book(), 44);
    assert_eq!(rm.current_chapter(), 15);
    rm.start(1, "Genesis", 1, 99, sample_verses());
    assert_eq!(rm.current_verse(), Some(30));
    assert_eq!(rm.current_book(), 44);
}

#[test]
fn timeout_pauses_and_resume_restores_position() {
    let mut rm = ReadingMode::new();
    rm.start(44, "Acts", 15, 28, sample_verses());
    let (r, restart) = rm.check_transcript_elapsed("the weather is nice", 180_001);
    assert!(r.is_none());
    assert!(!restart);
    assert!(!rm.is_active());
    assert!(rm.has_verses());
    assert!(rm.check_transcript("next").is_none());
    rm.resume();
    assert!(rm.is_active());
    assert_eq!(rm.current_verse(), Some(28));
    rm.deactivate();
    assert!(!rm.has_verses());
    rm.resume();
    assert!(!rm.is_active());
}

#[test]
fn command_after_timeout_reactivates() {
    let mut rm = ReadingMode::new();
    rm.start(44, "Acts", 15, 28, sample_verses());
    // Only the first number word counts: "thirty one" names verse 30.
    let (r, restart) = rm.check_transcript_elapsed("verse thirty one", 200_000);
    assert_eq!(r.unwrap().verse, 30);
    assert!(restart);
    assert!(rm.is_active());
}

#[test]
fn skipped_verse_is_detected() {
    let mut rm = ReadingMode::new();
    rm.start(44, "Acts", 15, 28, sample_verses());
    let (r, restart) = rm.check_transcript_elapsed(
        "so when they were dismissed they came to antioch and gathered the multitude",
        0,
    );
    assert_eq!(r.unwrap().verse, 30);
    assert!(restart);
}

#[test]
fn matching_current_verse_restarts_timer_without_advance() {
    let mut rm = ReadingMode::new();
    rm.start(44, "Acts", 15, 28, sample_verses());
    let (r, restart) = rm.check_transcript_elapsed(
        "it seemed good to the holy ghost and to us to lay upon you",
        10,
    );
    assert!(r.is_none());
    assert!(restart);
    assert_eq!(rm.current_verse(), Some(28));
}

#[test]
fn a_verse_text_matches_its_own_word_set() {
    let text = "Which when they had read, they rejoiced for the consolation.";
    let ws = text_to_word_set(text);
    let shared = word_overlap(&ws, &ws, ws.len());
    assert_eq!(shared, ws.len());
    assert!(meets_min_overlap(shared, ws.len()));
}

#[test]
fn deactivated_mode_ignores_transcripts() {
    let mut rm = ReadingMode::new();
    rm.start(44, "Acts", 15, 28, sample_verses());
    rm.deactivate();
    assert!(rm.check_transcript("verse 29").is_none());
    assert!(rm.current_verse().is_none());
    assert!(!rm.has_verses());
}

#[test]
fn bare_spoken_number_jumps_to_that_verse() {
    let mut rm = ReadingMode::new();
    rm.start(44, "Acts", 15, 28, sample_verses());
    let now = std::time::Instant::now();
    let r = rm.check_transcript_at("Thirty.", 0, now);
    let advance = r.unwrap();
    assert_eq!(advance.verse, 30);
    assert_eq!(advance.reference, "Acts 15:30");
    assert!(rm.check_transcript_at("verse sixty", 0, now).is_none());
    assert_eq!(rm.current_verse(), Some(30));
}

#[test]
fn timing_out_through_the_clock_variant_pauses() {
    let mut rm = ReadingMode::new();
    rm.start(44, "Acts", 15, 28, sample_verses());
    let now = std::time::Instant::now();
    assert!(rm.check_transcript_at("the weather is nice", 180_001, now).is_none());
    assert!(!rm.is_active());
    assert!(rm.has_verses());
    assert!(rm.check_transcript_at("next verse.", 0, now).is_none());
    rm.resume();
    let r = rm.check_transcript_at("next verse.", 500_000, now);
    assert_eq!(r.unwrap().verse, 29);
    assert!(rm.is_active());
    assert!(rm.check_transcript("for it seemed good").is_none());
    assert!(rm.is_active());
}

#[test]
fn word_set_of_joined_texts_is_the_union() {
    let a = "Love the LORD thy God, with all thy heart";
    let b = "and with all thy soul; love thy neighbour.";
    let joined: HashSet<Vec<char>> = text_to_word_set(&format!("{} {}", a, b)).into_iter().collect();
    let mut union: HashSet<Vec<char>> = text_to_word_set(a).into_iter().collect();
    union.extend(text_to_word_set(b));
    assert_eq!(joined, union);
    let reordered: HashSet<Vec<char>> = text_to_word_set(&format!("{} {}", b, a)).into_iter().collect();
    assert_eq!(joined, reordered);
    assert_eq!(text_to_word_set(&format!("{} {}", a, a)), text_to_word_set(a));
}

#[test]
fn uppercase_commands_are_lowercased() {
    let mut rm = ReadingMode::new();
    rm.start(44, "Acts", 15, 28, sample_verses());
    let advance = rm.check_transcript("  NEXT VERSE. ").unwrap();
    assert_eq!(advance.verse, 29);
    let back = rm.check_transcript("Go Back").unwrap();
    assert_eq!(back.verse, 28);
}
