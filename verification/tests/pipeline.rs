use rhema::detection::{
    Bm25Result, Detection, DetectionMerger, DetectionPipeline, DetectionSource, DirectDetector,
    SemanticDetector, VerseRef,
};

#[test]
fn test_pipeline_direct_only() {
    let mut pipeline = DetectionPipeline::new();
    let results = pipeline.process("Jesus said in John 3:16 that God loved the world", Vec::new());
    assert!(!results.is_empty());
    assert_eq!(results[0].detection.verse_ref.book_name, "John");
    assert_eq!(results[0].detection.verse_ref.chapter, 3);
    assert_eq!(results[0].detection.verse_ref.verse_start, 16);
}

#[test]
fn test_pipeline_no_match() {
    let mut pipeline = DetectionPipeline::new();
    let results = pipeline.process("The weather is nice today", Vec::new());
    assert!(results.is_empty());
}

#[test]
fn test_pipeline_multiple_references() {
    let mut pipeline = DetectionPipeline::new();
    let results =
        pipeline.process("Compare John 3:16 with Romans 5:8 for understanding God's love", Vec::new());
    assert_eq!(results.len(), 2);
}

#[test]
fn test_pipeline_semantic_not_ready_by_default() {
    let pipeline = DetectionPipeline::new();
    assert!(!pipeline.has_semantic());
}

#[test]
fn test_pipeline_auto_queue_for_direct() {
    let mut pipeline = DetectionPipeline::new();
    let results = pipeline.process("John 3:16", Vec::new());
    assert!(!results.is_empty());
    // Direct references have confidence >= 0.90 which is above the
    // default auto_queue_threshold (0.80), so should be auto-queued.
    assert!(results[0].auto_queued);
}

// ---------------------------------------------------------------------------

fn hit(book_number: i32, book_name: &str, chapter: i32, verse: i32) -> Bm25Result {
    Bm25Result { book_number, book_name: book_name.to_string(), chapter, verse }
}

#[test]
fn numbered_and_multi_word_books_are_found() {
    let mut pipeline = DetectionPipeline::new();
    let results = pipeline.process("read 1 john 4:8, then Song of Solomon 2:4-6. and john 3:16!", Vec::new());
    assert_eq!(results.len(), 3);
    let d = &results[0].detection;
    assert_eq!((d.verse_ref.book_number, d.verse_ref.book_name.as_str()), (62, "1 John"));
    assert_eq!((d.verse_ref.chapter, d.verse_ref.verse_start, d.verse_ref.verse_end), (4, 8, None));
    let d = &results[1].detection;
    assert_eq!((d.verse_ref.book_number, d.verse_ref.book_name.as_str()), (22, "Song of Solomon"));
    assert_eq!((d.verse_ref.chapter, d.verse_ref.verse_start, d.verse_ref.verse_end), (2, 4, Some(6)));
    assert_eq!(d.source, DetectionSource::Direct);
    assert_eq!(d.confidence_permille, 950);
    assert_eq!(results[2].detection.verse_ref.book_number, 43);
}

#[test]
fn repeated_reference_is_merged_once() {
    let mut pipeline = DetectionPipeline::new();
    let results = pipeline.process_direct("John 3:16 and again John 3:16");
    assert_eq!(results.len(), 1);
}

#[test]
fn raising_the_threshold_stops_auto_queue() {
    let mut pipeline = DetectionPipeline::new();
    pipeline.merger_mut().set_auto_queue_threshold_permille(960);
    // No cooldown, so that the same verse is reported on each call.
    pipeline.merger_mut().set_cooldown_ms(0);
    let results = pipeline.process("John 3:16", Vec::new());
    assert!(!results[0].auto_queued);
    pipeline.direct_mut().confidence_permille = 990;
    let results = pipeline.process("John 3:16", Vec::new());
    assert!(results[0].auto_queued);
}

#[test]
fn malformed_references_are_ignored() {
    let mut pipeline = DetectionPipeline::new();
    assert!(pipeline.process("John 3:0", Vec::new()).is_empty());
    assert!(pipeline.process("John 3", Vec::new()).is_empty());
    assert!(pipeline.process("Johnny 3:16", Vec::new()).is_empty());
    assert!(pipeline.process("John :16", Vec::new()).is_empty());
    assert!(pipeline.process("John 3:16-", Vec::new()).is_empty());
    assert!(pipeline.process("John 177:1", Vec::new()).is_empty());
    assert!(pipeline.process("John +3:16", Vec::new()).is_empty());
}

#[test]
fn semantic_only_finds_nothing_without_model() {
    let mut pipeline = DetectionPipeline::new();
    assert!(pipeline.process_semantic("one two three four five six", Vec::new()).is_empty());
    assert!(!pipeline.use_synonyms());
    pipeline.set_use_synonyms(true);
    assert!(pipeline.use_synonyms());
    assert!(pipeline.semantic_search("love", 5, vec![(1, 900)]).is_empty());
}

#[test]
fn hybrid_keeps_seven_ranks_with_decaying_confidence() {
    let mut pipeline = DetectionPipeline::new();
    let fts: Vec<Bm25Result> = (1..=9).map(|v| hit(43, "John", 3, v)).collect();
    let results = pipeline.process_hybrid_with_fts("God so loved", Vec::new(), &fts);
    assert_eq!(results.len(), 7);
    let confidences: Vec<u32> = results.iter().map(|m| m.detection.confidence_permille).collect();
    assert_eq!(confidences, vec![750, 710, 670, 630, 590, 550, 510]);
    assert_eq!(results[6].detection.source, DetectionSource::Semantic { similarity_permille: 510 });
    assert!(results.iter().all(|m| !m.auto_queued));
    assert_eq!(results[0].detection.transcript_snippet, "God so loved");
    assert!(pipeline.process_hybrid_with_fts("God so loved", Vec::new(), &[]).is_empty());
}

#[test]
fn hybrid_merges_duplicate_hits() {
    let mut pipeline = DetectionPipeline::new();
    let fts = vec![hit(43, "John", 3, 16), hit(43, "John", 3, 16), hit(45, "Romans", 5, 8)];
    let results = pipeline.process_hybrid_with_fts("love", Vec::new(), &fts);
    assert_eq!(results.len(), 2);
    // The verse hit twice is boosted from the higher of its two confidences.
    assert_eq!(results[0].detection.confidence_permille, 850);
    assert_eq!(results[1].detection.confidence_permille, 670);
}

#[test]
fn detections_carry_the_given_time() {
    let mut pipeline = DetectionPipeline::new();
    let results =
        pipeline.process_at("Compare John 3:16 with Romans 5:8", Vec::new(), 1_700_000_000_123);
    assert_eq!(results.len(), 2);
    assert!(results.iter().all(|m| m.detection.detected_at == 1_700_000_000_123));
    let mut pipeline = DetectionPipeline::new();
    let direct = pipeline.process_direct_at("John 3:16", 42);
    assert_eq!(direct.len(), 1);
    assert_eq!(direct[0].detection.detected_at, 42);
    let mut pipeline = DetectionPipeline::new();
    let fts = vec![hit(43, "John", 3, 16), hit(45, "Romans", 5, 8)];
    let hybrid = pipeline.process_hybrid_with_fts_at("love", Vec::new(), &fts, 7);
    assert_eq!(hybrid.len(), 2);
    assert!(hybrid.iter().all(|m| m.detection.detected_at == 7));
    let detector = DirectDetector::new();
    let found = detector.detect_at("Romans 8:28", 99);
    assert_eq!(found.len(), 1);
    assert_eq!(found[0].detected_at, 99);
}

#[test]
fn one_clock_reading_per_call() {
    let mut pipeline = DetectionPipeline::new();
    let results = pipeline.process("Compare John 3:16 with Romans 5:8 and Genesis 1:1", Vec::new());
    assert_eq!(results.len(), 3);
    assert!(results[0].detection.detected_at > 0);
    assert!(results.iter().all(|m| m.detection.detected_at == results[0].detection.detected_at));
    let fts: Vec<Bm25Result> = (1..=4).map(|v| hit(43, "John", 3, v)).collect();
    let hybrid = pipeline.process_hybrid_with_fts("words", Vec::new(), &fts);
    assert!(hybrid.iter().all(|m| m.detection.detected_at == hybrid[0].detection.detected_at));
}

fn vector_hit(verse: i32, similarity_permille: u32, at: u64) -> Detection {
    Detection {
        verse_ref: VerseRef {
            book_number: 43,
            book_name: "John".to_string(),
            chapter: 3,
            verse_start: verse,
            verse_end: None,
        },
        verse_id: Some(26_000 + verse as i64),
        confidence_permille: similarity_permille,
        source: DetectionSource::Semantic { similarity_permille },
        transcript_snippet: "for God so loved the world".to_string(),
        detected_at: at,
        is_chapter_only: false,
    }
}

#[test]
fn a_verse_within_the_cooldown_is_held_back() {
    let mut pipeline = DetectionPipeline::new();
    assert_eq!(pipeline.process_direct_at("John 3:16", 1_000).len(), 1);
    assert!(pipeline.process_direct_at("John 3:16", 1_000 + 29_999).is_empty());
    let other = pipeline.process_direct_at("John 3:16 and Romans 5:8", 1_000 + 29_999);
    assert_eq!(other.len(), 1);
    assert_eq!(other[0].detection.verse_ref.book_number, 45);
    assert_eq!(pipeline.process_direct_at("John 3:16", 1_000 + 30_000).len(), 1);
    assert!(pipeline.process_direct_at("John 3:16", 1_000 + 30_001).is_empty());
}

#[test]
fn merger_cooldown_can_be_configured() {
    let mut merger = DetectionMerger::new();
    assert_eq!(merger.cooldown_ms(), 30_000);
    assert_eq!(merger.auto_queue_threshold_permille(), 800);
    merger.set_cooldown_ms(5);
    let first = merger.merge(vec![vector_hit(16, 900, 10)], Vec::new());
    assert_eq!(first.len(), 1);
    assert!(first[0].auto_queued);
    assert!(merger.merge(vec![vector_hit(16, 900, 14)], Vec::new()).is_empty());
    assert_eq!(merger.merge(vec![vector_hit(16, 900, 15)], Vec::new()).len(), 1);
}

#[test]
fn semantic_detections_are_used_once_a_model_is_loaded() {
    let text = "for God so loved the world";
    let mut pipeline = DetectionPipeline::new();
    assert!(pipeline.process_semantic(text, vec![vector_hit(16, 820, 5)]).is_empty());
    pipeline.set_semantic(SemanticDetector::loaded());
    assert!(pipeline.has_semantic());
    assert!(pipeline.process_semantic("so loved", vec![vector_hit(16, 820, 5)]).is_empty());
    let results = pipeline.process_semantic(text, vec![vector_hit(16, 820, 5)]);
    assert_eq!(results.len(), 1);
    assert_eq!(results[0].detection.confidence_permille, 820);
    assert!(results[0].auto_queued);
    let mut pipeline = DetectionPipeline::new();
    pipeline.set_semantic(SemanticDetector::loaded());
    let results = pipeline.process_at("read John 3:16 for God so loved", vec![vector_hit(17, 700, 3)], 3);
    assert_eq!(results.len(), 2);
    assert_eq!(results[0].detection.source, DetectionSource::Direct);
    assert_eq!(results[1].detection.verse_ref.verse_start, 17);
    assert!(!results[1].auto_queued);
}

#[test]
fn found_by_both_searches_gets_a_boost() {
    let mut pipeline = DetectionPipeline::new();
    pipeline.set_semantic(SemanticDetector::loaded());
    let fts = vec![hit(43, "John", 3, 16), hit(45, "Romans", 5, 8)];
    let results = pipeline.process_hybrid_with_fts_at(
        "for God so loved the world",
        vec![vector_hit(16, 620, 50)],
        &fts,
        50,
    );
    assert_eq!(results.len(), 2);
    let john = &results[0].detection;
    assert_eq!(john.verse_ref.verse_start, 16);
    assert_eq!(john.confidence_permille, 850);
    assert_eq!(john.source, DetectionSource::Semantic { similarity_permille: 620 });
    assert!(results[0].auto_queued);
    assert_eq!(results[1].detection.confidence_permille, 710);
    let mut pipeline = DetectionPipeline::new();
    pipeline.set_semantic(SemanticDetector::loaded());
    let capped = pipeline.process_hybrid_with_fts_at(
        "for God so loved the world",
        vec![vector_hit(16, 960, 50)],
        &fts,
        50,
    );
    assert_eq!(capped[0].detection.confidence_permille, 1000);
}

#[test]
fn semantic_search_needs_a_model_and_keeps_k_hits() {
    let mut pipeline = DetectionPipeline::new();
    let hits = vec![(26_016, 910), (26_017, 880), (45_008, 700)];
    assert!(pipeline.semantic_search("love", 2, hits.clone()).is_empty());
    pipeline.set_semantic(SemanticDetector::loaded());
    assert_eq!(pipeline.semantic_search("love", 2, hits.clone()), vec![(26_016, 910), (26_017, 880)]);
    assert_eq!(pipeline.semantic_search("love", 9, hits.clone()), hits);
}
