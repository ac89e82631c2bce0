use crate::books::{book_name, book_name_of, BOOK_COUNT};
use crate::clock::unix_millis_now;
use crate::references::{find_references, reference_views, references_in, ReferenceView};
use crate::text::{chars_of, split_whitespace, string_from_chars, words};
use vstd::prelude::*;

verus! {

/// Direct references are detected with this confidence, in thousandths.
pub const DIRECT_CONFIDENCE_PERMILLE: u32 = 950;

/// Detections at or above this confidence, in thousandths, are queued
/// automatically unless the merger is configured otherwise.
pub const DEFAULT_AUTO_QUEUE_THRESHOLD_PERMILLE: u32 = 800;

/// Confidence, in thousandths, of the best full-text (BM25) match.
pub const FTS5_RANK0_CONFIDENCE_PERMILLE: u32 = 750;

/// Confidence lost per full-text rank position, in thousandths.
pub const FTS5_CONFIDENCE_DECAY_PERMILLE: u32 = 40;

/// Full-text results below this confidence, in thousandths, are left out.
pub const FTS5_MIN_CONFIDENCE_PERMILLE: u32 = 500;

/// Minimum word count for vector search: short text lacks semantic signal.
pub const MIN_WORDS_FOR_VECTOR: usize = 5;

/// Certainty, in thousandths.
pub const MAX_CONFIDENCE_PERMILLE: u32 = 1000;

/// The confidence, in thousandths, added to a verse detected more than once
/// in one batch (by both vector and full-text search, say).
pub const MULTI_SOURCE_BOOST_PERMILLE: u32 = 100;

/// By default a verse reported less than this many milliseconds ago is not
/// reported again.
pub const DEFAULT_COOLDOWN_MS: u64 = 30_000;

/// A verse or range of verses.
pub struct VerseRef {
    pub book_number: i32,
    pub book_name: String,
    pub chapter: i32,
    pub verse_start: i32,
    pub verse_end: Option<i32>,
}

/// How a detection was found.
#[derive(Debug, Clone, Copy, PartialEq, Eq)]
pub enum DetectionSource {
    /// A reference written out in the transcript.
    Direct,
    /// A semantic or full-text match, with its similarity in thousandths.
    Semantic { similarity_permille: u32 },
}

/// A verse detected in a transcript segment.
pub struct Detection {
    pub verse_ref: VerseRef,
    pub verse_id: Option<i64>,
    /// Confidence in thousandths.
    pub confidence_permille: u32,
    pub source: DetectionSource,
    pub transcript_snippet: String,
    /// Milliseconds since the Unix epoch.
    pub detected_at: u64,
    pub is_chapter_only: bool,
}

/// A detection after merging, with whether it is queued automatically.
pub struct MergedDetection {
    pub detection: Detection,
    pub auto_queued: bool,
}

/// A full-text (BM25) search hit.
pub struct Bm25Result {
    pub book_number: i32,
    pub book_name: String,
    pub chapter: i32,
    pub verse: i32,
}

/// The plain values of a detection.
pub struct DetectionView {
    pub book_number: i32,
    pub book_name: Seq<char>,
    pub chapter: i32,
    pub verse_start: i32,
    pub verse_end: Option<i32>,
    pub verse_id: Option<i64>,
    pub confidence_permille: u32,
    pub source: DetectionSource,
    pub snippet: Seq<char>,
    /// Milliseconds since the Unix epoch.
    pub detected_at: u64,
    pub is_chapter_only: bool,
}

impl View for Detection {
    type V = DetectionView;

    open spec fn view(&self) -> DetectionView {
        DetectionView {
            book_number: self.verse_ref.book_number,
            book_name: self.verse_ref.book_name@,
            chapter: self.verse_ref.chapter,
            verse_start: self.verse_ref.verse_start,
            verse_end: self.verse_ref.verse_end,
            verse_id: self.verse_id,
            confidence_permille: self.confidence_permille,
            source: self.source,
            snippet: self.transcript_snippet@,
            detected_at: self.detected_at,
            is_chapter_only: self.is_chapter_only,
        }
    }
}

/// The plain values of a merged detection.
pub struct MergedDetectionView {
    pub detection: DetectionView,
    pub auto_queued: bool,
}

impl View for MergedDetection {
    type V = MergedDetectionView;

    open spec fn view(&self) -> MergedDetectionView {
        MergedDetectionView { detection: self.detection@, auto_queued: self.auto_queued }
    }
}

/// The plain values of a full-text hit.
pub struct Bm25View {
    pub book_number: i32,
    pub book_name: Seq<char>,
    pub chapter: i32,
    pub verse: i32,
}

impl View for Bm25Result {
    type V = Bm25View;

    open spec fn view(&self) -> Bm25View {
        Bm25View {
            book_number: self.book_number,
            book_name: self.book_name@,
            chapter: self.chapter,
            verse: self.verse,
        }
    }
}

/// The plain values of detections.
pub open spec fn detection_views(ds: Seq<Detection>) -> Seq<DetectionView> {
    ds.map_values(|d: Detection| d@)
}

/// The plain values of merged detections.
pub open spec fn merged_views(ms: Seq<MergedDetection>) -> Seq<MergedDetectionView> {
    ms.map_values(|m: MergedDetection| m@)
}

/// The plain values of full-text hits.
pub open spec fn bm25_views(rs: Seq<Bm25Result>) -> Seq<Bm25View> {
    rs.map_values(|r: Bm25Result| r@)
}

// ---------------------------------------------------------------------------
// Direct detection
// ---------------------------------------------------------------------------

/// The detection of a written reference in `text`, made at `now`.
pub open spec fn direct_detection(
    r: ReferenceView,
    text: Seq<char>,
    confidence: u32,
    now: u64,
) -> DetectionView {
    DetectionView {
        book_number: (r.book + 1) as i32,
        book_name: book_name(r.book),
        chapter: r.chapter as i32,
        verse_start: r.verse as i32,
        verse_end: match r.verse_end {
            Some(e) => Some(e as i32),
            None => None,
        },
        verse_id: None,
        confidence_permille: confidence,
        source: DetectionSource::Direct,
        snippet: text,
        detected_at: now,
        is_chapter_only: false,
    }
}

/// The detections of the references written in `text`, in order, all made at
/// `now`.
pub open spec fn direct_detections(text: Seq<char>, confidence: u32, now: u64) -> Seq<
    DetectionView,
> {
    references_in(text).map_values(|r: ReferenceView| direct_detection(r, text, confidence, now))
}

/// Detects Bible references written out in a transcript, such as "John 3:16".
pub struct DirectDetector {
    /// The confidence, in thousandths, given to each detection.
    pub confidence_permille: u32,
}

impl DirectDetector {
    /// A detector with the default confidence.
    pub fn new() -> (r: Self)
        ensures
            r.confidence_permille == DIRECT_CONFIDENCE_PERMILLE,
    {
        DirectDetector { confidence_permille: DIRECT_CONFIDENCE_PERMILLE }
    }

    /// The detections of the references written in `text`, stamped with one
    /// reading of the wall clock.
    pub fn detect(&self, text: &str) -> (r: Vec<Detection>)
        ensures
            exists|now: u64|
                #[trigger] direct_detections(text@, self.confidence_permille, now)
                    == detection_views(r@),
    {
        let now = unix_millis_now();
        let r = self.detect_at(text, now);
        assert(direct_detections(text@, self.confidence_permille, now) == detection_views(r@));
        r
    }

    /// The detections of the references written in `text`, stamped `now`
    /// (milliseconds since the Unix epoch).
    pub fn detect_at(&self, text: &str, now: u64) -> (r: Vec<Detection>)
        ensures
            detection_views(r@) == direct_detections(text@, self.confidence_permille, now),
    {
        let chars = chars_of(text);
        let found = find_references(&chars);
        let ghost fv = reference_views(found@);
        let mut out: Vec<Detection> = Vec::new();
        let mut i: usize = 0;
        while i < found.len()
            invariant
                i <= found@.len(),
                fv == reference_views(found@),
                fv == references_in(text@),
                chars@ == text@,
                forall|k: int| 0 <= k < found@.len() ==> #[trigger] found@[k].book_index < BOOK_COUNT,
                detection_views(out@) == fv.take(i as int).map_values(
                    |r: ReferenceView| direct_detection(r, text@, self.confidence_permille, now),
                ),
            decreases found@.len() - i,
        {
            let f = &found[i];
            assert(f.book_index < BOOK_COUNT);
            let verse_ref = VerseRef {
                book_number: (f.book_index + 1) as i32,
                book_name: book_name_of(f.book_index),
                chapter: f.chapter,
                verse_start: f.verse,
                verse_end: f.verse_end,
            };
            let d = Detection {
                verse_ref,
                verse_id: None,
                confidence_permille: self.confidence_permille,
                source: DetectionSource::Direct,
                transcript_snippet: string_from_chars(&chars),
                detected_at: now,
                is_chapter_only: false,
            };
            let ghost old_out = detection_views(out@);
            let ghost dv = d@;
            out.push(d);
            assert(fv[i as int] == f@);
            assert(dv == direct_detection(fv[i as int], text@, self.confidence_permille, now));
            assert(detection_views(out@) =~= old_out.push(dv));
            assert(fv.take(i + 1) =~= fv.take(i as int).push(fv[i as int]));
            assert(detection_views(out@) =~= fv.take(i + 1).map_values(
                |r: ReferenceView| direct_detection(r, text@, self.confidence_permille, now),
            ));
            i = i + 1;
        }
        assert(fv.take(found@.len() as int) =~= fv);
        out
    }
}


// ---------------------------------------------------------------------------
// Merging
// ---------------------------------------------------------------------------

/// The verse that a detection names: book number, chapter and first verse.
pub open spec fn verse_key(d: DetectionView) -> (i32, i32, i32) {
    (d.book_number, d.chapter, d.verse_start)
}

/// Whether two detections name the same verse.
pub open spec fn same_verse(a: DetectionView, b: DetectionView) -> bool {
    verse_key(a) == verse_key(b)
}

/// The confidence of a verse detected twice in one batch, with confidences
/// `a` and `b`: the higher of the two raised by the boost, capped at
/// certainty (a confidence already at or above certainty stays).
pub open spec fn boosted_confidence(a: u32, b: u32) -> u32 {
    let m = if a >= b {
        a
    } else {
        b
    };
    if m >= MAX_CONFIDENCE_PERMILLE {
        m
    } else if m + MULTI_SOURCE_BOOST_PERMILLE >= MAX_CONFIDENCE_PERMILLE {
        MAX_CONFIDENCE_PERMILLE
    } else {
        (m + MULTI_SOURCE_BOOST_PERMILLE) as u32
    }
}

/// The index of the first detection, from `i` on, that names the verse of
/// `d`.
pub open spec fn first_same_verse(ds: Seq<DetectionView>, d: DetectionView, i: nat) -> Option<nat>
    decreases ds.len() - i,
{
    if i >= ds.len() {
        None
    } else if same_verse(ds[i as int], d) {
        Some(i)
    } else {
        first_same_verse(ds, d, i + 1)
    }
}

/// A batch of detections grouped by verse, in order of first detection:
/// each verse keeps its first detection, and every further detection of it
/// boosts that detection's confidence.
pub open spec fn grouped(ds: Seq<DetectionView>) -> Seq<DetectionView>
    decreases ds.len(),
{
    if ds.len() == 0 {
        Seq::empty()
    } else {
        let prev = grouped(ds.drop_last());
        let d = ds.last();
        match first_same_verse(prev, d, 0) {
            Some(j) => prev.update(
                j as int,
                DetectionView {
                    confidence_permille: boosted_confidence(
                        prev[j as int].confidence_permille,
                        d.confidence_permille,
                    ),
                    ..prev[j as int]
                },
            ),
            None => prev.push(d),
        }
    }
}

/// Whether `d` falls within the cooldown of its verse: the verse was last
/// reported at a time `recent` records, less than `cooldown` milliseconds
/// before `d` was made.
pub open spec fn in_cooldown(recent: Map<(i32, i32, i32), u64>, d: DetectionView, cooldown: u64) -> bool {
    recent.contains_key(verse_key(d)) && d.detected_at < recent[verse_key(d)] + cooldown
}

/// The grouped detections `gs` that are reported: those outside the
/// cooldown, queued automatically when their confidence reaches `threshold`.
pub open spec fn reported(
    gs: Seq<DetectionView>,
    recent: Map<(i32, i32, i32), u64>,
    cooldown: u64,
    threshold: u32,
) -> Seq<MergedDetectionView>
    decreases gs.len(),
{
    if gs.len() == 0 {
        Seq::empty()
    } else {
        let prev = reported(gs.drop_last(), recent, cooldown, threshold);
        let g = gs.last();
        if in_cooldown(recent, g, cooldown) {
            prev
        } else {
            prev.push(
                MergedDetectionView { detection: g, auto_queued: g.confidence_permille >= threshold },
            )
        }
    }
}

/// The report times after reporting the grouped detections `gs`: each
/// reported verse is recorded at the time of its detection.
pub open spec fn recorded(gs: Seq<DetectionView>, recent: Map<(i32, i32, i32), u64>, cooldown: u64) -> Map<
    (i32, i32, i32),
    u64,
>
    decreases gs.len(),
{
    if gs.len() == 0 {
        recent
    } else {
        let prev = recorded(gs.drop_last(), recent, cooldown);
        let g = gs.last();
        if in_cooldown(recent, g, cooldown) {
            prev
        } else {
            prev.insert(verse_key(g), g.detected_at)
        }
    }
}

/// The merge of a batch `ds` by a merger whose report times are `recent`:
/// the detections reported and the report times afterwards.
pub open spec fn merge_outcome(
    ds: Seq<DetectionView>,
    recent: Map<(i32, i32, i32), u64>,
    cooldown: u64,
    threshold: u32,
) -> (Seq<MergedDetectionView>, Map<(i32, i32, i32), u64>) {
    (
        reported(grouped(ds), recent, cooldown, threshold),
        recorded(grouped(ds), recent, cooldown),
    )
}

/// The report times kept in `entries`, a later entry for a verse overriding
/// an earlier one.
pub open spec fn recent_map(entries: Seq<(i32, i32, i32, u64)>) -> Map<(i32, i32, i32), u64>
    decreases entries.len(),
{
    if entries.len() == 0 {
        Map::empty()
    } else {
        let e = entries.last();
        recent_map(entries.drop_last()).insert(entry_key(e), e.3)
    }
}

/// The verse of an entry of report times.
pub open spec fn entry_key(e: (i32, i32, i32, u64)) -> (i32, i32, i32) {
    (e.0, e.1, e.2)
}

/// `recent_map` holds a verse exactly when some entry is for it.
proof fn lemma_recent_map_contains(entries: Seq<(i32, i32, i32, u64)>, k: (i32, i32, i32))
    ensures
        recent_map(entries).contains_key(k) <==> exists|i: int|
            0 <= i < entries.len() && entry_key(#[trigger] entries[i]) == k,
    decreases entries.len(),
{
    if entries.len() > 0 {
        let init = entries.drop_last();
        lemma_recent_map_contains(init, k);
        if exists|i: int| 0 <= i < init.len() && entry_key(#[trigger] init[i]) == k {
            let i = choose|i: int| 0 <= i < init.len() && entry_key(#[trigger] init[i]) == k;
            assert(entries[i] == init[i]);
        }
        if exists|i: int| 0 <= i < entries.len() && entry_key(#[trigger] entries[i]) == k {
            let i = choose|i: int| 0 <= i < entries.len() && entry_key(#[trigger] entries[i]) == k;
            if i < init.len() {
                assert(init[i] == entries[i]);
            }
        }
    }
}

/// For a verse, `recent_map` holds the time of its last entry.
proof fn lemma_recent_map_value(entries: Seq<(i32, i32, i32, u64)>, j: int)
    requires
        0 <= j < entries.len(),
        forall|i: int|
            j < i < entries.len() ==> entry_key(#[trigger] entries[i]) != entry_key(entries[j]),
    ensures
        recent_map(entries).contains_key(entry_key(entries[j])),
        recent_map(entries)[entry_key(entries[j])] == entries[j].3,
    decreases entries.len(),
{
    let init = entries.drop_last();
    if j < entries.len() - 1 {
        assert(init[j] == entries[j]);
        assert forall|i: int| j < i < init.len() implies entry_key(#[trigger] init[i]) != entry_key(
            init[j],
        ) by {
            assert(init[i] == entries[i]);
        }
        lemma_recent_map_value(init, j);
        assert(entry_key(entries[entries.len() - 1]) != entry_key(entries[j]));
    }
}

/// Overwriting the last entry of a verse records the new time for it.
proof fn lemma_recent_map_update(entries: Seq<(i32, i32, i32, u64)>, j: int, e: (i32, i32, i32, u64))
    requires
        0 <= j < entries.len(),
        entry_key(entries[j]) == entry_key(e),
        forall|i: int| j < i < entries.len() ==> entry_key(#[trigger] entries[i]) != entry_key(e),
    ensures
        recent_map(entries.update(j, e)) == recent_map(entries).insert(entry_key(e), e.3),
    decreases entries.len(),
{
    let u = entries.update(j, e);
    let init = entries.drop_last();
    if j == entries.len() - 1 {
        assert(u.drop_last() =~= init);
        assert(recent_map(u) =~= recent_map(entries).insert(entry_key(e), e.3));
    } else {
        assert forall|i: int| j < i < init.len() implies entry_key(#[trigger] init[i]) != entry_key(
            e,
        ) by {
            assert(init[i] == entries[i]);
        }
        lemma_recent_map_update(init, j, e);
        assert(u.drop_last() =~= init.update(j, e));
        let l = entries.last();
        assert(entries[entries.len() - 1] == l);
        assert(entry_key(l) != entry_key(e));
        assert(u.last() == l);
        assert(recent_map(u) =~= recent_map(entries).insert(entry_key(e), e.3));
    }
}

/// One grouping step keeps every earlier entry's verse and never lowers its
/// confidence.
proof fn lemma_grouped_step(ds: Seq<DetectionView>)
    requires
        ds.len() > 0,
    ensures
        grouped(ds.drop_last()).len() <= grouped(ds).len(),
        forall|j: int|
            0 <= j < grouped(ds.drop_last()).len() ==> same_verse(
                #[trigger] grouped(ds)[j],
                grouped(ds.drop_last())[j],
            ) && grouped(ds)[j].confidence_permille >= grouped(
                ds.drop_last(),
            )[j].confidence_permille,
        exists|j: int|
            0 <= j < grouped(ds).len() && same_verse(#[trigger] grouped(ds)[j], ds.last())
                && grouped(ds)[j].confidence_permille >= ds.last().confidence_permille,
        grouped(ds).len() > grouped(ds.drop_last()).len() ==> grouped(ds)
            == grouped(ds.drop_last()).push(ds.last()),
{
    let prev = grouped(ds.drop_last());
    let d = ds.last();
    lemma_first_same_verse(prev, d, 0);
    match first_same_verse(prev, d, 0) {
        Some(j) => {
            assert(same_verse(grouped(ds)[j as int], d));
        },
        None => {
            assert(grouped(ds)[prev.len() as int] == d);
        },
    }
}

/// The grouping names each verse once.
proof fn lemma_grouped_distinct(ds: Seq<DetectionView>)
    ensures
        forall|i: int, j: int|
            0 <= i < j < grouped(ds).len() ==> !same_verse(
                #[trigger] grouped(ds)[i],
                #[trigger] grouped(ds)[j],
            ),
    decreases ds.len(),
{
    if ds.len() > 0 {
        lemma_grouped_distinct(ds.drop_last());
        lemma_grouped_step(ds);
        let prev = grouped(ds.drop_last());
        let cur = grouped(ds);
        lemma_first_same_verse(prev, ds.last(), 0);
        assert forall|i: int, j: int| 0 <= i < j < cur.len() implies !same_verse(
            #[trigger] cur[i],
            #[trigger] cur[j],
        ) by {
            assert(same_verse(cur[i], prev[i]));
            if j < prev.len() {
                assert(same_verse(cur[j], prev[j]));
            }
        }
    }
}

/// Every entry of the grouping names a verse of the batch.
proof fn lemma_grouped_from_batch(ds: Seq<DetectionView>)
    ensures
        forall|j: int|
            #![trigger grouped(ds)[j]]
            0 <= j < grouped(ds).len() ==> exists|i: int|
                0 <= i < ds.len() && same_verse(#[trigger] ds[i], grouped(ds)[j]),
    decreases ds.len(),
{
    if ds.len() > 0 {
        let init = ds.drop_last();
        lemma_grouped_from_batch(init);
        lemma_grouped_step(ds);
        let prev = grouped(init);
        let cur = grouped(ds);
        assert forall|j: int| #![trigger cur[j]] 0 <= j < cur.len() implies exists|i: int|
            0 <= i < ds.len() && same_verse(#[trigger] ds[i], cur[j]) by {
            if j < prev.len() {
                let i = choose|i: int| 0 <= i < init.len() && same_verse(#[trigger] init[i], prev[j]);
                assert(ds[i] == init[i]);
                assert(same_verse(cur[j], prev[j]));
            } else {
                assert(same_verse(ds[ds.len() - 1], cur[j]));
            }
        }
    }
}

/// Every detection of the batch has its verse in the grouping, with at least
/// its confidence.
proof fn lemma_grouped_covers(ds: Seq<DetectionView>)
    ensures
        forall|i: int|
            #![trigger ds[i]]
            0 <= i < ds.len() ==> exists|j: int|
                0 <= j < grouped(ds).len() && same_verse(#[trigger] grouped(ds)[j], ds[i])
                    && grouped(ds)[j].confidence_permille >= ds[i].confidence_permille,
    decreases ds.len(),
{
    if ds.len() > 0 {
        let init = ds.drop_last();
        lemma_grouped_covers(init);
        lemma_grouped_step(ds);
        let prev = grouped(init);
        let cur = grouped(ds);
        assert forall|i: int| #![trigger ds[i]] 0 <= i < ds.len() implies exists|j: int|
            0 <= j < cur.len() && same_verse(#[trigger] cur[j], ds[i])
                && cur[j].confidence_permille >= ds[i].confidence_permille by {
            if i < init.len() {
                assert(init[i] == ds[i]);
                let j = choose|j: int|
                    0 <= j < prev.len() && same_verse(#[trigger] prev[j], init[i])
                        && prev[j].confidence_permille >= init[i].confidence_permille;
                assert(same_verse(cur[j], prev[j]));
            } else {
                assert(ds[i] == ds.last());
            }
        }
    }
}

/// A verse detected again later in the batch ends with a confidence above
/// that of its earlier detection, when that was below certainty.
proof fn lemma_grouped_boost(ds: Seq<DetectionView>)
    ensures
        forall|i: int, k: int|
            0 <= i < k < ds.len() && same_verse(#[trigger] ds[i], #[trigger] ds[k])
                && ds[i].confidence_permille < MAX_CONFIDENCE_PERMILLE ==> exists|j: int|
                0 <= j < grouped(ds).len() && same_verse(#[trigger] grouped(ds)[j], ds[i])
                    && grouped(ds)[j].confidence_permille > ds[i].confidence_permille,
    decreases ds.len(),
{
    if ds.len() > 0 {
        let init = ds.drop_last();
        lemma_grouped_boost(init);
        lemma_grouped_covers(init);
        lemma_grouped_distinct(init);
        lemma_grouped_step(ds);
        let prev = grouped(init);
        let cur = grouped(ds);
        let d = ds.last();
        lemma_first_same_verse(prev, d, 0);
        assert forall|i: int, k: int|
            0 <= i < k < ds.len() && same_verse(#[trigger] ds[i], #[trigger] ds[k])
                && ds[i].confidence_permille < MAX_CONFIDENCE_PERMILLE implies exists|j: int|
            0 <= j < cur.len() && same_verse(#[trigger] cur[j], ds[i])
                && cur[j].confidence_permille > ds[i].confidence_permille by {
            assert(init[i] == ds[i]);
            if k < init.len() {
                assert(init[k] == ds[k]);
                let j = choose|j: int|
                    0 <= j < prev.len() && same_verse(#[trigger] prev[j], init[i])
                        && prev[j].confidence_permille > init[i].confidence_permille;
                assert(same_verse(cur[j], prev[j]));
            } else {
                assert(ds[k] == d);
                let j = choose|j: int|
                    0 <= j < prev.len() && same_verse(#[trigger] prev[j], init[i])
                        && prev[j].confidence_permille >= init[i].confidence_permille;
                match first_same_verse(prev, d, 0) {
                    Some(j2) => {
                        if j2 as int != j {
                            if (j2 as int) < j {
                                assert(!same_verse(prev[j2 as int], prev[j]));
                            } else {
                                assert(!same_verse(prev[j], prev[j2 as int]));
                            }
                        }
                        assert(cur[j] == DetectionView {
                            confidence_permille: boosted_confidence(
                                prev[j].confidence_permille,
                                d.confidence_permille,
                            ),
                            ..prev[j]
                        });
                    },
                    None => {
                        assert(!same_verse(prev[j], d));
                    },
                }
            }
        }
    }
}

/// `first_same_verse` finds a detection of the verse exactly when there is
/// one from `i` on.
proof fn lemma_first_same_verse(ds: Seq<DetectionView>, d: DetectionView, i: nat)
    ensures
        first_same_verse(ds, d, i) matches Some(j) ==> i <= j < ds.len() && same_verse(
            ds[j as int],
            d,
        ),
        first_same_verse(ds, d, i) is None ==> forall|j: int|
            i <= j < ds.len() ==> !same_verse(#[trigger] ds[j], d),
    decreases ds.len() - i,
{
    if i < ds.len() {
        lemma_first_same_verse(ds, d, i + 1);
    }
}

/// Outside its keys, what `recorded` holds is what `recent` holds.
proof fn lemma_recorded_other(
    gs: Seq<DetectionView>,
    recent: Map<(i32, i32, i32), u64>,
    cooldown: u64,
    k: (i32, i32, i32),
)
    requires
        forall|j: int| 0 <= j < gs.len() ==> verse_key(#[trigger] gs[j]) != k,
    ensures
        recorded(gs, recent, cooldown).contains_key(k) == recent.contains_key(k),
        recent.contains_key(k) ==> recorded(gs, recent, cooldown)[k] == recent[k],
    decreases gs.len(),
{
    if gs.len() > 0 {
        assert(verse_key(gs[gs.len() - 1]) != k);
        lemma_recorded_other(gs.drop_last(), recent, cooldown, k);
    }
}

fn boost(a: u32, b: u32) -> (r: u32)
    ensures
        r == boosted_confidence(a, b),
{
    let m = if a >= b {
        a
    } else {
        b
    };
    if m >= MAX_CONFIDENCE_PERMILLE {
        m
    } else if m + MULTI_SOURCE_BOOST_PERMILLE >= MAX_CONFIDENCE_PERMILLE {
        MAX_CONFIDENCE_PERMILLE
    } else {
        m + MULTI_SOURCE_BOOST_PERMILLE
    }
}

fn first_same_verse_exec(out: &Vec<Detection>, d: &Detection) -> (r: Option<usize>)
    ensures
        match r {
            Some(j) => first_same_verse(detection_views(out@), d@, 0) == Some(j as nat),
            None => first_same_verse(detection_views(out@), d@, 0) is None,
        },
{
    let ghost vs = detection_views(out@);
    let mut i: usize = 0;
    while i < out.len()
        invariant
            i <= out@.len(),
            vs == detection_views(out@),
            first_same_verse(vs, d@, 0) == first_same_verse(vs, d@, i as nat),
        decreases out@.len() - i,
    {
        let o = &out[i].verse_ref;
        assert(vs[i as int] == out@[i as int]@);
        if o.book_number == d.verse_ref.book_number && o.chapter == d.verse_ref.chapter
            && o.verse_start == d.verse_ref.verse_start {
            return Some(i);
        }
        i = i + 1;
    }
    None
}

/// Groups a batch by verse, boosting a verse detected more than once.
fn group_by_verse(all: Vec<Detection>) -> (r: Vec<Detection>)
    ensures
        detection_views(r@) == grouped(detection_views(all@)),
{
    let ghost dv = detection_views(all@);
    let mut out: Vec<Detection> = Vec::new();
    let ghost mut consumed: Seq<DetectionView> = Seq::empty();
    for d in it: all.into_iter()
        invariant
            detection_views(it.seq()) == dv,
            consumed == detection_views(it.seq().take(it.index() as int)),
            detection_views(out@) == grouped(consumed),
    {
        let ghost after = consumed.push(d@);
        assert(detection_views(it.seq().take(it.index() + 1)) =~= after);
        assert(after.drop_last() =~= consumed);
        assert(after.last() == d@);
        let ghost prev = detection_views(out@);
        match first_same_verse_exec(&out, &d) {
            Some(j) => {
                proof {
                    lemma_first_same_verse(prev, d@, 0);
                }
                let ghost before = out@;
                assert(prev[j as int] == before[j as int]@);
                let mut item = out.remove(j);
                item.confidence_permille = boost(item.confidence_permille, d.confidence_permille);
                out.insert(j, item);
                assert(out@ =~= before.update(j as int, item));
                assert(detection_views(out@) =~= prev.update(
                    j as int,
                    DetectionView {
                        confidence_permille: boosted_confidence(
                            prev[j as int].confidence_permille,
                            d@.confidence_permille,
                        ),
                        ..prev[j as int]
                    },
                ));
                assert(first_same_verse(prev, after.last(), 0) == Some(j as nat));
                assert(detection_views(out@) == grouped(after));
            },
            None => {
                out.push(d);
                assert(detection_views(out@) =~= prev.push(after.last()));
                assert(detection_views(out@) == grouped(after));
            },
        }
        proof {
            consumed = after;
        }
    }
    assert(consumed =~= dv);
    out
}

/// Merges direct and semantic detections into one list, holding back a verse
/// reported again within the cooldown.
pub struct DetectionMerger {
    /// Detections at or above this confidence, in thousandths, are queued
    /// automatically.
    auto_queue_threshold_permille: u32,
    /// A verse reported less than this many milliseconds ago is not reported
    /// again.
    cooldown_ms: u64,
    /// For each verse reported, the time of its last report.
    recent: Vec<(i32, i32, i32, u64)>,
}

impl DetectionMerger {
    /// The auto-queue threshold, in thousandths.
    pub closed spec fn threshold(&self) -> u32 {
        self.auto_queue_threshold_permille
    }

    /// The cooldown, in milliseconds.
    pub closed spec fn cooldown(&self) -> u64 {
        self.cooldown_ms
    }

    /// The auto-queue threshold, in thousandths.
    pub fn auto_queue_threshold_permille(&self) -> (r: u32)
        ensures
            r == self.threshold(),
    {
        self.auto_queue_threshold_permille
    }

    /// Sets the auto-queue threshold, in thousandths.
    pub fn set_auto_queue_threshold_permille(&mut self, permille: u32)
        ensures
            final(self).threshold() == permille,
            final(self).cooldown() == old(self).cooldown(),
            final(self).last_reported() == old(self).last_reported(),
    {
        self.auto_queue_threshold_permille = permille;
    }

    /// The cooldown, in milliseconds.
    pub fn cooldown_ms(&self) -> (r: u64)
        ensures
            r == self.cooldown(),
    {
        self.cooldown_ms
    }

    /// Sets the cooldown, in milliseconds.
    pub fn set_cooldown_ms(&mut self, ms: u64)
        ensures
            final(self).cooldown() == ms,
            final(self).threshold() == old(self).threshold(),
            final(self).last_reported() == old(self).last_reported(),
    {
        self.cooldown_ms = ms;
    }

    /// The time at which each verse was last reported.
    pub closed spec fn last_reported(&self) -> Map<(i32, i32, i32), u64> {
        recent_map(self.recent@)
    }

    /// A merger with the default threshold and cooldown that has reported
    /// nothing.
    pub fn new() -> (r: Self)
        ensures
            r.threshold() == DEFAULT_AUTO_QUEUE_THRESHOLD_PERMILLE,
            r.cooldown() == DEFAULT_COOLDOWN_MS,
            r.last_reported() == Map::<(i32, i32, i32), u64>::empty(),
    {
        DetectionMerger {
            auto_queue_threshold_permille: DEFAULT_AUTO_QUEUE_THRESHOLD_PERMILLE,
            cooldown_ms: DEFAULT_COOLDOWN_MS,
            recent: Vec::new(),
        }
    }

    /// The position of the last entry for a verse.
    fn find_recent(&self, book_number: i32, chapter: i32, verse: i32) -> (r: Option<usize>)
        ensures
            match r {
                Some(j) => {
                    &&& j < self.recent@.len()
                    &&& entry_key(self.recent@[j as int]) == (book_number, chapter, verse)
                    &&& forall|i: int|
                        j < i < self.recent@.len() ==> entry_key(#[trigger] self.recent@[i]) != (
                            book_number,
                            chapter,
                            verse,
                        )
                },
                None => forall|i: int|
                    0 <= i < self.recent@.len() ==> entry_key(#[trigger] self.recent@[i]) != (
                        book_number,
                        chapter,
                        verse,
                    ),
            },
    {
        let mut i: usize = self.recent.len();
        while i > 0
            invariant
                i <= self.recent@.len(),
                forall|m: int|
                    i <= m < self.recent@.len() ==> entry_key(#[trigger] self.recent@[m]) != (
                        book_number,
                        chapter,
                        verse,
                    ),
            decreases i,
        {
            let e = self.recent[i - 1];
            if e.0 == book_number && e.1 == chapter && e.2 == verse {
                return Some(i - 1);
            }
            i = i - 1;
        }
        None
    }

    /// Merges the direct detections, then the semantic ones. Each verse is
    /// kept once, from its first detection, with its confidence boosted for
    /// every further detection of it; a verse whose detection falls within
    /// the cooldown of its last report is held back. Each verse reported is
    /// recorded at the time of its detection.
    pub fn merge(&mut self, direct: Vec<Detection>, semantic: Vec<Detection>) -> (r: Vec<
        MergedDetection,
    >)
        ensures
            final(self).threshold() == old(self).threshold(),
            final(self).cooldown() == old(self).cooldown(),
            merged_views(r@) == merge_outcome(
                detection_views(direct@) + detection_views(semantic@),
                old(self).last_reported(),
                old(self).cooldown(),
                old(self).threshold(),
            ).0,
            final(self).last_reported() == merge_outcome(
                detection_views(direct@) + detection_views(semantic@),
                old(self).last_reported(),
                old(self).cooldown(),
                old(self).threshold(),
            ).1,
    {
        let ghost all = detection_views(direct@) + detection_views(semantic@);
        let ghost recent0 = self.last_reported();
        let mut all_detections = direct;
        let mut rest = semantic;
        all_detections.append(&mut rest);
        assert(detection_views(all_detections@) =~= all);
        let groups = group_by_verse(all_detections);
        let ghost gs = grouped(all);
        proof {
            lemma_grouped_distinct(all);
        }
        let threshold = self.auto_queue_threshold_permille;
        let cooldown = self.cooldown_ms;
        let mut out: Vec<MergedDetection> = Vec::new();
        let ghost mut n: nat = 0;
        for g in it: groups.into_iter()
            invariant
                threshold == self.auto_queue_threshold_permille,
                cooldown == self.cooldown_ms,
                threshold == old(self).auto_queue_threshold_permille,
                cooldown == old(self).cooldown_ms,
                recent0 == old(self).last_reported(),
                detection_views(it.seq()) == gs,
                gs == grouped(all),
                n == it.index(),
                n <= gs.len(),
                forall|i: int, j: int|
                    0 <= i < j < gs.len() ==> !same_verse(#[trigger] gs[i], #[trigger] gs[j]),
                merged_views(out@) == reported(gs.take(n as int), recent0, cooldown, threshold),
                self.last_reported() == recorded(gs.take(n as int), recent0, cooldown),
        {
            let ghost prefix = gs.take(n as int);
            let ghost next = gs.take((n + 1) as int);
            assert(it.seq()[n as int]@ == gs[n as int]);
            assert(g@ == gs[n as int]);
            assert(next.drop_last() =~= prefix);
            assert(next.last() == g@);
            let ghost key = verse_key(g@);
            proof {
                assert forall|j: int| 0 <= j < prefix.len() implies verse_key(#[trigger] prefix[j])
                    != key by {
                    assert(prefix[j] == gs[j]);
                    assert(!same_verse(gs[j], gs[n as int]));
                }
                lemma_recorded_other(prefix, recent0, cooldown, key);
                lemma_recent_map_contains(self.recent@, key);
            }
            let b = g.verse_ref.book_number;
            let c = g.verse_ref.chapter;
            let v = g.verse_ref.verse_start;
            let pos = self.find_recent(b, c, v);
            proof {
                if let Some(j) = pos {
                    lemma_recent_map_value(self.recent@, j as int);
                }
            }
            let cooling = match pos {
                Some(j) => (g.detected_at as u128) < (self.recent[j].3 as u128) + (cooldown as u128),
                None => false,
            };
            assert(cooling == in_cooldown(recent0, g@, cooldown));
            if !cooling {
                let entry = (b, c, v, g.detected_at);
                let ghost before = self.recent@;
                match pos {
                    Some(j) => {
                        proof {
                            lemma_recent_map_update(before, j as int, entry);
                        }
                        self.recent.set(j, entry);
                    },
                    None => {
                        self.recent.push(entry);
                        assert(self.recent@.drop_last() =~= before);
                    },
                }
                let queued = g.confidence_permille >= threshold;
                let ghost old_out = merged_views(out@);
                let m = MergedDetection { detection: g, auto_queued: queued };
                let ghost mv = m@;
                out.push(m);
                assert(merged_views(out@) =~= old_out.push(mv));
            }
            assert(merged_views(out@) =~= reported(next, recent0, cooldown, threshold));
            assert(self.last_reported() =~= recorded(next, recent0, cooldown));
            proof {
                n = n + 1;
            }
        }
        assert(gs.take(gs.len() as int) =~= gs);
        out
    }
}

// ---------------------------------------------------------------------------
// Semantic detection
// ---------------------------------------------------------------------------

/// The state of semantic (embedding) detection: whether a model is loaded
/// with its index populated, and whether synonym expansion is on. The
/// embedding itself runs outside the library; what it finds is handed to the
/// pipeline, which uses it only when the detector is ready.
pub struct SemanticDetector {
    ready: bool,
    use_synonyms: bool,
}

impl SemanticDetector {
    /// Whether a model is loaded and its index populated.
    pub closed spec fn ready(&self) -> bool {
        self.ready
    }

    /// Whether synonym expansion is on.
    pub closed spec fn synonyms_enabled(&self) -> bool {
        self.use_synonyms
    }

    /// A detector without a model.
    pub fn stub() -> (r: Self)
        ensures
            !r.ready(),
            !r.synonyms_enabled(),
    {
        SemanticDetector { ready: false, use_synonyms: false }
    }

    /// A detector whose model is loaded and whose index is populated.
    pub fn loaded() -> (r: Self)
        ensures
            r.ready(),
            !r.synonyms_enabled(),
    {
        SemanticDetector { ready: true, use_synonyms: false }
    }

    /// Whether a model is loaded and its index populated.
    pub fn is_ready(&self) -> (r: bool)
        ensures
            r == self.ready(),
    {
        self.ready
    }

    /// Switches synonym expansion.
    pub fn set_use_synonyms(&mut self, enabled: bool)
        ensures
            final(self).synonyms_enabled() == enabled,
            final(self).ready() == old(self).ready(),
    {
        self.use_synonyms = enabled;
    }

    /// Whether synonym expansion is on.
    pub fn use_synonyms(&self) -> (r: bool)
        ensures
            r == self.synonyms_enabled(),
    {
        self.use_synonyms
    }
}

// ---------------------------------------------------------------------------
// Full-text results
// ---------------------------------------------------------------------------

/// The confidence, in thousandths, of the full-text hit at `rank`.
pub open spec fn fts_confidence(rank: int) -> int {
    FTS5_RANK0_CONFIDENCE_PERMILLE - rank * FTS5_CONFIDENCE_DECAY_PERMILLE
}

/// How many of `n` full-text hits are kept: those whose confidence does not
/// fall below the minimum, which are the first seven.
pub open spec fn fts_kept_count(n: int) -> int {
    if n < 7 {
        n
    } else {
        7
    }
}

/// The detection made at `now` of the full-text hit at `rank`.
pub open spec fn fts_detection(r: Bm25View, rank: int, text: Seq<char>, now: u64) -> DetectionView {
    DetectionView {
        book_number: r.book_number,
        book_name: r.book_name,
        chapter: r.chapter,
        verse_start: r.verse,
        verse_end: None,
        verse_id: None,
        confidence_permille: fts_confidence(rank) as u32,
        source: DetectionSource::Semantic { similarity_permille: fts_confidence(rank) as u32 },
        snippet: text,
        detected_at: now,
        is_chapter_only: false,
    }
}

/// The detections made at `now` of the kept full-text hits, in rank order.
pub open spec fn fts_detections(fts: Seq<Bm25View>, text: Seq<char>, now: u64) -> Seq<
    DetectionView,
> {
    Seq::new(
        fts_kept_count(fts.len() as int) as nat,
        |k: int| fts_detection(fts[k], k, text, now),
    )
}

/// A hit is kept exactly when its confidence reaches the minimum.
pub proof fn lemma_fts_kept(rank: int)
    requires
        0 <= rank,
    ensures
        rank < 7 <==> fts_confidence(rank) >= FTS5_MIN_CONFIDENCE_PERMILLE,
{
}

fn fts_to_detections(fts_results: &[Bm25Result], text: &str, now: u64) -> (r: Vec<Detection>)
    ensures
        detection_views(r@) == fts_detections(bm25_views(fts_results@), text@, now),
{
    let ghost fv = bm25_views(fts_results@);
    let mut out: Vec<Detection> = Vec::new();
    let mut rank: usize = 0;
    while rank < fts_results.len()
        invariant
            fv == bm25_views(fts_results@),
            rank <= 7,
            rank <= fts_results@.len(),
            detection_views(out@) == Seq::new(
                rank as nat,
                |k: int| fts_detection(fv[k], k, text@, now),
            ),
        ensures
            rank == fts_results@.len() || rank == 7,
        decreases fts_results@.len() - rank,
    {
        let confidence: i64 = 750 - 40 * (rank as i64);
        if confidence < 500 {
            break;
        }
        let hit = &fts_results[rank];
        let c = confidence as u32;
        let d = Detection {
            verse_ref: VerseRef {
                book_number: hit.book_number,
                book_name: hit.book_name.clone(),
                chapter: hit.chapter,
                verse_start: hit.verse,
                verse_end: None,
            },
            verse_id: None,
            confidence_permille: c,
            source: DetectionSource::Semantic { similarity_permille: c },
            transcript_snippet: String::from_str(text),
            detected_at: now,
            is_chapter_only: false,
        };
        let ghost old_out = detection_views(out@);
        let ghost dv = d@;
        out.push(d);
        assert(fv[rank as int] == fts_results@[rank as int]@);
        assert(dv == fts_detection(fv[rank as int], rank as int, text@, now));
        assert(detection_views(out@) =~= old_out.push(dv));
        assert(detection_views(out@) =~= Seq::new(
            (rank + 1) as nat,
            |k: int| fts_detection(fv[k], k, text@, now),
        ));
        rank = rank + 1;
    }
    assert(rank == fts_kept_count(fv.len() as int));
    out
}


// ---------------------------------------------------------------------------
// The pipeline
// ---------------------------------------------------------------------------

/// The settings of a pipeline.
pub struct PipelineSettings {
    pub direct_confidence: u32,
    pub auto_queue_threshold: u32,
    pub cooldown_ms: u64,
    pub semantic_ready: bool,
    pub synonyms: bool,
}

/// The semantic detections a pipeline with settings `s` uses for `text`:
/// those handed to it when a model is loaded and the text has at least five
/// words, else none.
pub open spec fn semantic_used(
    s: PipelineSettings,
    text: Seq<char>,
    vector: Seq<DetectionView>,
) -> Seq<DetectionView> {
    if s.semantic_ready && words(text).len() >= MIN_WORDS_FOR_VECTOR {
        vector
    } else {
        Seq::empty()
    }
}

/// The main detection pipeline that runs on each transcript segment.
///
/// Orchestrates direct reference detection, semantic search, and merging into
/// a single call. Consumers should create one pipeline and reuse it across
/// transcript segments so that the merger's cooldown state is preserved.
pub struct DetectionPipeline {
    direct: DirectDetector,
    semantic: SemanticDetector,
    merger: DetectionMerger,
}

/// The number of words of a text.
fn word_count(text: &str) -> (r: usize)
    ensures
        r == words(text@).len(),
{
    let chars = chars_of(text);
    let ws = split_whitespace(&chars);
    ws.len()
}

impl DetectionPipeline {
    /// The pipeline's settings.
    pub closed spec fn settings(&self) -> PipelineSettings {
        PipelineSettings {
            direct_confidence: self.direct.confidence_permille,
            auto_queue_threshold: self.merger.threshold(),
            cooldown_ms: self.merger.cooldown(),
            semantic_ready: self.semantic.ready(),
            synonyms: self.semantic.synonyms_enabled(),
        }
    }

    /// The time at which the merger last reported each verse.
    pub closed spec fn last_reported(&self) -> Map<(i32, i32, i32), u64> {
        self.merger.last_reported()
    }

    /// A pipeline with the default detectors and merger, and no semantic
    /// model.
    pub fn new() -> (r: Self)
        ensures
            r.settings() == (PipelineSettings {
                direct_confidence: DIRECT_CONFIDENCE_PERMILLE,
                auto_queue_threshold: DEFAULT_AUTO_QUEUE_THRESHOLD_PERMILLE,
                cooldown_ms: DEFAULT_COOLDOWN_MS,
                semantic_ready: false,
                synonyms: false,
            }),
            r.last_reported() == Map::<(i32, i32, i32), u64>::empty(),
    {
        DetectionPipeline {
            direct: DirectDetector::new(),
            semantic: SemanticDetector::stub(),
            merger: DetectionMerger::new(),
        }
    }

    /// Replaces the semantic detector (after loading a model, say).
    pub fn set_semantic(&mut self, detector: SemanticDetector)
        ensures
            final(self).settings() == (PipelineSettings {
                semantic_ready: detector.ready(),
                synonyms: detector.synonyms_enabled(),
                ..old(self).settings()
            }),
            final(self).last_reported() == old(self).last_reported(),
    {
        self.semantic = detector;
    }

    /// The direct detector, for configuration.
    pub fn direct_mut(&mut self) -> (r: &mut DirectDetector)
        ensures
            r.confidence_permille == old(self).settings().direct_confidence,
            final(self).settings() == (PipelineSettings {
                direct_confidence: final(r).confidence_permille,
                ..old(self).settings()
            }),
            final(self).last_reported() == old(self).last_reported(),
    {
        &mut self.direct
    }

    /// The merger, for threshold and cooldown configuration.
    pub fn merger_mut(&mut self) -> (r: &mut DetectionMerger)
        ensures
            r.threshold() == old(self).settings().auto_queue_threshold,
            r.cooldown() == old(self).settings().cooldown_ms,
            r.last_reported() == old(self).last_reported(),
            final(self).settings() == (PipelineSettings {
                auto_queue_threshold: final(r).threshold(),
                cooldown_ms: final(r).cooldown(),
                ..old(self).settings()
            }),
            final(self).last_reported() == final(r).last_reported(),
    {
        &mut self.merger
    }

    /// Runs direct detection and, with `vector` the detections the semantic
    /// model found for `text`, semantic detection, and merges them; the
    /// direct detections are stamped with one reading of the wall clock.
    pub fn process(&mut self, text: &str, vector: Vec<Detection>) -> (r: Vec<MergedDetection>)
        ensures
            final(self).settings() == old(self).settings(),
            exists|now: u64|
                #[trigger] merge_outcome(
                    direct_detections(text@, old(self).settings().direct_confidence, now)
                        + semantic_used(old(self).settings(), text@, detection_views(vector@)),
                    old(self).last_reported(),
                    old(self).settings().cooldown_ms,
                    old(self).settings().auto_queue_threshold,
                ) == (merged_views(r@), final(self).last_reported()),
    {
        let now = unix_millis_now();
        let r = self.process_at(text, vector, now);
        assert(merge_outcome(
            direct_detections(text@, old(self).settings().direct_confidence, now) + semantic_used(
                old(self).settings(),
                text@,
                detection_views(vector@),
            ),
            old(self).last_reported(),
            old(self).settings().cooldown_ms,
            old(self).settings().auto_queue_threshold,
        ) == (merged_views(r@), self.last_reported()));
        r
    }

    /// `process` at `now` (milliseconds since the Unix epoch): semantic
    /// detection uses `vector` when a model is loaded and the text has at
    /// least five words.
    pub fn process_at(&mut self, text: &str, vector: Vec<Detection>, now: u64) -> (r: Vec<
        MergedDetection,
    >)
        ensures
            final(self).settings() == old(self).settings(),
            merged_views(r@) == merge_outcome(
                direct_detections(text@, old(self).settings().direct_confidence, now)
                    + semantic_used(old(self).settings(), text@, detection_views(vector@)),
                old(self).last_reported(),
                old(self).settings().cooldown_ms,
                old(self).settings().auto_queue_threshold,
            ).0,
            final(self).last_reported() == merge_outcome(
                direct_detections(text@, old(self).settings().direct_confidence, now)
                    + semantic_used(old(self).settings(), text@, detection_views(vector@)),
                old(self).last_reported(),
                old(self).settings().cooldown_ms,
                old(self).settings().auto_queue_threshold,
            ).1,
    {
        let direct_results = self.direct.detect_at(text, now);
        let semantic_results = if self.semantic.is_ready() && word_count(text)
            >= MIN_WORDS_FOR_VECTOR {
            vector
        } else {
            Vec::new()
        };
        assert(detection_views(semantic_results@) =~= semantic_used(
            old(self).settings(),
            text@,
            detection_views(vector@),
        ));
        self.merger.merge(direct_results, semantic_results)
    }

    /// Runs direct detection only and merges it, stamping the detections with
    /// one reading of the wall clock.
    pub fn process_direct(&mut self, text: &str) -> (r: Vec<MergedDetection>)
        ensures
            final(self).settings() == old(self).settings(),
            exists|now: u64|
                #[trigger] merge_outcome(
                    direct_detections(text@, old(self).settings().direct_confidence, now),
                    old(self).last_reported(),
                    old(self).settings().cooldown_ms,
                    old(self).settings().auto_queue_threshold,
                ) == (merged_views(r@), final(self).last_reported()),
    {
        let now = unix_millis_now();
        let r = self.process_direct_at(text, now);
        assert(merge_outcome(
            direct_detections(text@, old(self).settings().direct_confidence, now),
            old(self).last_reported(),
            old(self).settings().cooldown_ms,
            old(self).settings().auto_queue_threshold,
        ) == (merged_views(r@), self.last_reported()));
        r
    }

    /// Runs direct detection only at `now` (milliseconds since the Unix
    /// epoch) and merges it.
    pub fn process_direct_at(&mut self, text: &str, now: u64) -> (r: Vec<MergedDetection>)
        ensures
            final(self).settings() == old(self).settings(),
            merged_views(r@) == merge_outcome(
                direct_detections(text@, old(self).settings().direct_confidence, now),
                old(self).last_reported(),
                old(self).settings().cooldown_ms,
                old(self).settings().auto_queue_threshold,
            ).0,
            final(self).last_reported() == merge_outcome(
                direct_detections(text@, old(self).settings().direct_confidence, now),
                old(self).last_reported(),
                old(self).settings().cooldown_ms,
                old(self).settings().auto_queue_threshold,
            ).1,
    {
        let direct_results = self.direct.detect_at(text, now);
        let none: Vec<Detection> = Vec::new();
        assert(detection_views(direct_results@) + detection_views(none@) =~= detection_views(
            direct_results@,
        ));
        self.merger.merge(direct_results, none)
    }

    /// Runs semantic detection only, with `vector` the detections the
    /// semantic model found for `text`, and merges it: nothing is used
    /// without a model or on a text of fewer than five words.
    pub fn process_semantic(&mut self, text: &str, vector: Vec<Detection>) -> (r: Vec<
        MergedDetection,
    >)
        ensures
            final(self).settings() == old(self).settings(),
            merged_views(r@) == merge_outcome(
                semantic_used(old(self).settings(), text@, detection_views(vector@)),
                old(self).last_reported(),
                old(self).settings().cooldown_ms,
                old(self).settings().auto_queue_threshold,
            ).0,
            final(self).last_reported() == merge_outcome(
                semantic_used(old(self).settings(), text@, detection_views(vector@)),
                old(self).last_reported(),
                old(self).settings().cooldown_ms,
                old(self).settings().auto_queue_threshold,
            ).1,
    {
        if word_count(text) < MIN_WORDS_FOR_VECTOR {
            proof {
                let e = Seq::<DetectionView>::empty();
                assert(grouped(e) =~= e);
                assert(reported(e, self.last_reported(), self.settings().cooldown_ms, self.settings().auto_queue_threshold) =~= Seq::<MergedDetectionView>::empty());
            }
            let r: Vec<MergedDetection> = Vec::new();
            assert(merged_views(r@) =~= Seq::<MergedDetectionView>::empty());
            return r;
        }
        let semantic_results = if self.semantic.is_ready() {
            vector
        } else {
            Vec::new()
        };
        let none: Vec<Detection> = Vec::new();
        assert(detection_views(none@) + detection_views(semantic_results@) =~= semantic_used(
            old(self).settings(),
            text@,
            detection_views(vector@),
        ));
        self.merger.merge(none, semantic_results)
    }

    /// Whether semantic search is available (model loaded, index populated).
    pub fn has_semantic(&self) -> (r: bool)
        ensures
            r == self.settings().semantic_ready,
    {
        self.semantic.is_ready()
    }

    /// Switches synonym expansion (paraphrase detection).
    pub fn set_use_synonyms(&mut self, enabled: bool)
        ensures
            final(self).settings() == (PipelineSettings { synonyms: enabled, ..old(self).settings() }),
            final(self).last_reported() == old(self).last_reported(),
    {
        self.semantic.set_use_synonyms(enabled);
    }

    /// Whether synonym expansion is on.
    pub fn use_synonyms(&self) -> (r: bool)
        ensures
            r == self.settings().synonyms,
    {
        self.semantic.use_synonyms()
    }

    /// Runs semantic detection, with `vector` the detections the semantic
    /// model found for `text`, together with pre-fetched full-text (BM25)
    /// results: the hit at rank `k` becomes a detection of confidence
    /// `0.75 - 0.04 k`, down to the minimum of `0.50`, and all are merged, so
    /// that a verse found by both gets a confidence boost. The full-text
    /// detections are stamped with one reading of the wall clock.
    pub fn process_hybrid_with_fts(
        &mut self,
        text: &str,
        vector: Vec<Detection>,
        fts_results: &[Bm25Result],
    ) -> (r: Vec<MergedDetection>)
        ensures
            final(self).settings() == old(self).settings(),
            exists|now: u64|
                #[trigger] merge_outcome(
                    semantic_used(old(self).settings(), text@, detection_views(vector@))
                        + fts_detections(bm25_views(fts_results@), text@, now),
                    old(self).last_reported(),
                    old(self).settings().cooldown_ms,
                    old(self).settings().auto_queue_threshold,
                ) == (merged_views(r@), final(self).last_reported()),
    {
        let now = unix_millis_now();
        let ghost v = detection_views(vector@);
        let r = self.process_hybrid_with_fts_at(text, vector, fts_results, now);
        assert(merge_outcome(
            semantic_used(old(self).settings(), text@, v) + fts_detections(
                bm25_views(fts_results@),
                text@,
                now,
            ),
            old(self).last_reported(),
            old(self).settings().cooldown_ms,
            old(self).settings().auto_queue_threshold,
        ) == (merged_views(r@), self.last_reported()));
        r
    }

    /// `process_hybrid_with_fts` at `now` (milliseconds since the Unix
    /// epoch): every full-text detection is stamped `now`.
    pub fn process_hybrid_with_fts_at(
        &mut self,
        text: &str,
        vector: Vec<Detection>,
        fts_results: &[Bm25Result],
        now: u64,
    ) -> (r: Vec<MergedDetection>)
        ensures
            final(self).settings() == old(self).settings(),
            merged_views(r@) == merge_outcome(
                semantic_used(old(self).settings(), text@, detection_views(vector@))
                    + fts_detections(bm25_views(fts_results@), text@, now),
                old(self).last_reported(),
                old(self).settings().cooldown_ms,
                old(self).settings().auto_queue_threshold,
            ).0,
            final(self).last_reported() == merge_outcome(
                semantic_used(old(self).settings(), text@, detection_views(vector@))
                    + fts_detections(bm25_views(fts_results@), text@, now),
                old(self).last_reported(),
                old(self).settings().cooldown_ms,
                old(self).settings().auto_queue_threshold,
            ).1,
    {
        let vector_detections = if self.semantic.is_ready() && word_count(text)
            >= MIN_WORDS_FOR_VECTOR {
            vector
        } else {
            Vec::new()
        };
        let ghost vs = semantic_used(old(self).settings(), text@, detection_views(vector@));
        assert(detection_views(vector_detections@) =~= vs);
        let none: Vec<Detection> = Vec::new();
        if fts_results.len() == 0 {
            assert(fts_detections(bm25_views(fts_results@), text@, now) =~= Seq::<
                DetectionView,
            >::empty());
            assert(detection_views(none@) + detection_views(vector_detections@) =~= vs
                + fts_detections(bm25_views(fts_results@), text@, now));
            return self.merger.merge(none, vector_detections);
        }
        let fts_detections_found = fts_to_detections(fts_results, text, now);
        let mut all = vector_detections;
        let mut found = fts_detections_found;
        let ghost fts_view = detection_views(found@);
        all.append(&mut found);
        assert(detection_views(none@) + detection_views(all@) =~= vs + fts_view);
        self.merger.merge(none, all)
    }

    /// Runs a standalone semantic search query (for the search UI), with
    /// `hits` the verse ids and similarities, in thousandths, that the
    /// semantic index returned for `query`: at most `k` of them, none without
    /// a model.
    pub fn semantic_search(&mut self, query: &str, k: usize, hits: Vec<(i64, u32)>) -> (r: Vec<
        (i64, u32),
    >)
        ensures
            final(self).settings() == old(self).settings(),
            final(self).last_reported() == old(self).last_reported(),
            r@ == if old(self).settings().semantic_ready {
                hits@.take(if k < hits@.len() { k as int } else { hits@.len() as int })
            } else {
                Seq::empty()
            },
    {
        let mut r: Vec<(i64, u32)> = Vec::new();
        if !self.semantic.is_ready() {
            return r;
        }
        let mut i: usize = 0;
        while i < hits.len() && i < k
            invariant
                i <= hits@.len(),
                i <= k,
                r@ == hits@.take(i as int),
            decreases hits@.len() - i,
        {
            r.push(hits[i]);
            assert(hits@.take(i + 1) =~= hits@.take(i as int).push(hits@[i as int]));
            i = i + 1;
        }
        r
    }
}

impl Default for DetectionPipeline {
    fn default() -> (r: Self)
        ensures
            r.settings() == (PipelineSettings {
                direct_confidence: DIRECT_CONFIDENCE_PERMILLE,
                auto_queue_threshold: DEFAULT_AUTO_QUEUE_THRESHOLD_PERMILLE,
                cooldown_ms: DEFAULT_COOLDOWN_MS,
                semantic_ready: false,
                synonyms: false,
            }),
            r.last_reported() == Map::<(i32, i32, i32), u64>::empty(),
    {
        Self::new()
    }
}


// ---------------------------------------------------------------------------
// Laws
// ---------------------------------------------------------------------------

/// Full-text hits are kept in rank order with confidences that fall by the
/// decay from rank to rank and never below the minimum, all stamped with the
/// same time.
pub proof fn law_fts_confidences(fts: Seq<Bm25View>, text: Seq<char>, now: u64)
    ensures
        forall|k: int|
            0 <= k < fts_detections(fts, text, now).len() ==> {
                &&& (#[trigger] fts_detections(fts, text, now)[k]).confidence_permille
                    >= FTS5_MIN_CONFIDENCE_PERMILLE
                &&& fts_detections(fts, text, now)[k].confidence_permille
                    == FTS5_RANK0_CONFIDENCE_PERMILLE - k * FTS5_CONFIDENCE_DECAY_PERMILLE
                &&& fts_detections(fts, text, now)[k].verse_start == fts[k].verse
                &&& fts_detections(fts, text, now)[k].detected_at == now
            },
        fts_detections(fts, text, now).len() <= fts.len(),
{
}

/// What is reported is taken, in order, from the grouped detections outside
/// the cooldown, each queued automatically exactly when its confidence
/// reaches the threshold; every grouped detection outside the cooldown is
/// reported; and, the grouping naming each verse once, so does the report.
proof fn lemma_reported(
    gs: Seq<DetectionView>,
    recent: Map<(i32, i32, i32), u64>,
    cooldown: u64,
    threshold: u32,
)
    ensures
        forall|o: int|
            #![trigger reported(gs, recent, cooldown, threshold)[o]]
            0 <= o < reported(gs, recent, cooldown, threshold).len() ==> {
                &&& reported(gs, recent, cooldown, threshold)[o].auto_queued == (reported(
                    gs,
                    recent,
                    cooldown,
                    threshold,
                )[o].detection.confidence_permille >= threshold)
                &&& exists|j: int|
                    0 <= j < gs.len() && reported(gs, recent, cooldown, threshold)[o].detection
                        == #[trigger] gs[j] && !in_cooldown(recent, gs[j], cooldown)
            },
        forall|j: int|
            #![trigger gs[j]]
            0 <= j < gs.len() && !in_cooldown(recent, gs[j], cooldown) ==> exists|o: int|
                0 <= o < reported(gs, recent, cooldown, threshold).len() && (#[trigger] reported(
                    gs,
                    recent,
                    cooldown,
                    threshold,
                )[o]).detection == gs[j],
        (forall|i: int, j: int| 0 <= i < j < gs.len() ==> !same_verse(#[trigger] gs[i], #[trigger] gs[j]))
            ==> forall|a: int, b: int|
            0 <= a < b < reported(gs, recent, cooldown, threshold).len() ==> !same_verse(
                (#[trigger] reported(gs, recent, cooldown, threshold)[a]).detection,
                (#[trigger] reported(gs, recent, cooldown, threshold)[b]).detection,
            ),
    decreases gs.len(),
{
    if gs.len() > 0 {
        let init = gs.drop_last();
        lemma_reported(init, recent, cooldown, threshold);
        let prev = reported(init, recent, cooldown, threshold);
        let cur = reported(gs, recent, cooldown, threshold);
        let g = gs.last();
        assert(gs[gs.len() - 1] == g);
        assert forall|o: int| #![trigger cur[o]] 0 <= o < cur.len() implies {
            &&& cur[o].auto_queued == (cur[o].detection.confidence_permille >= threshold)
            &&& exists|j: int|
                0 <= j < gs.len() && cur[o].detection == #[trigger] gs[j] && !in_cooldown(
                    recent,
                    gs[j],
                    cooldown,
                )
        } by {
            if o < prev.len() {
                assert(cur[o] == prev[o]);
                let j = choose|j: int|
                    0 <= j < init.len() && prev[o].detection == #[trigger] init[j] && !in_cooldown(
                        recent,
                        init[j],
                        cooldown,
                    );
                assert(gs[j] == init[j]);
            } else {
                assert(cur[o].detection == gs[gs.len() - 1]);
            }
        }
        assert forall|j: int|
            #![trigger gs[j]]
            0 <= j < gs.len() && !in_cooldown(recent, gs[j], cooldown) implies exists|o: int|
            0 <= o < cur.len() && (#[trigger] cur[o]).detection == gs[j] by {
            if j < init.len() {
                assert(init[j] == gs[j]);
                let o = choose|o: int| 0 <= o < prev.len() && (#[trigger] prev[o]).detection == init[j];
                assert(cur[o] == prev[o]);
            } else {
                assert(cur[prev.len() as int].detection == g);
            }
        }
        if forall|i: int, j: int| 0 <= i < j < gs.len() ==> !same_verse(#[trigger] gs[i], #[trigger] gs[j]) {
            assert forall|i: int, j: int| 0 <= i < j < init.len() implies !same_verse(
                #[trigger] init[i],
                #[trigger] init[j],
            ) by {
                assert(init[i] == gs[i] && init[j] == gs[j]);
            }
            assert forall|a: int, b: int| 0 <= a < b < cur.len() implies !same_verse(
                (#[trigger] cur[a]).detection,
                (#[trigger] cur[b]).detection,
            ) by {
                assert(cur[a] == prev[a]);
                if b < prev.len() {
                    assert(cur[b] == prev[b]);
                } else {
                    let j = choose|j: int|
                        0 <= j < init.len() && prev[a].detection == #[trigger] init[j]
                            && !in_cooldown(recent, init[j], cooldown);
                    assert(init[j] == gs[j]);
                    assert(cur[b].detection == gs[gs.len() - 1]);
                }
            }
        }
    }
}

/// When the grouping names each verse once, every grouped detection
/// reported is recorded at the time of its detection.
proof fn lemma_recorded(gs: Seq<DetectionView>, recent: Map<(i32, i32, i32), u64>, cooldown: u64)
    requires
        forall|i: int, j: int| 0 <= i < j < gs.len() ==> !same_verse(#[trigger] gs[i], #[trigger] gs[j]),
    ensures
        forall|j: int|
            0 <= j < gs.len() && !in_cooldown(recent, #[trigger] gs[j], cooldown) ==> {
                &&& recorded(gs, recent, cooldown).contains_key(verse_key(gs[j]))
                &&& recorded(gs, recent, cooldown)[verse_key(gs[j])] == gs[j].detected_at
            },
    decreases gs.len(),
{
    if gs.len() > 0 {
        let init = gs.drop_last();
        assert forall|i: int, j: int| 0 <= i < j < init.len() implies !same_verse(
            #[trigger] init[i],
            #[trigger] init[j],
        ) by {
            assert(init[i] == gs[i] && init[j] == gs[j]);
        }
        lemma_recorded(init, recent, cooldown);
        assert forall|j: int|
            0 <= j < gs.len() && !in_cooldown(recent, #[trigger] gs[j], cooldown) implies {
            &&& recorded(gs, recent, cooldown).contains_key(verse_key(gs[j]))
            &&& recorded(gs, recent, cooldown)[verse_key(gs[j])] == gs[j].detected_at
        } by {
            if j < init.len() {
                assert(init[j] == gs[j]);
                assert(!same_verse(gs[j], gs[gs.len() - 1]));
            }
        }
    }
}

/// When every detection of a batch has at least confidence `c`, so has every
/// grouped detection.
proof fn lemma_grouped_floor(ds: Seq<DetectionView>, c: u32)
    requires
        forall|i: int| 0 <= i < ds.len() ==> (#[trigger] ds[i]).confidence_permille >= c,
    ensures
        forall|j: int| 0 <= j < grouped(ds).len() ==> (#[trigger] grouped(ds)[j]).confidence_permille >= c,
    decreases ds.len(),
{
    if ds.len() > 0 {
        let init = ds.drop_last();
        assert forall|i: int| 0 <= i < init.len() implies (#[trigger] init[i]).confidence_permille >= c by {
            assert(init[i] == ds[i]);
        }
        lemma_grouped_floor(init, c);
        lemma_grouped_step(ds);
        assert(ds[ds.len() - 1] == ds.last());
    }
}

proof fn lemma_merge_distinct(
    ds: Seq<DetectionView>,
    recent: Map<(i32, i32, i32), u64>,
    cooldown: u64,
    threshold: u32,
)
    ensures
        forall|a: int, b: int|
            0 <= a < b < reported(grouped(ds), recent, cooldown, threshold).len() ==> !same_verse(
                (#[trigger] reported(grouped(ds), recent, cooldown, threshold)[a]).detection,
                (#[trigger] reported(grouped(ds), recent, cooldown, threshold)[b]).detection,
            ),
{
    lemma_grouped_distinct(ds);
    lemma_reported(grouped(ds), recent, cooldown, threshold);
}

proof fn lemma_merge_from_batch(
    ds: Seq<DetectionView>,
    recent: Map<(i32, i32, i32), u64>,
    cooldown: u64,
    threshold: u32,
)
    ensures
        forall|o: int|
            #![trigger reported(grouped(ds), recent, cooldown, threshold)[o]]
            0 <= o < reported(grouped(ds), recent, cooldown, threshold).len() ==> reported(
                grouped(ds),
                recent,
                cooldown,
                threshold,
            )[o].auto_queued == (reported(grouped(ds), recent, cooldown, threshold)[o].detection.confidence_permille
                >= threshold) && exists|i: int|
                0 <= i < ds.len() && same_verse(
                    #[trigger] ds[i],
                    reported(grouped(ds), recent, cooldown, threshold)[o].detection,
                ),
{
    let gs = grouped(ds);
    let out = reported(gs, recent, cooldown, threshold);
    lemma_grouped_from_batch(ds);
    lemma_reported(gs, recent, cooldown, threshold);
    assert forall|o: int|
        #![trigger out[o]]
        0 <= o < out.len() implies out[o].auto_queued == (out[o].detection.confidence_permille
        >= threshold) && exists|i: int|
        0 <= i < ds.len() && same_verse(#[trigger] ds[i], out[o].detection) by {
        let j = choose|j: int|
            0 <= j < gs.len() && out[o].detection == #[trigger] gs[j] && !in_cooldown(
                recent,
                gs[j],
                cooldown,
            );
        let i = choose|i: int| 0 <= i < ds.len() && same_verse(#[trigger] ds[i], gs[j]);
    }
}

proof fn lemma_merge_reports_new_verses(
    ds: Seq<DetectionView>,
    recent: Map<(i32, i32, i32), u64>,
    cooldown: u64,
    threshold: u32,
)
    ensures
        forall|i: int|
            #![trigger ds[i]]
            0 <= i < ds.len() && !recent.contains_key(verse_key(ds[i])) ==> exists|o: int|
                0 <= o < reported(grouped(ds), recent, cooldown, threshold).len() && same_verse(
                    (#[trigger] reported(grouped(ds), recent, cooldown, threshold)[o]).detection,
                    ds[i],
                ),
{
    let gs = grouped(ds);
    let out = reported(gs, recent, cooldown, threshold);
    lemma_grouped_covers(ds);
    lemma_reported(gs, recent, cooldown, threshold);
    assert forall|i: int|
        #![trigger ds[i]]
        0 <= i < ds.len() && !recent.contains_key(verse_key(ds[i])) implies exists|o: int|
        0 <= o < out.len() && same_verse((#[trigger] out[o]).detection, ds[i]) by {
        let j = choose|j: int|
            0 <= j < gs.len() && same_verse(#[trigger] gs[j], ds[i])
                && gs[j].confidence_permille >= ds[i].confidence_permille;
        assert(!in_cooldown(recent, gs[j], cooldown));
        let o = choose|o: int| 0 <= o < out.len() && (#[trigger] out[o]).detection == gs[j];
    }
}

/// A merge reports each verse at most once, from a detection of the batch,
/// queued automatically exactly when its confidence reaches the threshold;
/// and a verse of the batch that was never reported before is reported.
pub proof fn law_merge_keeps_each_verse_once(
    ds: Seq<DetectionView>,
    recent: Map<(i32, i32, i32), u64>,
    cooldown: u64,
    threshold: u32,
)
    ensures
        ({
            let out = merge_outcome(ds, recent, cooldown, threshold).0;
            &&& forall|a: int, b: int|
                0 <= a < b < out.len() ==> !same_verse(
                    (#[trigger] out[a]).detection,
                    (#[trigger] out[b]).detection,
                )
            &&& forall|o: int|
                #![trigger out[o]]
                0 <= o < out.len() ==> out[o].auto_queued == (out[o].detection.confidence_permille
                    >= threshold) && exists|i: int|
                    0 <= i < ds.len() && same_verse(#[trigger] ds[i], out[o].detection)
            &&& forall|i: int|
                #![trigger ds[i]]
                0 <= i < ds.len() && !recent.contains_key(verse_key(ds[i])) ==> exists|o: int|
                    0 <= o < out.len() && same_verse((#[trigger] out[o]).detection, ds[i])
        }),
{
    lemma_merge_distinct(ds, recent, cooldown, threshold);
    lemma_merge_from_batch(ds, recent, cooldown, threshold);
    lemma_merge_reports_new_verses(ds, recent, cooldown, threshold);
}

/// A verse detected twice in one batch is reported, if at all, with a
/// confidence above that of its first detection (when that was below
/// certainty): found by both vector and full-text search, say.
pub proof fn law_found_twice_is_boosted(
    ds: Seq<DetectionView>,
    recent: Map<(i32, i32, i32), u64>,
    cooldown: u64,
    threshold: u32,
    i: int,
    k: int,
)
    requires
        0 <= i < k < ds.len(),
        same_verse(ds[i], ds[k]),
        ds[i].confidence_permille < MAX_CONFIDENCE_PERMILLE,
    ensures
        forall|o: int|
            0 <= o < merge_outcome(ds, recent, cooldown, threshold).0.len() && same_verse(
                (#[trigger] merge_outcome(ds, recent, cooldown, threshold).0[o]).detection,
                ds[i],
            ) ==> merge_outcome(ds, recent, cooldown, threshold).0[o].detection.confidence_permille
                > ds[i].confidence_permille,
{
    let gs = grouped(ds);
    let out = merge_outcome(ds, recent, cooldown, threshold).0;
    lemma_grouped_distinct(ds);
    lemma_grouped_boost(ds);
    lemma_reported(gs, recent, cooldown, threshold);
    assert(same_verse(ds[i], ds[k]));
    let j = choose|j: int|
        0 <= j < gs.len() && same_verse(#[trigger] gs[j], ds[i]) && gs[j].confidence_permille
            > ds[i].confidence_permille;
    assert forall|o: int|
        0 <= o < out.len() && same_verse((#[trigger] out[o]).detection, ds[i]) implies out[o].detection.confidence_permille
        > ds[i].confidence_permille by {
        let j2 = choose|j2: int|
            0 <= j2 < gs.len() && out[o].detection == #[trigger] gs[j2] && !in_cooldown(
                recent,
                gs[j2],
                cooldown,
            );
        if j2 != j {
            if j2 < j {
                assert(!same_verse(gs[j2], gs[j]));
            } else {
                assert(!same_verse(gs[j], gs[j2]));
            }
        }
    }
}

/// A verse found by vector search and again among the kept full-text hits
/// is reported, if at all, with a confidence above the vector detection's
/// (when that was below certainty).
pub proof fn law_found_by_both_searches_is_boosted(
    vector: Seq<DetectionView>,
    fts: Seq<Bm25View>,
    text: Seq<char>,
    now: u64,
    recent: Map<(i32, i32, i32), u64>,
    cooldown: u64,
    threshold: u32,
    i: int,
    rank: int,
)
    requires
        0 <= i < vector.len(),
        0 <= rank < fts_detections(fts, text, now).len(),
        same_verse(vector[i], fts_detections(fts, text, now)[rank]),
        vector[i].confidence_permille < MAX_CONFIDENCE_PERMILLE,
    ensures
        forall|o: int|
            0 <= o < merge_outcome(vector + fts_detections(fts, text, now), recent, cooldown, threshold).0.len()
                && same_verse(
                (#[trigger] merge_outcome(
                    vector + fts_detections(fts, text, now),
                    recent,
                    cooldown,
                    threshold,
                ).0[o]).detection,
                vector[i],
            ) ==> merge_outcome(
                vector + fts_detections(fts, text, now),
                recent,
                cooldown,
                threshold,
            ).0[o].detection.confidence_permille > vector[i].confidence_permille,
{
    let ds = vector + fts_detections(fts, text, now);
    assert(ds[i] == vector[i]);
    assert(ds[vector.len() + rank] == fts_detections(fts, text, now)[rank]);
    law_found_twice_is_boosted(ds, recent, cooldown, threshold, i, vector.len() + rank);
}

/// A verse reported by one merge is not reported again by the next from a
/// detection made within the cooldown of that report: reusing one pipeline
/// keeps this cooldown across transcript segments.
pub proof fn law_repeat_within_cooldown_is_held_back(
    first: Seq<DetectionView>,
    second: Seq<DetectionView>,
    recent: Map<(i32, i32, i32), u64>,
    cooldown: u64,
    threshold: u32,
)
    ensures
        ({
            let (out1, after) = merge_outcome(first, recent, cooldown, threshold);
            let out2 = merge_outcome(second, after, cooldown, threshold).0;
            forall|a: int, b: int|
                0 <= a < out1.len() && 0 <= b < out2.len() && same_verse(
                    (#[trigger] out1[a]).detection,
                    (#[trigger] out2[b]).detection,
                ) ==> out2[b].detection.detected_at >= out1[a].detection.detected_at + cooldown
        }),
{
    let g1 = grouped(first);
    let g2 = grouped(second);
    let (out1, after) = merge_outcome(first, recent, cooldown, threshold);
    let out2 = merge_outcome(second, after, cooldown, threshold).0;
    lemma_grouped_distinct(first);
    lemma_reported(g1, recent, cooldown, threshold);
    lemma_reported(g2, after, cooldown, threshold);
    lemma_recorded(g1, recent, cooldown);
    assert forall|a: int, b: int|
        0 <= a < out1.len() && 0 <= b < out2.len() && same_verse(
            (#[trigger] out1[a]).detection,
            (#[trigger] out2[b]).detection,
        ) implies out2[b].detection.detected_at >= out1[a].detection.detected_at + cooldown by {
        let j1 = choose|j1: int|
            0 <= j1 < g1.len() && out1[a].detection == #[trigger] g1[j1] && !in_cooldown(
                recent,
                g1[j1],
                cooldown,
            );
        let j2 = choose|j2: int|
            0 <= j2 < g2.len() && out2[b].detection == #[trigger] g2[j2] && !in_cooldown(
                after,
                g2[j2],
                cooldown,
            );
        assert(after.contains_key(verse_key(g1[j1])));
        assert(after[verse_key(g1[j1])] == g1[j1].detected_at);
    }
}

/// With the default detector and merger, every direct detection reported is
/// queued automatically: its confidence, boosted or not, is above the
/// threshold.
pub proof fn law_direct_detections_auto_queued(
    text: Seq<char>,
    now: u64,
    recent: Map<(i32, i32, i32), u64>,
    cooldown: u64,
)
    ensures
        forall|o: int|
            0 <= o < merge_outcome(
                direct_detections(text, DIRECT_CONFIDENCE_PERMILLE, now),
                recent,
                cooldown,
                DEFAULT_AUTO_QUEUE_THRESHOLD_PERMILLE,
            ).0.len() ==> (#[trigger] merge_outcome(
                direct_detections(text, DIRECT_CONFIDENCE_PERMILLE, now),
                recent,
                cooldown,
                DEFAULT_AUTO_QUEUE_THRESHOLD_PERMILLE,
            ).0[o]).auto_queued,
{
    let ds = direct_detections(text, DIRECT_CONFIDENCE_PERMILLE, now);
    let gs = grouped(ds);
    let out = merge_outcome(ds, recent, cooldown, DEFAULT_AUTO_QUEUE_THRESHOLD_PERMILLE).0;
    assert forall|i: int| 0 <= i < ds.len() implies (#[trigger] ds[i]).confidence_permille
        >= DIRECT_CONFIDENCE_PERMILLE by {}
    lemma_grouped_floor(ds, DIRECT_CONFIDENCE_PERMILLE);
    lemma_reported(gs, recent, cooldown, DEFAULT_AUTO_QUEUE_THRESHOLD_PERMILLE);
    assert forall|o: int| 0 <= o < out.len() implies (#[trigger] out[o]).auto_queued by {
        let j = choose|j: int|
            0 <= j < gs.len() && out[o].detection == #[trigger] gs[j] && !in_cooldown(
                recent,
                gs[j],
                cooldown,
            );
    }
}

/// The full-text detection at rank `k` is the `k`-th hit: it names that
/// hit's book (number and name), chapter and verse, with no verse range or
/// verse id, and carries the transcript and the time given; the first seven
/// hits are kept, in rank order.
pub proof fn law_fts_detections_name_their_hits(fts: Seq<Bm25View>, text: Seq<char>, now: u64)
    ensures
        fts_detections(fts, text, now).len() == if fts.len() < 7 {
            fts.len() as int
        } else {
            7
        },
        forall|k: int|
            0 <= k < fts_detections(fts, text, now).len() ==> {
                let d = #[trigger] fts_detections(fts, text, now)[k];
                &&& d.book_number == fts[k].book_number
                &&& d.book_name == fts[k].book_name
                &&& d.chapter == fts[k].chapter
                &&& d.verse_start == fts[k].verse
                &&& d.verse_end is None
                &&& d.verse_id is None
                &&& d.snippet == text
                &&& d.detected_at == now
                &&& !d.is_chapter_only
                &&& d.source == DetectionSource::Semantic {
                    similarity_permille: d.confidence_permille,
                }
            },
{
}

} // verus!
