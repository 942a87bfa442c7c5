use crate::json::opt_view;
use crate::progress::ProgressState;
use crate::ranking::{
    in_order, is_arrangement, key_views, lemma_rank_order, rank_order, ranked_order, ranks_before,
    KeyView, RankKey,
};
use crate::tags::{count_views, names, TagCount, TagCountView};
use crate::text::{chars_of, lowercase_of, to_lowercase};
use vstd::prelude::*;
use vstd::utf8::encode_utf8;

verus! {

/// The greatest difference in length between two tags that are compared.
pub const MAX_LENGTH_DIFF: usize = 10;

/// How often the progress of a scan over all pairs is renewed, in tags.
pub const PROGRESS_STRIDE: usize = 10;

/// The highest score: that of two equal texts.
pub const MAX_SCORE: i32 = 100;

/// A tag found similar, with its score out of 100.
#[derive(Debug, Clone, PartialEq, Eq)]
pub struct SimilarityMatch {
    pub tag: String,
    pub count: usize,
    pub score: i32,
    /// The tag it was found similar to; absent where a query was given.
    pub matched_against: Option<String>,
}

/// The mathematical content of a `SimilarityMatch`.
pub struct MatchView {
    pub tag: Seq<char>,
    pub count: nat,
    pub score: int,
    pub matched_against: Option<Seq<char>>,
}

impl View for SimilarityMatch {
    type V = MatchView;

    open spec fn view(&self) -> MatchView {
        MatchView {
            tag: self.tag@,
            count: self.count as nat,
            score: self.score as int,
            matched_against: opt_view(self.matched_against),
        }
    }
}

/// The views of a list of matches.
pub open spec fn match_views(matches: Seq<SimilarityMatch>) -> Seq<MatchView> {
    Seq::new(matches.len(), |i: int| matches[i]@)
}

/// A match as the scan keeps it: by the places of its tags in the tag list.
pub struct Found {
    pub primary: nat,
    pub other: Option<nat>,
    pub score: int,
}

/// A score as it is kept: between 0 and 100. A score that is reported below
/// counts as 0, one above as 100.
pub open spec fn kept_score(score: int) -> int {
    if score < 0 {
        0
    } else if score > MAX_SCORE {
        MAX_SCORE as int
    } else {
        score
    }
}

/// The length in bytes of the lowercase form of a tag.
pub open spec fn lower_len(name: Seq<char>) -> nat {
    encode_utf8(lowercase_of(name)).len()
}

/// Two tags are compared only if their lowercase forms differ in length by
/// ten bytes at most.
pub open spec fn comparable(a: Seq<char>, b: Seq<char>) -> bool {
    lower_len(a) - lower_len(b) <= MAX_LENGTH_DIFF && lower_len(b) - lower_len(a)
        <= MAX_LENGTH_DIFF
}

/// The first pair of places at or after (`left`, `right`) whose tags are
/// compared; both places are the number of tags where there is none.
pub open spec fn settle(tags: Seq<TagCountView>, left: nat, right: nat) -> (nat, nat)
    decreases tags.len() - left, tags.len() - right,
{
    if left >= tags.len() {
        (tags.len(), tags.len())
    } else if right >= tags.len() {
        settle(tags, left + 1, left + 2)
    } else if left < right && comparable(tags[left as int].name, tags[right as int].name) {
        (left, right)
    } else {
        settle(tags, left, right + 1)
    }
}

/// The pair (`a`, `b`) comes before the pair (`c`, `d`).
pub open spec fn pair_before(a: nat, b: nat, c: nat, d: nat) -> bool {
    a < c || (a == c && b < d)
}

/// The match that a found entry stands for.
pub open spec fn match_of(tags: Seq<TagCountView>, f: Found) -> MatchView {
    MatchView {
        tag: tags[f.primary as int].name,
        count: tags[f.primary as int].count,
        score: f.score,
        matched_against: match f.other {
            Some(o) => Some(tags[o as int].name),
            None => None,
        },
    }
}

/// The key by which a match is ranked: its score, its count, its lowercase tag.
pub open spec fn match_key(m: MatchView) -> KeyView {
    KeyView { score: m.score, count: m.count as int, lower: lowercase_of(m.tag) }
}

/// The state of a scan for similar tags, as mathematics.
pub struct ScanModel {
    /// The lowercase form of the query; absent in a scan over all pairs.
    pub query: Option<Seq<char>>,
    pub tags: Seq<TagCountView>,
    pub threshold: int,
    /// The place of the tag, or of the first tag of the pair, that is scored next.
    pub left: nat,
    /// The place of the second tag of the pair that is scored next.
    pub right: nat,
    pub found: Seq<Found>,
}

/// What a scan asks of its driver next, as mathematics.
pub enum ScanStepView {
    Score { left: Seq<char>, right: Seq<char> },
    Done(Seq<MatchView>),
}

impl ScanModel {
    /// The state of a scan that has scored nothing yet.
    pub open spec fn initial(
        query: Option<Seq<char>>,
        tags: Seq<TagCountView>,
        threshold: int,
    ) -> ScanModel {
        let cursor = if query is Some {
            (0nat, 0nat)
        } else {
            settle(tags, 0, 1)
        };
        ScanModel { query, tags, threshold, left: cursor.0, right: cursor.1, found: Seq::empty() }
    }

    /// The entry `f` is one that a scan with a query makes.
    pub open spec fn query_entry(self, f: Found) -> bool {
        &&& f.other is None
        &&& f.primary < self.left
        &&& f.score >= self.threshold
        &&& 0 <= f.score <= MAX_SCORE
    }

    /// The entry `f` is one that a scan over all pairs makes: for a pair of
    /// places that has been passed and is compared, with the tag of the higher
    /// count first, and the first of the pair where the counts are equal.
    pub open spec fn pair_entry(self, f: Found) -> bool {
        &&& f.other is Some
        &&& f.primary != f.other->0
        &&& f.primary < self.tags.len()
        &&& f.other->0 < self.tags.len()
        &&& f.score >= self.threshold
        &&& 0 <= f.score <= MAX_SCORE
        &&& pair_before(pair_low(f), pair_high(f), self.left, self.right)
        &&& comparable(self.tags[f.primary as int].name, self.tags[f.other->0 as int].name)
        &&& self.tags[f.primary as int].count >= self.tags[f.other->0 as int].count
        &&& self.tags[f.primary as int].count == self.tags[f.other->0 as int].count ==> f.primary
            < f.other->0
    }

    /// The state is one that the steps of a scan lead to: what was found came
    /// from the tags and pairs that have been passed, in the order in which
    /// they were passed, each at most once.
    pub open spec fn wf(self) -> bool {
        &&& self.tags.len() <= usize::MAX
        &&& self.left <= self.tags.len()
        &&& self.found.len() <= usize::MAX
        &&& self.query is Some ==> {
            &&& self.right == 0
            &&& forall|k: int|
                0 <= k < self.found.len() ==> self.query_entry(#[trigger] self.found[k])
            &&& forall|j: int, k: int|
                0 <= j < k < self.found.len() ==> (#[trigger] self.found[j]).primary < (
                #[trigger] self.found[k]).primary
        }
        &&& self.query is None ==> {
            &&& (self.left, self.right) == settle(self.tags, self.left, self.right)
            &&& self.left < self.tags.len() ==> self.left < self.right < self.tags.len()
            &&& forall|k: int|
                0 <= k < self.found.len() ==> self.pair_entry(#[trigger] self.found[k])
            &&& forall|j: int, k: int|
                0 <= j < k < self.found.len() ==> pair_before(
                    pair_low(#[trigger] self.found[j]),
                    pair_high(self.found[j]),
                    pair_low(#[trigger] self.found[k]),
                    pair_high(self.found[k]),
                )
        }
    }

    /// Nothing is left to score.
    pub open spec fn finished(self) -> bool {
        self.left >= self.tags.len()
    }

    /// The keys by which what was found is ranked.
    pub open spec fn found_keys(self) -> Seq<KeyView> {
        Seq::new(self.found.len(), |i: int| match_key(match_of(self.tags, self.found[i])))
    }

    /// What was found, in ranked order: the higher score first, then the higher
    /// count, then the lowercase tag in lexicographic order; matches alike in
    /// all three in the order in which they were found.
    pub open spec fn ranked(self) -> Seq<MatchView> {
        let order = rank_order(self.found_keys(), self.found.len());
        Seq::new(self.found.len(), |k: int| match_of(self.tags, self.found[order[k] as int]))
    }

    /// What is asked of the driver in this state.
    pub open spec fn step(self) -> ScanStepView {
        if self.finished() {
            ScanStepView::Done(self.ranked())
        } else {
            match self.query {
                Some(q) => ScanStepView::Score {
                    left: q,
                    right: lowercase_of(self.tags[self.left as int].name),
                },
                None => ScanStepView::Score {
                    left: lowercase_of(self.tags[self.left as int].name),
                    right: lowercase_of(self.tags[self.right as int].name),
                },
            }
        }
    }

    /// The entry that is kept for the pair awaited, scored `score`: the tag with
    /// the higher count comes first, and the first of the pair on equal counts.
    pub open spec fn pair_found(self, score: int) -> Found {
        if self.tags[self.left as int].count >= self.tags[self.right as int].count {
            Found { primary: self.left, other: Some(self.right), score }
        } else {
            Found { primary: self.right, other: Some(self.left), score }
        }
    }

    /// The state after the awaited score has come in: the score is kept as
    /// `kept_score` gives it, where that reaches the threshold, and the scan
    /// goes on to the next tag, or to the next pair that is compared.
    pub open spec fn after_score(self, score: int) -> ScanModel {
        let kept = kept_score(score);
        if self.finished() {
            self
        } else {
            match self.query {
                Some(_) => ScanModel {
                    left: self.left + 1,
                    found: if kept >= self.threshold {
                        self.found.push(Found { primary: self.left, other: None, score: kept })
                    } else {
                        self.found
                    },
                    ..self
                },
                None => {
                    let next = settle(self.tags, self.left, self.right + 1);
                    ScanModel {
                        left: next.0,
                        right: next.1,
                        found: if kept >= self.threshold {
                            self.found.push(self.pair_found(kept))
                        } else {
                            self.found
                        },
                        ..self
                    }
                },
            }
        }
    }

    /// The state after the scores `scores` have come in, one after the other.
    pub open spec fn run(self, scores: Seq<int>) -> ScanModel
        decreases scores.len(),
    {
        if scores.len() == 0 {
            self
        } else {
            self.run(scores.drop_last()).after_score(scores.last())
        }
    }
}

/// The lower place of the pair of a found entry.
pub open spec fn pair_low(f: Found) -> nat {
    if f.other is Some && f.other->0 < f.primary {
        f.other->0
    } else {
        f.primary
    }
}

/// The higher place of the pair of a found entry.
pub open spec fn pair_high(f: Found) -> nat {
    if f.other is Some && f.other->0 < f.primary {
        f.primary
    } else if f.other is Some {
        f.other->0
    } else {
        f.primary
    }
}

/// Where `settle` comes to rest: at the end, or on a pair that is compared, not
/// before where it began.
pub proof fn lemma_settle(tags: Seq<TagCountView>, left: nat, right: nat)
    requires
        left < right || left >= tags.len(),
    ensures
        ({
            let s = settle(tags, left, right);
            &&& s == settle(tags, s.0, s.1)
            &&& s.0 <= tags.len()
            &&& s.0 < tags.len() ==> s.0 < s.1 < tags.len() && comparable(
                tags[s.0 as int].name,
                tags[s.1 as int].name,
            )
            &&& s.0 >= tags.len() ==> s.1 == tags.len()
            &&& left < tags.len() ==> !pair_before(s.0, s.1, left, right)
        }),
    decreases tags.len() - left, tags.len() - right,
{
    if left >= tags.len() {
    } else if right >= tags.len() {
        lemma_settle(tags, left + 1, left + 2);
    } else if left < right && comparable(tags[left as int].name, tags[right as int].name) {
    } else {
        lemma_settle(tags, left, right + 1);
    }
}

/// `settle` passes over no pair that is compared: such a pair at or after the
/// place where it begins is at or after the place where it comes to rest.
pub proof fn lemma_settle_passes_none(
    tags: Seq<TagCountView>,
    left: nat,
    right: nat,
    i: nat,
    j: nat,
)
    requires
        left < right || left >= tags.len(),
        i < j < tags.len(),
        comparable(tags[i as int].name, tags[j as int].name),
        !pair_before(i, j, left, right),
    ensures
        !pair_before(i, j, settle(tags, left, right).0, settle(tags, left, right).1),
    decreases tags.len() - left, tags.len() - right,
{
    if left >= tags.len() {
    } else if right >= tags.len() {
        lemma_settle_passes_none(tags, left + 1, left + 2, i, j);
    } else if left < right && comparable(tags[left as int].name, tags[right as int].name) {
    } else {
        lemma_settle_passes_none(tags, left, right + 1, i, j);
    }
}

/// A scan over all pairs begins at the first pair that is compared.
pub proof fn lemma_first_pair(tags: Seq<TagCountView>, threshold: int, i: nat, j: nat)
    requires
        i < j < tags.len(),
        comparable(tags[i as int].name, tags[j as int].name),
    ensures
        !pair_before(
            i,
            j,
            ScanModel::initial(None, tags, threshold).left,
            ScanModel::initial(None, tags, threshold).right,
        ),
{
    lemma_settle_passes_none(tags, 0, 1, i, j);
}

/// A score moves a scan over all pairs to the next pair that is compared: no
/// such pair lies between the pair that was scored and the pair that is scored
/// next. So the scan asks for the score of every pair that is compared, once.
pub proof fn lemma_no_pair_passed_over(m: ScanModel, score: int, i: nat, j: nat)
    requires
        m.wf(),
        m.query is None,
        !m.finished(),
        i < j < m.tags.len(),
        comparable(m.tags[i as int].name, m.tags[j as int].name),
        pair_before(m.left, m.right, i, j),
    ensures
        !pair_before(i, j, m.after_score(score).left, m.after_score(score).right),
        pair_before(m.left, m.right, m.after_score(score).left, m.after_score(score).right),
{
    lemma_settle_passes_none(m.tags, m.left, m.right + 1, i, j);
    lemma_settle(m.tags, m.left, m.right + 1);
}

/// Every score that comes in leaves a well-formed state.
pub proof fn lemma_after_score_wf(m: ScanModel, score: int)
    requires
        m.wf(),
    ensures
        m.after_score(score).found.len() <= usize::MAX ==> m.after_score(score).wf(),
{
    let a = m.after_score(score);
    if !m.finished() {
        if m.query is Some {
            if kept_score(score) >= m.threshold {
                assert forall|k: int| 0 <= k < a.found.len() implies a.query_entry(
                    #[trigger] a.found[k],
                ) by {
                    if k < m.found.len() {
                        assert(m.query_entry(m.found[k]));
                    }
                }
                assert forall|j: int, k: int| 0 <= j < k < a.found.len() implies (
                #[trigger] a.found[j]).primary < (#[trigger] a.found[k]).primary by {
                    if k < m.found.len() {
                        assert(m.found[j].primary < m.found[k].primary);
                    } else {
                        assert(m.query_entry(m.found[j]));
                    }
                }
            } else {
                assert forall|k: int| 0 <= k < a.found.len() implies a.query_entry(
                    #[trigger] a.found[k],
                ) by {
                    assert(m.query_entry(m.found[k]));
                }
            }
        } else {
            lemma_settle(m.tags, m.left, m.right + 1);
            let f = m.pair_found(kept_score(score));
            assert(pair_low(f) == m.left && pair_high(f) == m.right);
            assert forall|k: int| 0 <= k < a.found.len() implies a.pair_entry(
                #[trigger] a.found[k],
            ) by {
                if k < m.found.len() {
                    assert(m.pair_entry(m.found[k]));
                }
            }
            assert forall|j: int, k: int| 0 <= j < k < a.found.len() implies pair_before(
                pair_low(#[trigger] a.found[j]),
                pair_high(a.found[j]),
                pair_low(#[trigger] a.found[k]),
                pair_high(a.found[k]),
            ) by {
                if k < m.found.len() {
                    assert(pair_before(
                        pair_low(m.found[j]),
                        pair_high(m.found[j]),
                        pair_low(m.found[k]),
                        pair_high(m.found[k]),
                    ));
                } else {
                    assert(m.pair_entry(m.found[j]));
                }
            }
        }
    }
}

/// What a scan with a query has found once the scores `scores` have come in for
/// the first tags: the places of the tags whose score, as it is kept, reaches
/// the threshold.
pub open spec fn query_found(scores: Seq<int>, threshold: int) -> Seq<Found>
    decreases scores.len(),
{
    if scores.len() == 0 {
        Seq::empty()
    } else {
        let before = query_found(scores.drop_last(), threshold);
        if kept_score(scores.last()) >= threshold {
            before.push(
                Found {
                    primary: (scores.len() - 1) as nat,
                    other: None,
                    score: kept_score(scores.last()),
                },
            )
        } else {
            before
        }
    }
}

/// A scan with a query keeps exactly the tags whose score reaches the
/// threshold, each with its score, whatever the scores are.
pub proof fn lemma_query_run(
    query: Seq<char>,
    tags: Seq<TagCountView>,
    threshold: int,
    scores: Seq<int>,
)
    requires
        scores.len() <= tags.len(),
    ensures
        ({
            let m = ScanModel::initial(Some(query), tags, threshold).run(scores);
            &&& m.query == Some(query)
            &&& m.tags == tags
            &&& m.threshold == threshold
            &&& m.left == scores.len()
            &&& m.found == query_found(scores, threshold)
        }),
    decreases scores.len(),
{
    if scores.len() > 0 {
        lemma_query_run(query, tags, threshold, scores.drop_last());
    }
}

/// What a scan with a query has found holds no place twice: it is no longer
/// than the scores that have come in.
pub proof fn lemma_query_found_len(scores: Seq<int>, threshold: int)
    ensures
        query_found(scores, threshold).len() <= scores.len(),
    decreases scores.len(),
{
    if scores.len() > 0 {
        lemma_query_found_len(scores.drop_last(), threshold);
    }
}

/// A scan that has scored nothing is well-formed.
pub proof fn lemma_initial_wf(query: Option<Seq<char>>, tags: Seq<TagCountView>, threshold: int)
    requires
        tags.len() <= usize::MAX,
    ensures
        ScanModel::initial(query, tags, threshold).wf(),
{
    if query is None {
        lemma_settle(tags, 0, 1);
    }
}

/// Scores that come in never take away what was found, and leave a well-formed
/// state as long as what is found can be counted.
pub proof fn lemma_run_wf(m: ScanModel, scores: Seq<int>)
    requires
        m.wf(),
        m.run(scores).found.len() <= usize::MAX,
    ensures
        m.run(scores).wf(),
        m.found.len() <= m.run(scores).found.len(),
    decreases scores.len(),
{
    if scores.len() > 0 {
        let before = m.run(scores.drop_last());
        assert(before.found.len() <= before.after_score(scores.last()).found.len());
        lemma_run_wf(m, scores.drop_last());
        lemma_after_score_wf(before, scores.last());
    }
}

/// A scan with a query, once a score has come in for every tag, is finished and
/// hands out in ranked order exactly the tags whose score reaches the
/// threshold.
pub proof fn lemma_query_scan(
    query: Seq<char>,
    tags: Seq<TagCountView>,
    threshold: int,
    scores: Seq<int>,
)
    requires
        tags.len() <= usize::MAX,
        scores.len() == tags.len(),
    ensures
        ({
            let m = ScanModel::initial(Some(query), tags, threshold).run(scores);
            &&& m.wf()
            &&& m.found == query_found(scores, threshold)
            &&& m.step() == ScanStepView::Done(m.ranked())
            &&& m.ranked().len() == query_found(scores, threshold).len()
        }),
{
    let start = ScanModel::initial(Some(query), tags, threshold);
    lemma_initial_wf(Some(query), tags, threshold);
    lemma_query_run(query, tags, threshold, scores);
    lemma_query_found_len(scores, threshold);
    lemma_run_wf(start, scores);
}

/// The same tags, query, threshold and scores give the same result.
pub proof fn lemma_scan_deterministic(a: ScanModel, b: ScanModel, scores: Seq<int>)
    requires
        a == b,
    ensures
        a.run(scores) == b.run(scores),
        a.run(scores).step() == b.run(scores).step(),
{
}

/// What is found is handed out in ranked order, each entry once: no match has
/// a lower score than one after it, nor with the same score a lower count, nor
/// with the same score and count a later lowercase tag.
pub proof fn lemma_ranked(m: ScanModel)
    requires
        m.wf(),
    ensures
        m.ranked().len() == m.found.len(),
        is_arrangement(rank_order(m.found_keys(), m.found.len()), m.found.len()),
        forall|p: int, q: int|
            0 <= p < q < m.ranked().len() ==> !ranks_before(
                match_key(#[trigger] m.ranked()[q]),
                match_key(#[trigger] m.ranked()[p]),
            ),
{
    let keys = m.found_keys();
    let order = rank_order(keys, m.found.len());
    lemma_rank_order(keys, m.found.len());
    assert forall|p: int, q: int| 0 <= p < q < m.ranked().len() implies !ranks_before(
        match_key(#[trigger] m.ranked()[q]),
        match_key(#[trigger] m.ranked()[p]),
    ) by {
        assert(order[p] < m.found.len());
        assert(order[q] < m.found.len());
        assert(in_order(keys, order[p], order[q]));
        let a = keys[order[p] as int];
        let b = keys[order[q] as int];
        assert(a == match_key(m.ranked()[p]));
        assert(b == match_key(m.ranked()[q]));
        if ranks_before(a, b) && ranks_before(b, a) {
            crate::ranking::lemma_ranks_transitive(a, b, a);
        }
    }
}

/// Every match handed out has a score between 0 and 100 that reaches the
/// threshold.
pub proof fn lemma_scores_kept(m: ScanModel)
    requires
        m.wf(),
    ensures
        forall|k: int|
            0 <= k < m.ranked().len() ==> 0 <= (#[trigger] m.ranked()[k]).score <= MAX_SCORE
                && m.ranked()[k].score >= m.threshold,
{
    let order = rank_order(m.found_keys(), m.found.len());
    lemma_rank_order(m.found_keys(), m.found.len());
    assert forall|k: int| 0 <= k < m.ranked().len() implies 0 <= (#[trigger] m.ranked()[k]).score
        <= MAX_SCORE && m.ranked()[k].score >= m.threshold by {
        assert(order[k] < m.found.len());
        let f = m.found[order[k] as int];
        if m.query is Some {
            assert(m.query_entry(f));
        } else {
            assert(m.pair_entry(f));
        }
    }
}

/// With a query, every match handed out is one of the tags, with its count, a
/// score between 0 and 100 that reaches the threshold, and nothing it was
/// matched against.
pub proof fn lemma_query_output(m: ScanModel)
    requires
        m.wf(),
        m.query is Some,
    ensures
        forall|k: int|
            0 <= k < m.ranked().len() ==> {
                let out = #[trigger] m.ranked()[k];
                &&& out.matched_against is None
                &&& out.score >= m.threshold
                &&& 0 <= out.score <= MAX_SCORE
                &&& exists|i: int|
                    0 <= i < m.tags.len() && out.tag == (#[trigger] m.tags[i]).name && out.count
                        == m.tags[i].count
            },
{
    let order = rank_order(m.found_keys(), m.found.len());
    lemma_rank_order(m.found_keys(), m.found.len());
    assert forall|k: int| 0 <= k < m.ranked().len() implies {
        let out = #[trigger] m.ranked()[k];
        &&& out.matched_against is None
        &&& out.score >= m.threshold
        &&& 0 <= out.score <= MAX_SCORE
        &&& exists|i: int|
            0 <= i < m.tags.len() && out.tag == (#[trigger] m.tags[i]).name && out.count
                == m.tags[i].count
    } by {
        assert(order[k] < m.found.len());
        let f = m.found[order[k] as int];
        assert(m.query_entry(f));
        assert(m.tags[f.primary as int].name == m.ranked()[k].tag);
    }
}

/// Two matches are of the same pair of tags, in the same or in the other order.
pub open spec fn same_pair(a: MatchView, b: MatchView) -> bool {
    (a.tag == b.tag && a.matched_against == b.matched_against) || (Some(a.tag)
        == b.matched_against && a.matched_against == Some(b.tag))
}

/// Over all pairs, every match has a score between 0 and 100 that reaches the
/// threshold; no match is of two tags whose lowercase forms differ in length
/// by more than ten bytes; and, the tags being all different, no pair of tags
/// is matched twice, in either order.
pub proof fn lemma_pairs_output(m: ScanModel)
    requires
        m.wf(),
        m.query is None,
        names(m.tags).no_duplicates(),
    ensures
        forall|k: int|
            0 <= k < m.ranked().len() ==> {
                let out = #[trigger] m.ranked()[k];
                &&& out.score >= m.threshold
                &&& 0 <= out.score <= MAX_SCORE
                &&& out.matched_against is Some
                &&& comparable(out.tag, out.matched_against->0)
            },
        forall|j: int, k: int|
            0 <= j < m.ranked().len() && 0 <= k < m.ranked().len() && j != k ==> !same_pair(
                #[trigger] m.ranked()[j],
                #[trigger] m.ranked()[k],
            ),
{
    let order = rank_order(m.found_keys(), m.found.len());
    lemma_rank_order(m.found_keys(), m.found.len());
    assert forall|k: int| 0 <= k < m.ranked().len() implies {
        let out = #[trigger] m.ranked()[k];
        &&& out.score >= m.threshold
        &&& 0 <= out.score <= MAX_SCORE
        &&& out.matched_against is Some
        &&& comparable(out.tag, out.matched_against->0)
    } by {
        assert(order[k] < m.found.len());
        assert(m.pair_entry(m.found[order[k] as int]));
    }
    assert forall|j: int, k: int|
        0 <= j < m.ranked().len() && 0 <= k < m.ranked().len() && j != k implies !same_pair(
        #[trigger] m.ranked()[j],
        #[trigger] m.ranked()[k],
    ) by {
        assert(order[j] < m.found.len());
        assert(order[k] < m.found.len());
        assert(order[j] != order[k]);
        let f = m.found[order[j] as int];
        let g = m.found[order[k] as int];
        assert(m.pair_entry(f));
        assert(m.pair_entry(g));
        if same_pair(m.ranked()[j], m.ranked()[k]) {
            let nm = names(m.tags);
            assert(nm[f.primary as int] == m.tags[f.primary as int].name);
            assert(nm[g.primary as int] == m.tags[g.primary as int].name);
            assert(nm[f.other->0 as int] == m.tags[f.other->0 as int].name);
            assert(nm[g.other->0 as int] == m.tags[g.other->0 as int].name);
            assert(pair_low(f) == pair_low(g) && pair_high(f) == pair_high(g));
            if order[j] < order[k] {
                assert(pair_before(pair_low(f), pair_high(f), pair_low(g), pair_high(g)));
            } else {
                assert(pair_before(pair_low(g), pair_high(g), pair_low(f), pair_high(f)));
            }
        }
    }
}

/// The progress of a scan over all pairs; a scan with a query, or over no
/// tags, shows none.
pub open spec fn progress_of(m: ScanModel) -> Option<crate::progress::ProgressView> {
    if m.query is Some || m.tags.len() == 0 {
        None
    } else if m.finished() {
        Some(crate::progress::completed(m.tags.len(), m.found.len()))
    } else {
        Some(
            crate::progress::comparing(
                (m.left / PROGRESS_STRIDE as nat) * PROGRESS_STRIDE as nat,
                m.tags.len(),
            ),
        )
    }
}

/// A match as the scan keeps it.
#[derive(Clone, Copy)]
pub struct Candidate {
    pub primary: usize,
    pub other: Option<usize>,
    pub score: i32,
}

impl View for Candidate {
    type V = Found;

    open spec fn view(&self) -> Found {
        Found {
            primary: self.primary as nat,
            other: match self.other {
                Some(o) => Some(o as nat),
                None => None,
            },
            score: self.score as int,
        }
    }
}

/// What a scan asks of its driver next.
pub enum ScanStep<'a> {
    /// Score the similarity of the two texts, out of 100, and record it.
    Score { left: &'a str, right: &'a str },
    /// Nothing is left to score: these are the matches.
    Done(Vec<SimilarityMatch>),
}

impl<'a> View for ScanStep<'a> {
    type V = ScanStepView;

    open spec fn view(&self) -> ScanStepView {
        match *self {
            ScanStep::Score { left, right } => ScanStepView::Score { left: left@, right: right@ },
            ScanStep::Done(matches) => ScanStepView::Done(match_views(matches@)),
        }
    }
}

/// The tags of a scan, from the lists that it keeps.
pub open spec fn scan_tags(names: Seq<String>, counts: Seq<usize>) -> Seq<TagCountView> {
    Seq::new(names.len(), |i: int| TagCountView { name: names[i]@, count: counts[i] as nat })
}

/// The lowercase forms and their lengths are those of the names.
pub open spec fn lowered(names: Seq<String>, lowers: Seq<String>, lens: Seq<usize>) -> bool {
    &&& lowers.len() == names.len()
    &&& lens.len() == names.len()
    &&& forall|i: int|
        0 <= i < names.len() ==> (#[trigger] lowers[i])@ == lowercase_of(names[i]@)
    &&& forall|i: int| 0 <= i < names.len() ==> #[trigger] lens[i] == lower_len(names[i]@)
}

/// Finds the first pair at or after (`left`, `right`) whose tags are compared.
fn settle_cursor(
    names: &Vec<String>,
    counts: &Vec<usize>,
    lowers: &Vec<String>,
    lens: &Vec<usize>,
    left: usize,
    right: usize,
) -> (r: (usize, usize))
    requires
        counts.len() == names.len(),
        lowered(names@, lowers@, lens@),
        left < right || left >= names.len(),
    ensures
        (r.0 as nat, r.1 as nat) == settle(scan_tags(names@, counts@), left as nat, right as nat),
{
    let ghost tags = scan_tags(names@, counts@);
    let n = names.len();
    let mut l = left;
    let mut r = right;
    loop
        invariant
            n == names.len(),
            counts.len() == names.len(),
            tags == scan_tags(names@, counts@),
            lowered(names@, lowers@, lens@),
            l < r || l >= n,
            settle(tags, left as nat, right as nat) == settle(tags, l as nat, r as nat),
        decreases n - l, n - r,
    {
        if l >= n {
            return (n, n);
        }
        if r >= n {
            if l + 1 >= n {
                assert(settle(tags, (l + 1) as nat, (l + 2) as nat) == (n as nat, n as nat));
                return (n, n);
            }
            l = l + 1;
            r = l + 1;
        } else {
            let a = lens[l];
            let b = lens[r];
            let far = if a >= b {
                a - b > MAX_LENGTH_DIFF
            } else {
                b - a > MAX_LENGTH_DIFF
            };
            if !far {
                return (l, r);
            }
            r = r + 1;
        }
    }
}

/// A scan for similar tags: for the tags similar to a query, or for the similar
/// pairs among all tags. It decides which texts are scored next and what is
/// kept; its driver computes each score and reports it back.
pub struct SimilarityScan {
    query: Option<String>,
    names: Vec<String>,
    counts: Vec<usize>,
    lowers: Vec<String>,
    lens: Vec<usize>,
    threshold: i32,
    left: usize,
    right: usize,
    found: Vec<Candidate>,
}

impl View for SimilarityScan {
    type V = ScanModel;

    closed spec fn view(&self) -> ScanModel {
        ScanModel {
            query: opt_view(self.query),
            tags: scan_tags(self.names@, self.counts@),
            threshold: self.threshold as int,
            left: self.left as nat,
            right: self.right as nat,
            found: Seq::new(self.found@.len(), |i: int| self.found@[i]@),
        }
    }
}

impl SimilarityScan {
    /// The scan is well-formed: its state is, and it holds the lowercase form of
    /// each tag.
    pub closed spec fn wf(&self) -> bool {
        &&& self@.wf()
        &&& self.counts.len() == self.names.len()
        &&& lowered(self.names@, self.lowers@, self.lens@)
    }

    /// A scan of `tags`: with a query, for the tags similar to it; without one,
    /// for the similar pairs among them.
    pub fn new(query: Option<&str>, tags: &Vec<TagCount>, threshold: i32) -> (r: Self)
        ensures
            r.wf(),
            r@.wf(),
            r@ == ScanModel::initial(
                match query {
                    Some(q) => Some(lowercase_of(q@)),
                    None => None,
                },
                count_views(tags@),
                threshold as int,
            ),
    {
        let mut names: Vec<String> = Vec::new();
        let mut counts: Vec<usize> = Vec::new();
        let mut lowers: Vec<String> = Vec::new();
        let mut lens: Vec<usize> = Vec::new();
        let mut i: usize = 0;
        while i < tags.len()
            invariant
                i <= tags.len(),
                names.len() == i,
                counts.len() == i,
                lowered(names@, lowers@, lens@),
                forall|k: int| 0 <= k < i ==> (#[trigger] names@[k])@ == tags@[k].name@,
                forall|k: int| 0 <= k < i ==> #[trigger] counts@[k] == tags@[k].count,
            decreases tags.len() - i,
        {
            let lower = to_lowercase(tags[i].name.as_str());
            let len = lower.as_str().as_bytes().len();
            names.push(tags[i].name.clone());
            counts.push(tags[i].count);
            lowers.push(lower);
            lens.push(len);
            i = i + 1;
        }
        assert(scan_tags(names@, counts@) =~= count_views(tags@));
        let found: Vec<Candidate> = Vec::new();
        let lowered_query = match query {
            Some(q) => Some(to_lowercase(q)),
            None => None,
        };
        let cursor = if lowered_query.is_some() {
            (0, 0)
        } else {
            proof {
                lemma_settle(scan_tags(names@, counts@), 0, 1);
            }
            settle_cursor(&names, &counts, &lowers, &lens, 0, 1)
        };
        let r = SimilarityScan {
            query: lowered_query,
            names,
            counts,
            lowers,
            lens,
            threshold,
            left: cursor.0,
            right: cursor.1,
            found,
        };
        assert(r@.found =~= Seq::empty());
        r
    }

    /// What is to be done next.
    pub fn step(&self) -> (r: ScanStep<'_>)
        requires
            self.wf(),
        ensures
            r@ == self@.step(),
            match r {
                ScanStep::Done(matches) => forall|i: int|
                    0 <= i < matches.len() ==> 0 <= (#[trigger] matches[i]).score <= MAX_SCORE,
                ScanStep::Score { .. } => true,
            },
    {
        if self.left < self.names.len() {
            match &self.query {
                Some(q) => ScanStep::Score {
                    left: q.as_str(),
                    right: self.lowers[self.left].as_str(),
                },
                None => ScanStep::Score {
                    left: self.lowers[self.left].as_str(),
                    right: self.lowers[self.right].as_str(),
                },
            }
        } else {
            ScanStep::Done(self.matches())
        }
    }

    /// What has been found so far, in ranked order.
    pub fn matches(&self) -> (r: Vec<SimilarityMatch>)
        requires
            self.wf(),
        ensures
            match_views(r@) == self@.ranked(),
            forall|i: int| 0 <= i < r.len() ==> 0 <= (#[trigger] r[i]).score <= MAX_SCORE,
    {
        let ghost m = self@;
        proof {
            lemma_scores_kept(m);
        }
        let mut keys: Vec<RankKey> = Vec::new();
        let mut i: usize = 0;
        while i < self.found.len()
            invariant
                i <= self.found.len(),
                self.wf(),
                m == self@,
                keys.len() == i,
                forall|k: int| 0 <= k < i ==> (#[trigger] keys@[k])@ == m.found_keys()[k],
            decreases self.found.len() - i,
        {
            let c = self.found[i];
            proof {
                assert(m.found[i as int] == c@);
                if m.query is Some {
                    assert(m.query_entry(m.found[i as int]));
                } else {
                    assert(m.pair_entry(m.found[i as int]));
                }
            }
            keys.push(
                RankKey {
                    score: c.score,
                    count: self.counts[c.primary],
                    lower: chars_of(self.lowers[c.primary].as_str()),
                },
            );
            i = i + 1;
        }
        assert(key_views(keys@) =~= m.found_keys());
        let order = ranked_order(&keys);
        let mut out: Vec<SimilarityMatch> = Vec::new();
        let mut k: usize = 0;
        while k < order.len()
            invariant
                k <= order.len(),
                self.wf(),
                m == self@,
                order.len() == self.found.len(),
                order@ == rank_order(m.found_keys(), m.found.len()),
                is_arrangement(order@, m.found.len()),
                out.len() == k,
                forall|j: int| 0 <= j < k ==> (#[trigger] out@[j])@ == m.ranked()[j],
            decreases order.len() - k,
        {
            let c = self.found[order[k]];
            proof {
                assert(m.found[order@[k as int] as int] == c@);
                if m.query is Some {
                    assert(m.query_entry(m.found[order@[k as int] as int]));
                } else {
                    assert(m.pair_entry(m.found[order@[k as int] as int]));
                }
            }
            let matched_against = match c.other {
                Some(o) => Some(self.names[o].clone()),
                None => None,
            };
            out.push(
                SimilarityMatch {
                    tag: self.names[c.primary].clone(),
                    count: self.counts[c.primary],
                    score: c.score,
                    matched_against,
                },
            );
            k = k + 1;
        }
        assert(match_views(out@) =~= m.ranked());
        assert forall|i: int| 0 <= i < out.len() implies 0 <= (#[trigger] out[i]).score
            <= MAX_SCORE by {
            assert(out@[i]@ == m.ranked()[i]);
        }
        out
    }

    /// A well-formed scan is in a well-formed state.
    pub proof fn lemma_wf(&self)
        requires
            self.wf(),
        ensures
            self@.wf(),
    {
    }

    /// Takes the score that was asked for. It is kept between 0 and 100: a
    /// score below counts as 0, one above as 100.
    pub fn record_score(&mut self, score: i32)
        requires
            old(self).wf(),
        ensures
            final(self).wf(),
            final(self)@.wf(),
            final(self)@ == old(self)@.after_score(score as int),
    {
        let ghost before = self@;
        proof {
            lemma_after_score_wf(before, score as int);
        }
        if self.left >= self.names.len() {
            return ;
        }
        let kept: i32 = if score < 0 {
            0
        } else if score > MAX_SCORE {
            MAX_SCORE
        } else {
            score
        };
        if self.query.is_some() {
            if kept >= self.threshold {
                self.found.push(Candidate { primary: self.left, other: None, score: kept });
            }
            self.left = self.left + 1;
            assert(self@.found =~= before.after_score(score as int).found);
        } else {
            if kept >= self.threshold {
                if self.counts[self.left] >= self.counts[self.right] {
                    self.found.push(
                        Candidate { primary: self.left, other: Some(self.right), score: kept },
                    );
                } else {
                    self.found.push(
                        Candidate { primary: self.right, other: Some(self.left), score: kept },
                    );
                }
            }
            let next = settle_cursor(
                &self.names,
                &self.counts,
                &self.lowers,
                &self.lens,
                self.left,
                self.right + 1,
            );
            self.left = next.0;
            self.right = next.1;
            assert(self@.found =~= before.after_score(score as int).found);
        }
        let held = self.found.len();
        assert(self@.found.len() == held);
    }

    /// The progress to show for the scan as it stands.
    pub fn progress(&self) -> (r: Option<ProgressState>)
        requires
            self.wf(),
        ensures
            match r {
                Some(p) => progress_of(self@) == Some(p@),
                None => progress_of(self@) is None,
            },
    {
        let n = self.names.len();
        if self.query.is_some() || n == 0 {
            None
        } else if self.left >= n {
            Some(ProgressState::completed(n, self.found.len()))
        } else {
            Some(ProgressState::comparing((self.left / PROGRESS_STRIDE) * PROGRESS_STRIDE, n))
        }
    }
}

} // verus!
