use crate::json::{
    element_texts, elements, json_elements, json_member, json_text, member, string_elements, text,
};
use crate::ranking::{is_arrangement, key_views, rank_order, ranked_order, KeyView, RankKey};
use crate::text::{chars_of, lowercase_of, texts, to_lowercase};
use vstd::prelude::*;

verus! {

/// A tag and how often it occurs.
#[derive(Debug, Clone, PartialEq, Eq)]
pub struct TagCount {
    pub name: String,
    pub count: usize,
}

/// The mathematical content of a `TagCount`.
pub struct TagCountView {
    pub name: Seq<char>,
    pub count: nat,
}

impl View for TagCount {
    type V = TagCountView;

    open spec fn view(&self) -> TagCountView {
        TagCountView { name: self.name@, count: self.count as nat }
    }
}

/// The views of a list of tag counts.
pub open spec fn count_views(counts: Seq<TagCount>) -> Seq<TagCountView> {
    Seq::new(counts.len(), |i: int| counts[i]@)
}

/// The names of a list of tag counts.
pub open spec fn names(counts: Seq<TagCountView>) -> Seq<Seq<char>> {
    Seq::new(counts.len(), |i: int| counts[i].name)
}

/// The subject field of an item: the member `Subject`, else `subject`, else
/// `subjects`; the first that is there counts, whatever it holds.
pub open spec fn subject_field(item: serde_json::Value) -> Option<serde_json::Value> {
    match json_member(item, "Subject"@) {
        Some(v) => Some(v),
        None => match json_member(item, "subject"@) {
            Some(v) => Some(v),
            None => json_member(item, "subjects"@),
        },
    }
}

/// The tags of an item: the strings of its subject field where that is an
/// array, the field itself where it is a string, none otherwise.
pub open spec fn subjects_of(item: serde_json::Value) -> Seq<Seq<char>> {
    match subject_field(item) {
        Some(v) => match json_elements(v) {
            Some(e) => string_elements(e),
            None => match json_text(v) {
                Some(t) => seq![t],
                None => Seq::empty(),
            },
        },
        None => Seq::empty(),
    }
}

/// The tags of all items, one after the other.
pub open spec fn all_subjects(items: Seq<serde_json::Value>) -> Seq<Seq<char>>
    decreases items.len(),
{
    if items.len() == 0 {
        Seq::empty()
    } else {
        all_subjects(items.drop_last()) + subjects_of(items.last())
    }
}

/// How often `t` stands in `s`.
pub open spec fn occurrences(s: Seq<Seq<char>>, t: Seq<char>) -> nat
    decreases s.len(),
{
    if s.len() == 0 {
        0
    } else {
        occurrences(s.drop_last(), t) + if s.last() == t {
            1nat
        } else {
            0nat
        }
    }
}

/// `counts` after one more occurrence of `t`: its count raised by one, or a new
/// entry with count one at the end.
pub open spec fn bump(counts: Seq<TagCountView>, t: Seq<char>) -> Seq<TagCountView> {
    if names(counts).contains(t) {
        let i = names(counts).index_of(t);
        counts.update(i, TagCountView { name: t, count: counts[i].count + 1 })
    } else {
        counts.push(TagCountView { name: t, count: 1 })
    }
}

/// The count of each tag in `s`, in the order in which the tags first occur.
pub open spec fn tally(s: Seq<Seq<char>>) -> Seq<TagCountView>
    decreases s.len(),
{
    if s.len() == 0 {
        Seq::empty()
    } else {
        bump(tally(s.drop_last()), s.last())
    }
}

/// What holds of a tally of `s`: each tag of `s` has one entry, and its count is
/// the number of its occurrences.
pub open spec fn is_tally_of(counts: Seq<TagCountView>, s: Seq<Seq<char>>) -> bool {
    &&& names(counts).no_duplicates()
    &&& forall|i: int|
        0 <= i < counts.len() ==> (#[trigger] counts[i]).count == occurrences(s, counts[i].name)
            && counts[i].count >= 1
    &&& forall|t: Seq<char>| s.contains(t) <==> #[trigger] names(counts).contains(t)
}

/// A tag that occurs in a sequence occurs at least once, and the other way round.
pub proof fn lemma_occurrences(s: Seq<Seq<char>>, t: Seq<char>)
    ensures
        occurrences(s, t) >= 1 <==> s.contains(t),
        occurrences(s, t) <= s.len(),
    decreases s.len(),
{
    if s.len() > 0 {
        lemma_occurrences(s.drop_last(), t);
        if s.drop_last().contains(t) {
            let i = choose|i: int| 0 <= i < s.drop_last().len() && s.drop_last()[i] == t;
            assert(s[i] == t);
        }
        if s.contains(t) {
            let i = choose|i: int| 0 <= i < s.len() && s[i] == t;
            if i < s.len() - 1 {
                assert(s.drop_last()[i] == t);
            }
        }
        if s.last() == t {
            assert(s[s.len() - 1] == t);
        }
    }
}

/// The tally counts every tag once per occurrence: each tag that occurs has one
/// entry, with the number of its occurrences, which is at least one.
pub proof fn lemma_tally(s: Seq<Seq<char>>)
    ensures
        is_tally_of(tally(s), s),
        tally(s).len() <= s.len(),
    decreases s.len(),
{
    if s.len() > 0 {
        let head = s.drop_last();
        let t = s.last();
        lemma_tally(head);
        let before = tally(head);
        let after = tally(s);
        assert(s[s.len() - 1] == t);
        if names(before).contains(t) {
            let i = names(before).index_of(t);
            assert(names(after) =~= names(before));
            assert forall|k: int| 0 <= k < after.len() implies (#[trigger] after[k]).count
                == occurrences(s, after[k].name) && after[k].count >= 1 by {
                if k != i {
                    assert(names(before)[k] != names(before)[i]);
                    assert(before[k].count == occurrences(head, before[k].name));
                } else {
                    assert(before[i].count == occurrences(head, before[i].name));
                }
            }
        } else {
            assert(names(after) =~= names(before).push(t));
            assert forall|k: int| 0 <= k < after.len() implies (#[trigger] after[k]).count
                == occurrences(s, after[k].name) && after[k].count >= 1 by {
                if k < before.len() {
                    assert(names(before)[k] == before[k].name);
                    assert(names(before).contains(before[k].name));
                    assert(before[k].count == occurrences(head, before[k].name));
                } else {
                    lemma_occurrences(head, t);
                    assert(!head.contains(t));
                }
            }
            assert forall|i: int, j: int|
                0 <= i < names(after).len() && 0 <= j < names(after).len() && i != j implies names(
                after,
            )[i] != names(after)[j] by {
                if i < before.len() && j < before.len() {
                    assert(names(before)[i] != names(before)[j]);
                } else if i < before.len() {
                    assert(names(before).contains(names(before)[i]));
                } else {
                    assert(names(before).contains(names(before)[j]));
                }
            }
        }
        assert forall|u: Seq<char>| s.contains(u) <==> #[trigger] names(after).contains(u) by {
            if s.contains(u) {
                let i = choose|i: int| 0 <= i < s.len() && s[i] == u;
                if i < head.len() {
                    assert(head[i] == u);
                    assert(head.contains(u));
                    assert(names(before).contains(u));
                    let j = choose|j: int| 0 <= j < names(before).len() && names(before)[j] == u;
                    assert(names(after)[j] == u);
                } else {
                    if names(before).contains(t) {
                    } else {
                        assert(names(after)[before.len() as int] == t);
                    }
                }
            }
            if names(after).contains(u) {
                let j = choose|j: int| 0 <= j < names(after).len() && names(after)[j] == u;
                if j < before.len() {
                    assert(names(before)[j] == u);
                    assert(names(before).contains(u));
                    assert(head.contains(u));
                    let i = choose|i: int| 0 <= i < head.len() && head[i] == u;
                    assert(s[i] == u);
                }
            }
        }
    }
}

/// A scan of no items counts nothing.
pub proof fn lemma_tally_of_nothing()
    ensures
        tally(all_subjects(Seq::empty())) == Seq::<TagCountView>::empty(),
{
}

/// Reads the tags of one item.
pub fn item_tags(item: &serde_json::Value) -> (r: Vec<String>)
    ensures
        texts(r@) == subjects_of(*item),
{
    let field = match member(item, "Subject") {
        Some(v) => Some(v),
        None => match member(item, "subject") {
            Some(v) => Some(v),
            None => member(item, "subjects"),
        },
    };
    let mut out: Vec<String> = Vec::new();
    match field {
        Some(v) => match elements(v) {
            Some(e) => {
                out = element_texts(e);
            },
            None => match text(v) {
                Some(t) => {
                    out.push(t.to_owned());
                    assert(texts(out@) =~= seq![t@]);
                },
                None => {
                    assert(texts(out@) =~= Seq::empty());
                },
            },
        },
        None => {
            assert(texts(out@) =~= Seq::empty());
        },
    }
    out
}

/// Reads the tags of all items, one after the other.
pub fn all_item_tags(items: &Vec<serde_json::Value>) -> (r: Vec<String>)
    ensures
        texts(r@) == all_subjects(items@),
{
    let mut out: Vec<String> = Vec::new();
    let mut i: usize = 0;
    assert(items@.take(0) =~= Seq::empty());
    assert(texts(out@) =~= Seq::empty());
    while i < items.len()
        invariant
            i <= items.len(),
            texts(out@) == all_subjects(items@.take(i as int)),
        decreases items.len() - i,
    {
        proof {
            assert(items@.take(i + 1).drop_last() =~= items@.take(i as int));
            assert(items@.take(i + 1).last() == items@[i as int]);
        }
        let mut tags = item_tags(&items[i]);
        let ghost before = out@;
        let ghost added = tags@;
        out.append(&mut tags);
        assert(texts(out@) =~= texts(before) + texts(added));
        i = i + 1;
    }
    assert(items@.take(i as int) =~= items@);
    out
}

/// Counts the tags in `flat`.
pub fn count_tags(flat: &Vec<String>) -> (r: Vec<TagCount>)
    ensures
        count_views(r@) == tally(texts(flat@)),
        is_tally_of(count_views(r@), texts(flat@)),
{
    let ghost s = texts(flat@);
    let mut counts: Vec<TagCount> = Vec::new();
    let mut i: usize = 0;
    assert(s.take(0) =~= Seq::empty());
    assert(count_views(counts@) =~= Seq::empty());
    while i < flat.len()
        invariant
            i <= flat.len(),
            s == texts(flat@),
            count_views(counts@) == tally(s.take(i as int)),
        decreases flat.len() - i,
    {
        proof {
            assert(s.take(i + 1).drop_last() =~= s.take(i as int));
            assert(s.take(i + 1).last() == flat@[i as int]@);
            lemma_tally(s.take(i as int));
        }
        let ghost before = count_views(counts@);
        let ghost t = flat@[i as int]@;
        let mut k: usize = 0;
        let mut found = false;
        while k < counts.len() && !found
            invariant
                k <= counts.len(),
                i < flat.len(),
                t == flat@[i as int]@,
                before == count_views(counts@),
                is_tally_of(before, s.take(i as int)),
                before.len() <= i,
                !found ==> forall|j: int| 0 <= j < k ==> names(before)[j] != t,
                found ==> k < counts.len() && names(before)[k as int] == t,
            decreases counts.len() - k + if found { 0int } else { 1int },
        {
            if counts[k].name == flat[i] {
                found = true;
            } else {
                k = k + 1;
            }
        }
        if found {
            proof {
                assert(names(before).contains(t));
                let j = names(before).index_of(t);
                assert(0 <= j < names(before).len() && names(before)[j] == t);
                if j != k {
                    assert(names(before)[j] != names(before)[k as int]);
                }
                assert(before[k as int].count == occurrences(s.take(i as int), t));
                lemma_occurrences(s.take(i as int), t);
            }
            let entry = TagCount { name: flat[i].clone(), count: counts[k].count + 1 };
            counts.set(k, entry);
            assert(count_views(counts@) =~= bump(before, t));
        } else {
            assert(!names(before).contains(t));
            counts.push(TagCount { name: flat[i].clone(), count: 1 });
            assert(count_views(counts@) =~= bump(before, t));
        }
        i = i + 1;
    }
    proof {
        assert(s.take(i as int) =~= s);
        lemma_tally(s);
    }
    counts
}

/// Counts how often each tag occurs over the subject fields of `items`.
pub fn collect_tag_counts(items: &Vec<serde_json::Value>) -> (r: Vec<TagCount>)
    ensures
        count_views(r@) == tally(all_subjects(items@)),
        is_tally_of(count_views(r@), all_subjects(items@)),
{
    let flat = all_item_tags(items);
    count_tags(&flat)
}

/// The keys by which a list of tags is ordered: by count, then by lowercase name.
pub open spec fn listing_keys(counts: Seq<TagCountView>) -> Seq<KeyView> {
    Seq::new(
        counts.len(),
        |i: int|
            KeyView {
                score: 0,
                count: counts[i].count as int,
                lower: lowercase_of(counts[i].name),
            },
    )
}

/// The tags in the order of a listing: the higher count first, then the
/// lowercase name in lexicographic order; tags that are alike in both keep
/// their order.
pub open spec fn listing(counts: Seq<TagCountView>) -> Seq<TagCountView> {
    let order = rank_order(listing_keys(counts), counts.len());
    Seq::new(counts.len(), |k: int| counts[order[k] as int])
}

/// A listing holds each of the tags once, and no tag in it has a lower count
/// than one after it, nor, with the same count, a later lowercase name.
pub proof fn lemma_listing(counts: Seq<TagCountView>)
    requires
        counts.len() <= usize::MAX,
    ensures
        listing(counts).len() == counts.len(),
        is_arrangement(rank_order(listing_keys(counts), counts.len()), counts.len()),
        forall|p: int, q: int|
            0 <= p < q < counts.len() ==> (#[trigger] listing(counts)[p]).count >= (
            #[trigger] listing(counts)[q]).count,
        forall|p: int, q: int|
            0 <= p < q < counts.len() && (#[trigger] listing(counts)[p]).count == (
            #[trigger] listing(counts)[q]).count ==> !crate::text::lex_less(
                lowercase_of(listing(counts)[q].name),
                lowercase_of(listing(counts)[p].name),
            ),
{
    let keys = listing_keys(counts);
    let order = rank_order(keys, counts.len());
    crate::ranking::lemma_rank_order(keys, counts.len());
    assert forall|p: int, q: int| 0 <= p < q < counts.len() implies (#[trigger] listing(
        counts,
    )[p]).count >= (#[trigger] listing(counts)[q]).count && (listing(counts)[p].count == listing(
        counts,
    )[q].count ==> !crate::text::lex_less(
        lowercase_of(listing(counts)[q].name),
        lowercase_of(listing(counts)[p].name),
    )) by {
        assert(order[p] < counts.len());
        assert(order[q] < counts.len());
        assert(crate::ranking::in_order(keys, order[p], order[q]));
        let a = keys[order[p] as int];
        let b = keys[order[q] as int];
        assert(a.lower == lowercase_of(listing(counts)[p].name));
        assert(b.lower == lowercase_of(listing(counts)[q].name));
        if crate::text::lex_less(a.lower, b.lower) && crate::text::lex_less(b.lower, a.lower) {
            crate::ranking::lemma_lex_transitive(a.lower, b.lower, a.lower);
            crate::ranking::lemma_lex_irreflexive(a.lower);
        }
    }
}

/// Orders the tags for a listing.
pub fn sorted_tag_counts(counts: &Vec<TagCount>) -> (r: Vec<TagCount>)
    ensures
        count_views(r@) == listing(count_views(counts@)),
{
    let ghost cv = count_views(counts@);
    let mut keys: Vec<RankKey> = Vec::new();
    let mut i: usize = 0;
    while i < counts.len()
        invariant
            i <= counts.len(),
            cv == count_views(counts@),
            keys.len() == i,
            forall|k: int| 0 <= k < i ==> keys@[k]@ == listing_keys(cv)[k],
        decreases counts.len() - i,
    {
        let lower = to_lowercase(counts[i].name.as_str());
        keys.push(RankKey { score: 0, count: counts[i].count, lower: chars_of(lower.as_str()) });
        i = i + 1;
    }
    assert(key_views(keys@) =~= listing_keys(cv));
    let order = ranked_order(&keys);
    let mut out: Vec<TagCount> = Vec::new();
    let mut k: usize = 0;
    while k < order.len()
        invariant
            k <= order.len(),
            order.len() == counts.len(),
            cv == count_views(counts@),
            order@ == rank_order(listing_keys(cv), counts.len() as nat),
            is_arrangement(order@, counts.len() as nat),
            out.len() == k,
            forall|j: int| 0 <= j < k ==> out@[j]@ == listing(cv)[j],
        decreases order.len() - k,
    {
        let entry = &counts[order[k]];
        out.push(TagCount { name: entry.name.clone(), count: entry.count });
        k = k + 1;
    }
    assert(count_views(out@) =~= listing(cv));
    out
}

} // verus!
