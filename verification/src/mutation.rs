use crate::json::{json_member, json_text, member, member_text, opt_view, text, text_member};
use crate::tags::{item_tags, subjects_of};
use crate::text::{
    chars_of, contains_text, copy_texts, skip_prefix_all, skip_run, string_of, strip_prefix_all,
    texts, trim_start,
};
use vstd::prelude::*;

verus! {

/// The most items that a preview shows.
pub const PREVIEW_LIMIT: usize = 10;

/// What a bulk change reads of a content item.
#[derive(Debug, Clone, PartialEq, Eq)]
pub struct MatchedItem {
    pub id: String,
    pub title: Option<String>,
    pub subjects: Vec<String>,
}

/// The mathematical content of a `MatchedItem`.
pub struct ItemView {
    pub id: Seq<char>,
    pub title: Option<Seq<char>>,
    pub subjects: Seq<Seq<char>>,
}

impl View for MatchedItem {
    type V = ItemView;

    open spec fn view(&self) -> ItemView {
        ItemView { id: self.id@, title: opt_view(self.title), subjects: texts(self.subjects@) }
    }
}

/// One line of a preview: an item's tags now and after the change.
#[derive(Debug, Clone, PartialEq, Eq)]
pub struct PreviewEntry {
    pub title: Option<String>,
    pub current: Vec<String>,
    pub updated: Vec<String>,
}

/// The mathematical content of a `PreviewEntry`.
pub struct PreviewView {
    pub title: Option<Seq<char>>,
    pub current: Seq<Seq<char>>,
    pub updated: Seq<Seq<char>>,
}

impl View for PreviewEntry {
    type V = PreviewView;

    open spec fn view(&self) -> PreviewView {
        PreviewView {
            title: opt_view(self.title),
            current: texts(self.current@),
            updated: texts(self.updated@),
        }
    }
}

/// The views of a list of items.
pub open spec fn item_views(items: Seq<MatchedItem>) -> Seq<ItemView> {
    Seq::new(items.len(), |i: int| items[i]@)
}

/// The views of a list of preview entries.
pub open spec fn preview_views(entries: Seq<PreviewEntry>) -> Seq<PreviewView> {
    Seq::new(entries.len(), |i: int| entries[i]@)
}

/// The title shown for an item: its `title` member where it has one (absent if
/// that is no string), else its `id` member.
pub open spec fn item_title(v: serde_json::Value) -> Option<Seq<char>> {
    match json_member(v, "title"@) {
        Some(t) => json_text(t),
        None => text_member(v, "id"@),
    }
}

/// What a bulk change reads of a search result: its identifier, its title and
/// its tags, as they are read wherever tags are counted. `None` for a result
/// without an `@id`.
pub open spec fn item_of(v: serde_json::Value) -> Option<ItemView> {
    match text_member(v, "@id"@) {
        Some(id) => Some(ItemView { id, title: item_title(v), subjects: subjects_of(v) }),
        None => None,
    }
}

/// `current` without every tag that `removed` holds, order kept.
pub open spec fn without(current: Seq<Seq<char>>, removed: Seq<Seq<char>>) -> Seq<Seq<char>>
    decreases current.len(),
{
    if current.len() == 0 {
        current
    } else if removed.contains(current.last()) {
        without(current.drop_last(), removed)
    } else {
        without(current.drop_last(), removed).push(current.last())
    }
}

/// The tags of an item after the change: `removed` taken out, then `appended`
/// added at the end unless it is there already.
pub open spec fn proposed(
    current: Seq<Seq<char>>,
    removed: Seq<Seq<char>>,
    appended: Option<Seq<char>>,
) -> Seq<Seq<char>> {
    let kept = without(current, removed);
    match appended {
        Some(t) => if kept.contains(t) {
            kept
        } else {
            kept.push(t)
        },
        None => kept,
    }
}

/// An item's path below the base endpoint: its identifier without the base at its
/// front (as often as it stands there) and without leading separators.
pub open spec fn relative_path(id: Seq<char>, base: Seq<char>) -> Seq<char> {
    trim_start(strip_prefix_all(id, base), '/')
}

/// The preview of a change: one entry for each of the first ten items.
pub open spec fn preview_of(
    items: Seq<ItemView>,
    removed: Seq<Seq<char>>,
    appended: Option<Seq<char>>,
) -> Seq<PreviewView> {
    Seq::new(
        if items.len() <= PREVIEW_LIMIT {
            items.len()
        } else {
            PREVIEW_LIMIT as nat
        },
        |i: int|
            PreviewView {
                title: items[i].title,
                current: items[i].subjects,
                updated: proposed(items[i].subjects, removed, appended),
            },
    )
}

/// No removed tag other than the appended one is left after the change, and
/// every tag that is left was there before or is the appended one.
pub proof fn lemma_proposed_excludes_removed(
    current: Seq<Seq<char>>,
    removed: Seq<Seq<char>>,
    appended: Option<Seq<char>>,
)
    ensures
        forall|t: Seq<char>|
            removed.contains(t) && appended != Some(t) ==> !#[trigger] proposed(
                current,
                removed,
                appended,
            ).contains(t),
        forall|t: Seq<char>| #[trigger]
            proposed(current, removed, appended).contains(t) ==> current.contains(t) || appended
                == Some(t),
        forall|t: Seq<char>|
            current.contains(t) && !removed.contains(t) ==> #[trigger] proposed(
                current,
                removed,
                appended,
            ).contains(t),
{
    lemma_without(current, removed);
    let kept = without(current, removed);
    if let Some(a) = appended {
        lemma_push_contains(kept, a);
    }
}

/// What a sequence holds after a push.
proof fn lemma_push_contains(s: Seq<Seq<char>>, a: Seq<char>)
    ensures
        forall|t: Seq<char>| #[trigger] s.push(a).contains(t) <==> s.contains(t) || t == a,
{
    assert forall|t: Seq<char>| #[trigger] s.push(a).contains(t) <==> s.contains(t) || t == a by {
        if s.push(a).contains(t) {
            let i = choose|i: int| 0 <= i < s.push(a).len() && s.push(a)[i] == t;
            if i < s.len() {
                assert(s[i] == t);
            }
        }
        if s.contains(t) {
            let i = choose|i: int| 0 <= i < s.len() && s[i] == t;
            assert(s.push(a)[i] == t);
        }
        if t == a {
            assert(s.push(a)[s.len() as int] == t);
        }
    }
}

/// The appended tag is among the tags after the change.
pub proof fn lemma_proposed_holds_appended(
    current: Seq<Seq<char>>,
    removed: Seq<Seq<char>>,
    appended: Seq<char>,
)
    ensures
        proposed(current, removed, Some(appended)).contains(appended),
{
    let kept = without(current, removed);
    if !kept.contains(appended) {
        assert(kept.push(appended)[kept.len() as int] == appended);
    }
}

/// `without` keeps exactly the tags that are not removed.
pub proof fn lemma_without(current: Seq<Seq<char>>, removed: Seq<Seq<char>>)
    ensures
        forall|t: Seq<char>| #[trigger]
            without(current, removed).contains(t) <==> current.contains(t) && !removed.contains(t),
        without(current, removed).len() <= current.len(),
    decreases current.len(),
{
    if current.len() > 0 {
        let head = current.drop_last();
        let last = current.last();
        lemma_without(head, removed);
        let w = without(head, removed);
        assert forall|t: Seq<char>| #[trigger]
            without(current, removed).contains(t) <==> current.contains(t) && !removed.contains(
                t,
            ) by {
            if current.contains(t) {
                let i = choose|i: int| 0 <= i < current.len() && current[i] == t;
                if i < head.len() {
                    assert(head[i] == t);
                    assert(head.contains(t));
                }
            }
            if head.contains(t) {
                let i = choose|i: int| 0 <= i < head.len() && head[i] == t;
                assert(current[i] == t);
            }
            if !removed.contains(last) {
                assert(w.push(last)[w.len() as int] == last);
                if w.contains(t) {
                    let i = choose|i: int| 0 <= i < w.len() && w[i] == t;
                    assert(w.push(last)[i] == t);
                }
                if w.push(last).contains(t) {
                    let i = choose|i: int| 0 <= i < w.push(last).len() && w.push(last)[i] == t;
                    if i < w.len() {
                        assert(w[i] == t);
                    }
                }
            }
            assert(current[current.len() - 1] == last);
        }
    }
}

/// Reads what a bulk change needs of one search result.
pub fn read_item(v: &serde_json::Value) -> (r: Option<MatchedItem>)
    ensures
        r is Some <==> item_of(*v) is Some,
        r is Some ==> r->0@ == item_of(*v)->0,
{
    let id = match member_text(v, "@id") {
        Some(id) => id,
        None => {
            return None;
        },
    };
    let title = match member(v, "title") {
        Some(t) => match text(t) {
            Some(s) => Some(s.to_owned()),
            None => None,
        },
        None => member_text(v, "id"),
    };
    let subjects = item_tags(v);
    Some(MatchedItem { id, title, subjects })
}

/// Computes an item's tags after the change.
pub fn proposed_tags(
    current: &Vec<String>,
    removed: &Vec<String>,
    appended: &Option<String>,
) -> (r: Vec<String>)
    ensures
        texts(r@) == proposed(texts(current@), texts(removed@), opt_view(*appended)),
{
    let mut out: Vec<String> = Vec::new();
    let mut i: usize = 0;
    let ghost cur = texts(current@);
    let ghost rem = texts(removed@);
    assert(cur.take(0) =~= Seq::empty());
    assert(texts(out@) =~= Seq::empty());
    while i < current.len()
        invariant
            i <= current.len(),
            cur == texts(current@),
            rem == texts(removed@),
            texts(out@) == without(cur.take(i as int), rem),
        decreases current.len() - i,
    {
        proof {
            assert(cur.take(i + 1).drop_last() =~= cur.take(i as int));
            assert(cur.take(i + 1).last() == current@[i as int]@);
        }
        if !contains_text(removed, &current[i]) {
            let ghost before = out@;
            out.push(current[i].clone());
            assert(texts(out@) =~= texts(before).push(current@[i as int]@));
        }
        i = i + 1;
    }
    assert(cur.take(i as int) =~= cur);
    match appended {
        Some(t) => {
            if !contains_text(&out, t) {
                let ghost before = out@;
                out.push(t.clone());
                assert(texts(out@) =~= texts(before).push(t@));
            }
        },
        None => {},
    }
    out
}

/// Computes an item's path below the base endpoint.
pub fn item_path(id: &str, base: &str) -> (r: String)
    ensures
        r@ == relative_path(id@, base@),
{
    let id_chars = chars_of(id);
    let base_chars = chars_of(base);
    let from = skip_prefix_all(&id_chars, &base_chars);
    let start = skip_run(&id_chars, from, '/');
    let r = string_of(&id_chars, start, id_chars.len());
    assert(id_chars@.skip(start as int) =~= id_chars@.subrange(
        start as int,
        id_chars.len() as int,
    ));
    r
}

/// The outcome of a bulk change, or of its dry run.
#[derive(Debug, Clone, PartialEq, Eq)]
pub struct MutationResult {
    pub updated: usize,
    pub errors: usize,
    pub items: usize,
    pub preview: Vec<PreviewEntry>,
    /// How many items the search for each tag returned.
    pub tag_counts: Vec<(String, usize)>,
    pub dry_run: bool,
    pub message: Option<String>,
}

/// The mathematical content of a `MutationResult`.
pub struct ResultView {
    pub updated: nat,
    pub errors: nat,
    pub items: nat,
    pub preview: Seq<PreviewView>,
    pub tag_counts: Seq<(Seq<char>, nat)>,
    pub dry_run: bool,
    pub message: Option<Seq<char>>,
}

/// The views of a list of tags with the number of items found for each.
pub open spec fn found_counts(counts: Seq<(String, usize)>) -> Seq<(Seq<char>, nat)> {
    Seq::new(counts.len(), |i: int| (counts[i].0@, counts[i].1 as nat))
}

/// The tags of a list of tags with numbers.
pub open spec fn counted_tags(counts: Seq<(Seq<char>, nat)>) -> Seq<Seq<char>> {
    Seq::new(counts.len(), |i: int| counts[i].0)
}

/// `counts` with `n` entered for `tag`: in the place of the number that stands
/// there for that tag, or else at the end.
pub open spec fn with_count(counts: Seq<(Seq<char>, nat)>, tag: Seq<char>, n: nat) -> Seq<
    (Seq<char>, nat),
> {
    if counted_tags(counts).contains(tag) {
        counts.update(counted_tags(counts).index_of(tag), (tag, n))
    } else {
        counts.push((tag, n))
    }
}

impl View for MutationResult {
    type V = ResultView;

    open spec fn view(&self) -> ResultView {
        ResultView {
            updated: self.updated as nat,
            errors: self.errors as nat,
            items: self.items as nat,
            preview: preview_views(self.preview@),
            tag_counts: found_counts(self.tag_counts@),
            dry_run: self.dry_run,
            message: opt_view(self.message),
        }
    }
}

/// What a bulk change asks of its driver next.
#[derive(Debug, Clone, PartialEq, Eq)]
pub enum MutationStep {
    /// Search the repository for the items that carry `subject`.
    Search { subject: String },
    /// Write `subjects` as the tags of the item at `path`.
    Update { path: String, subjects: Vec<String> },
    /// Nothing is left to do.
    Finished(MutationResult),
    /// A search that had to succeed did not.
    Failed,
}

/// The mathematical content of a `MutationStep`.
pub enum StepView {
    Search { subject: Seq<char> },
    Update { path: Seq<char>, subjects: Seq<Seq<char>> },
    Finished(ResultView),
    Failed,
}

impl View for MutationStep {
    type V = StepView;

    open spec fn view(&self) -> StepView {
        match *self {
            MutationStep::Search { subject } => StepView::Search { subject: subject@ },
            MutationStep::Update { path, subjects } => StepView::Update {
                path: path@,
                subjects: texts(subjects@),
            },
            MutationStep::Finished(result) => StepView::Finished(result@),
            MutationStep::Failed => StepView::Failed,
        }
    }
}

/// The identifiers of a list of items.
pub open spec fn ids(items: Seq<ItemView>) -> Seq<Seq<char>> {
    Seq::new(items.len(), |i: int| items[i].id)
}

/// `items` with `item` put under its identifier: in the place of the item that
/// has that identifier, or else at the end.
pub open spec fn put(items: Seq<ItemView>, item: ItemView) -> Seq<ItemView> {
    if ids(items).contains(item.id) {
        items.update(ids(items).index_of(item.id), item)
    } else {
        items.push(item)
    }
}

/// `items` after the results of one search have been put into it in order.
pub open spec fn absorb(items: Seq<ItemView>, found: Seq<serde_json::Value>) -> Seq<ItemView>
    decreases found.len(),
{
    if found.len() == 0 {
        items
    } else {
        let before = absorb(items, found.drop_last());
        match item_of(found.last()) {
            Some(item) => put(before, item),
            None => before,
        }
    }
}

/// The text of the message of a change that found nothing.
pub open spec fn nothing_found() -> Seq<char> {
    "No matching items found."@
}

/// The state of a bulk change, as mathematics.
pub struct MutationModel {
    /// The tags that are searched for and taken off.
    pub removed: Seq<Seq<char>>,
    /// The tag that is put on, if any.
    pub appended: Option<Seq<char>>,
    /// Whether a search that fails ends the change.
    pub strict: bool,
    pub dry_run: bool,
    pub base: Seq<char>,
    /// How many of `removed` have been searched for.
    pub searched: nat,
    /// The items found, each identifier once.
    pub items: Seq<ItemView>,
    /// How many items each search returned, each tag once.
    pub tag_counts: Seq<(Seq<char>, nat)>,
    /// How many of `items` have been written.
    pub applied: nat,
    pub updated: nat,
    pub errors: nat,
    pub failed: bool,
}

impl MutationModel {
    /// The state before anything has been searched for.
    pub open spec fn initial(
        removed: Seq<Seq<char>>,
        appended: Option<Seq<char>>,
        strict: bool,
        dry_run: bool,
        base: Seq<char>,
    ) -> MutationModel {
        MutationModel {
            removed,
            appended,
            strict,
            dry_run,
            base,
            searched: 0,
            items: Seq::empty(),
            tag_counts: Seq::empty(),
            applied: 0,
            updated: 0,
            errors: 0,
            failed: false,
        }
    }

    /// The state is one that the steps of a change lead to: each item written
    /// is counted once, as updated or as an error; no identifier stands twice;
    /// nothing is written before every search is done, nor in a dry run.
    pub open spec fn wf(self) -> bool {
        &&& self.searched <= self.removed.len()
        &&& self.applied <= self.items.len()
        &&& self.updated + self.errors == self.applied
        &&& ids(self.items).no_duplicates()
        &&& counted_tags(self.tag_counts).no_duplicates()
        &&& self.applied > 0 ==> self.searched == self.removed.len() && !self.dry_run
            && !self.failed
    }

    /// A search is awaited.
    pub open spec fn searching(self) -> bool {
        !self.failed && self.searched < self.removed.len()
    }

    /// The result of a write is awaited.
    pub open spec fn updating(self) -> bool {
        !self.failed && self.searched >= self.removed.len() && !self.dry_run && self.applied
            < self.items.len()
    }

    /// The result as it stands.
    pub open spec fn result(self) -> ResultView {
        ResultView {
            updated: self.updated,
            errors: self.errors,
            items: self.items.len(),
            preview: preview_of(self.items, self.removed, self.appended),
            tag_counts: self.tag_counts,
            dry_run: self.dry_run,
            message: if self.items.len() == 0 {
                Some(nothing_found())
            } else {
                None
            },
        }
    }

    /// What is asked of the driver in this state.
    pub open spec fn step(self) -> StepView {
        if self.failed {
            StepView::Failed
        } else if self.searching() {
            StepView::Search { subject: self.removed[self.searched as int] }
        } else if self.updating() {
            StepView::Update {
                path: relative_path(self.items[self.applied as int].id, self.base),
                subjects: proposed(
                    self.items[self.applied as int].subjects,
                    self.removed,
                    self.appended,
                ),
            }
        } else {
            StepView::Finished(self.result())
        }
    }

    /// The state after a search has returned `found`.
    pub open spec fn after_search(self, found: Seq<serde_json::Value>) -> MutationModel {
        if self.searching() {
            MutationModel {
                items: absorb(self.items, found),
                tag_counts: with_count(
                    self.tag_counts,
                    self.removed[self.searched as int],
                    found.len(),
                ),
                searched: self.searched + 1,
                ..self
            }
        } else {
            self
        }
    }

    /// The state after a search has failed.
    pub open spec fn after_search_failure(self) -> MutationModel {
        if !self.searching() {
            self
        } else if self.strict {
            MutationModel { failed: true, ..self }
        } else {
            MutationModel { searched: self.searched + 1, ..self }
        }
    }

    /// The state after a write has succeeded (`ok`) or failed.
    pub open spec fn after_update(self, ok: bool) -> MutationModel {
        if !self.updating() {
            self
        } else if ok {
            MutationModel { applied: self.applied + 1, updated: self.updated + 1, ..self }
        } else {
            MutationModel { applied: self.applied + 1, errors: self.errors + 1, ..self }
        }
    }
}

/// Putting an item keeps each identifier single.
pub proof fn lemma_put(items: Seq<ItemView>, item: ItemView)
    requires
        ids(items).no_duplicates(),
    ensures
        ids(put(items, item)).no_duplicates(),
        ids(put(items, item)).contains(item.id),
        put(items, item).len() >= items.len(),
        put(items, item).len() <= items.len() + 1,
{
    let after = put(items, item);
    if ids(items).contains(item.id) {
        let k = ids(items).index_of(item.id);
        assert(ids(after) =~= ids(items));
        assert(ids(after)[k] == item.id);
    } else {
        assert(ids(after) =~= ids(items).push(item.id));
        assert(ids(after)[items.len() as int] == item.id);
    }
}

/// Entering a number for a tag keeps each tag single.
pub proof fn lemma_with_count(counts: Seq<(Seq<char>, nat)>, tag: Seq<char>, n: nat)
    requires
        counted_tags(counts).no_duplicates(),
    ensures
        counted_tags(with_count(counts, tag, n)).no_duplicates(),
        counted_tags(with_count(counts, tag, n)).contains(tag),
{
    let after = with_count(counts, tag, n);
    if counted_tags(counts).contains(tag) {
        let k = counted_tags(counts).index_of(tag);
        assert(counted_tags(after) =~= counted_tags(counts));
        assert(counted_tags(after)[k] == tag);
    } else {
        assert(counted_tags(after) =~= counted_tags(counts).push(tag));
        assert(counted_tags(after)[counts.len() as int] == tag);
    }
}

/// Absorbing search results keeps each identifier single and loses no item.
pub proof fn lemma_absorb(items: Seq<ItemView>, found: Seq<serde_json::Value>)
    requires
        ids(items).no_duplicates(),
    ensures
        ids(absorb(items, found)).no_duplicates(),
        items.len() <= absorb(items, found).len() <= items.len() + found.len(),
    decreases found.len(),
{
    if found.len() > 0 {
        lemma_absorb(items, found.drop_last());
        match item_of(found.last()) {
            Some(item) => {
                lemma_put(absorb(items, found.drop_last()), item);
            },
            None => {},
        }
    }
}

/// Every item that is kept after a search was kept before or is one of the
/// results, read as `item_of` reads it: with the tags that the result carries
/// under its subject field.
pub proof fn lemma_absorb_items(items: Seq<ItemView>, found: Seq<serde_json::Value>)
    requires
        ids(items).no_duplicates(),
    ensures
        forall|i: int|
            0 <= i < absorb(items, found).len() ==> items.contains(
                #[trigger] absorb(items, found)[i],
            ) || exists|k: int|
                0 <= k < found.len() && item_of(#[trigger] found[k]) == Some(
                    absorb(items, found)[i],
                ),
    decreases found.len(),
{
    let after = absorb(items, found);
    if found.len() > 0 {
        let head = found.drop_last();
        let before = absorb(items, head);
        lemma_absorb_items(items, head);
        lemma_absorb(items, head);
        assert forall|i: int| 0 <= i < after.len() implies items.contains(#[trigger] after[i])
            || exists|k: int|
            0 <= k < found.len() && item_of(#[trigger] found[k]) == Some(after[i]) by {
            let last = found.len() - 1;
            match item_of(found.last()) {
                Some(item) => {
                    lemma_put(before, item);
                    if i < before.len() && after[i] == before[i] {
                        if !items.contains(before[i]) {
                            let k = choose|k: int|
                                0 <= k < head.len() && item_of(#[trigger] head[k]) == Some(
                                    before[i],
                                );
                            assert(found[k] == head[k]);
                        }
                    } else {
                        assert(after[i] == item);
                        assert(item_of(found[last]) == Some(after[i]));
                    }
                },
                None => {
                    if !items.contains(before[i]) {
                        let k = choose|k: int|
                            0 <= k < head.len() && item_of(#[trigger] head[k]) == Some(before[i]);
                        assert(found[k] == head[k]);
                    }
                },
            }
        }
    } else {
        assert forall|i: int| 0 <= i < after.len() implies items.contains(#[trigger] after[i])
            || exists|k: int|
            0 <= k < found.len() && item_of(#[trigger] found[k]) == Some(after[i]) by {
            assert(items[i] == after[i]);
        }
    }
}

/// Every step of a bulk change leaves a well-formed state, in which each item
/// written is counted once, as updated or as an error.
pub proof fn lemma_steps_keep_wf(m: MutationModel, found: Seq<serde_json::Value>, ok: bool)
    requires
        m.wf(),
    ensures
        m.after_search(found).wf(),
        m.after_search_failure().wf(),
        m.after_update(ok).wf(),
        m.updated + m.errors == m.applied,
        m.applied <= m.items.len(),
{
    lemma_absorb(m.items, found);
    if m.searching() {
        lemma_with_count(m.tag_counts, m.removed[m.searched as int], found.len());
    }
}

/// A failed write does not stand in the way of the items after it: whatever the
/// outcome, the change goes on to the next item, or ends when none is left.
pub proof fn lemma_update_isolation(m: MutationModel)
    requires
        m.wf(),
        m.updating(),
    ensures
        m.after_update(false).items == m.items,
        m.after_update(false).applied == m.applied + 1,
        m.after_update(false).errors == m.errors + 1,
        m.after_update(false).updated == m.updated,
        m.after_update(true).updated == m.updated + 1,
        m.after_update(true).errors == m.errors,
        m.applied + 1 < m.items.len() ==> m.after_update(false).step() == m.after_update(
            true,
        ).step() && m.after_update(false).step() is Update,
        m.applied + 1 == m.items.len() ==> m.after_update(false).step() is Finished
            && m.after_update(true).step() is Finished,
{
}

/// How many of the writes succeeded.
pub open spec fn successes(outcomes: Seq<bool>) -> nat
    decreases outcomes.len(),
{
    if outcomes.len() == 0 {
        0
    } else {
        successes(outcomes.drop_last()) + if outcomes.last() {
            1nat
        } else {
            0nat
        }
    }
}

/// The state after the writes have come back with `outcomes`, one after the
/// other.
pub open spec fn after_updates(m: MutationModel, outcomes: Seq<bool>) -> MutationModel
    decreases outcomes.len(),
{
    if outcomes.len() == 0 {
        m
    } else {
        after_updates(m, outcomes.drop_last()).after_update(outcomes.last())
    }
}

/// Whatever the outcomes of the writes, every matched item is written once: the
/// writes that succeeded are counted as updated, those that failed as errors,
/// and after the last item the change is finished.
pub proof fn lemma_updates(m: MutationModel, outcomes: Seq<bool>)
    requires
        m.wf(),
        !m.failed,
        !m.dry_run,
        m.searched == m.removed.len(),
        m.applied == 0,
        outcomes.len() <= m.items.len(),
    ensures
        ({
            let a = after_updates(m, outcomes);
            &&& a.wf()
            &&& a.items == m.items
            &&& a.applied == outcomes.len()
            &&& a.updated == successes(outcomes)
            &&& a.errors == outcomes.len() - successes(outcomes)
            &&& outcomes.len() == m.items.len() ==> a.step() == StepView::Finished(a.result())
            &&& outcomes.len() < m.items.len() ==> a.step() is Update
        }),
    decreases outcomes.len(),
{
    if outcomes.len() > 0 {
        lemma_updates(m, outcomes.drop_last());
    }
}

/// A dry run writes nothing: once the searches are done it is finished, with no
/// item updated, none failed, and every matched item counted as affected.
pub proof fn lemma_dry_run_result(m: MutationModel)
    requires
        m.wf(),
        m.dry_run,
        !m.failed,
        m.searched == m.removed.len(),
    ensures
        m.step() == StepView::Finished(m.result()),
        m.result().updated == 0,
        m.result().errors == 0,
        m.result().items == m.items.len(),
        m.result().dry_run,
        m.result().preview.len() <= PREVIEW_LIMIT,
{
}

/// When a change that writes is finished, every matched item has been written
/// once: the updated and the failed together are the affected.
pub proof fn lemma_finished_counts(m: MutationModel)
    requires
        m.wf(),
        !m.dry_run,
        m.step() is Finished,
    ensures
        m.step() == StepView::Finished(m.result()),
        m.result().updated + m.result().errors == m.result().items,
{
}

/// A copy of an optional string.
pub fn copy_opt_text(s: &Option<String>) -> (r: Option<String>)
    ensures
        opt_view(r) == opt_view(*s),
{
    match s {
        Some(t) => Some(t.clone()),
        None => None,
    }
}

/// Puts `item` into `items` under its identifier.
pub fn put_item(items: &mut Vec<MatchedItem>, item: MatchedItem)
    requires
        ids(item_views(old(items)@)).no_duplicates(),
    ensures
        item_views(final(items)@) == put(item_views(old(items)@), item@),
        ids(item_views(final(items)@)).no_duplicates(),
{
    let ghost before = item_views(items@);
    proof {
        lemma_put(before, item@);
    }
    let mut i: usize = 0;
    while i < items.len()
        invariant
            i <= items.len(),
            items@ == old(items)@,
            before == item_views(items@),
            ids(before).no_duplicates(),
            ids(put(before, item@)).no_duplicates(),
            forall|k: int| 0 <= k < i ==> ids(before)[k] != item.id@,
        decreases items.len() - i,
    {
        if items[i].id == item.id {
            proof {
                assert(ids(before)[i as int] == item.id@);
                assert(ids(before).contains(item.id@));
                let j = ids(before).index_of(item.id@);
                assert(0 <= j < ids(before).len() && ids(before)[j] == item.id@);
                if j != i {
                    assert(ids(before)[j] != ids(before)[i as int]);
                }
            }
            let ghost item_view = item@;
            items.set(i, item);
            assert(item_views(items@) =~= before.update(i as int, item_view));
            return ;
        }
        i = i + 1;
    }
    assert(!ids(before).contains(item.id@));
    let ghost item_view = item@;
    items.push(item);
    assert(item_views(items@) =~= before.push(item_view));
}

/// Enters `n` as the number of items found for `tag`.
pub fn put_count(counts: &mut Vec<(String, usize)>, tag: String, n: usize)
    requires
        counted_tags(found_counts(old(counts)@)).no_duplicates(),
    ensures
        found_counts(final(counts)@) == with_count(found_counts(old(counts)@), tag@, n as nat),
        counted_tags(found_counts(final(counts)@)).no_duplicates(),
{
    let ghost before = found_counts(counts@);
    proof {
        lemma_with_count(before, tag@, n as nat);
    }
    let mut i: usize = 0;
    while i < counts.len()
        invariant
            i <= counts.len(),
            counts@ == old(counts)@,
            before == found_counts(counts@),
            counted_tags(before).no_duplicates(),
            counted_tags(with_count(before, tag@, n as nat)).no_duplicates(),
            forall|k: int| 0 <= k < i ==> counted_tags(before)[k] != tag@,
        decreases counts.len() - i,
    {
        if counts[i].0 == tag {
            proof {
                assert(counted_tags(before)[i as int] == tag@);
                assert(counted_tags(before).contains(tag@));
                let j = counted_tags(before).index_of(tag@);
                assert(0 <= j < counted_tags(before).len() && counted_tags(before)[j] == tag@);
                if j != i {
                    assert(counted_tags(before)[j] != counted_tags(before)[i as int]);
                }
            }
            let ghost tag_view = tag@;
            counts.set(i, (tag, n));
            assert(found_counts(counts@) =~= before.update(i as int, (tag_view, n as nat)));
            return ;
        }
        i = i + 1;
    }
    assert(!counted_tags(before).contains(tag@));
    let ghost tag_view = tag@;
    counts.push((tag, n));
    assert(found_counts(counts@) =~= before.push((tag_view, n as nat)));
}

/// A copy of a list of tags with numbers.
pub fn copy_counts(counts: &Vec<(String, usize)>) -> (r: Vec<(String, usize)>)
    ensures
        found_counts(r@) == found_counts(counts@),
{
    let mut out: Vec<(String, usize)> = Vec::new();
    let mut i: usize = 0;
    while i < counts.len()
        invariant
            i <= counts.len(),
            out.len() == i,
            forall|k: int| 0 <= k < i ==> found_counts(out@)[k] == found_counts(counts@)[k],
        decreases counts.len() - i,
    {
        out.push((counts[i].0.clone(), counts[i].1));
        i = i + 1;
    }
    assert(found_counts(out@) =~= found_counts(counts@));
    out
}

/// Puts the results of one search into `items`, in order.
pub fn absorb_items(items: &mut Vec<MatchedItem>, found: &Vec<serde_json::Value>)
    requires
        ids(item_views(old(items)@)).no_duplicates(),
    ensures
        item_views(final(items)@) == absorb(item_views(old(items)@), found@),
        ids(item_views(final(items)@)).no_duplicates(),
{
    let ghost before = item_views(items@);
    let mut k: usize = 0;
    assert(found@.take(0) =~= Seq::empty());
    while k < found.len()
        invariant
            k <= found.len(),
            before == item_views(old(items)@),
            item_views(items@) == absorb(before, found@.take(k as int)),
            ids(item_views(items@)).no_duplicates(),
        decreases found.len() - k,
    {
        proof {
            assert(found@.take(k + 1).drop_last() =~= found@.take(k as int));
            assert(found@.take(k + 1).last() == found@[k as int]);
        }
        match read_item(&found[k]) {
            Some(item) => {
                put_item(items, item);
            },
            None => {},
        }
        k = k + 1;
    }
    assert(found@.take(k as int) =~= found@);
}

/// Builds the preview of a change over `items`.
pub fn build_preview(
    items: &Vec<MatchedItem>,
    removed: &Vec<String>,
    appended: &Option<String>,
) -> (r: Vec<PreviewEntry>)
    ensures
        preview_views(r@) == preview_of(item_views(items@), texts(removed@), opt_view(*appended)),
{
    let shown = if items.len() <= PREVIEW_LIMIT {
        items.len()
    } else {
        PREVIEW_LIMIT
    };
    let mut out: Vec<PreviewEntry> = Vec::new();
    let mut i: usize = 0;
    let ghost want = preview_of(item_views(items@), texts(removed@), opt_view(*appended));
    while i < shown
        invariant
            i <= shown <= items.len(),
            want == preview_of(item_views(items@), texts(removed@), opt_view(*appended)),
            want.len() == shown,
            out.len() == i,
            forall|k: int| 0 <= k < i ==> out@[k]@ == want[k],
        decreases shown - i,
    {
        let entry = PreviewEntry {
            title: copy_opt_text(&items[i].title),
            current: copy_texts(&items[i].subjects),
            updated: proposed_tags(&items[i].subjects, removed, appended),
        };
        assert(entry@ == want[i as int]);
        out.push(entry);
        i = i + 1;
    }
    assert(preview_views(out@) =~= want);
    out
}

/// A bulk change of tags: a merge, a rename or a removal. It decides what is to
/// be done next; its driver does the searching and the writing and reports back.
pub struct BulkMutation {
    removed: Vec<String>,
    appended: Option<String>,
    strict: bool,
    dry_run: bool,
    base: String,
    searched: usize,
    items: Vec<MatchedItem>,
    tag_counts: Vec<(String, usize)>,
    applied: usize,
    updated: usize,
    errors: usize,
    failed: bool,
}

impl View for BulkMutation {
    type V = MutationModel;

    closed spec fn view(&self) -> MutationModel {
        MutationModel {
            removed: texts(self.removed@),
            appended: opt_view(self.appended),
            strict: self.strict,
            dry_run: self.dry_run,
            base: self.base@,
            searched: self.searched as nat,
            items: item_views(self.items@),
            tag_counts: found_counts(self.tag_counts@),
            applied: self.applied as nat,
            updated: self.updated as nat,
            errors: self.errors as nat,
            failed: self.failed,
        }
    }
}

impl BulkMutation {
    /// A merge of the tags `sources` into `target`, on items below `base`.
    pub fn merge(sources: Vec<String>, target: String, dry_run: bool, base: String) -> (r: Self)
        ensures
            r@ == MutationModel::initial(texts(sources@), Some(target@), false, dry_run, base@),
            r@.wf(),
    {
        let items: Vec<MatchedItem> = Vec::new();
        let tag_counts: Vec<(String, usize)> = Vec::new();
        assert(item_views(items@) =~= Seq::empty());
        assert(found_counts(tag_counts@) =~= Seq::empty());
        BulkMutation {
            removed: sources,
            appended: Some(target),
            strict: false,
            dry_run,
            base,
            searched: 0,
            items,
            tag_counts,
            applied: 0,
            updated: 0,
            errors: 0,
            failed: false,
        }
    }

    /// A rename of `old_tag` to `new_tag`: a merge with one source.
    pub fn rename(old_tag: String, new_tag: String, dry_run: bool, base: String) -> (r: Self)
        ensures
            r@ == MutationModel::initial(seq![old_tag@], Some(new_tag@), false, dry_run, base@),
            r@.wf(),
    {
        let mut sources: Vec<String> = Vec::new();
        let ghost old_view = old_tag@;
        sources.push(old_tag);
        assert(texts(sources@) =~= seq![old_view]);
        BulkMutation::merge(sources, new_tag, dry_run, base)
    }

    /// A removal of `tag`. Its one search has to succeed.
    pub fn remove(tag: String, dry_run: bool, base: String) -> (r: Self)
        ensures
            r@ == MutationModel::initial(seq![tag@], None, true, dry_run, base@),
            r@.wf(),
    {
        let mut removed: Vec<String> = Vec::new();
        let ghost tag_view = tag@;
        removed.push(tag);
        assert(texts(removed@) =~= seq![tag_view]);
        let items: Vec<MatchedItem> = Vec::new();
        let tag_counts: Vec<(String, usize)> = Vec::new();
        assert(item_views(items@) =~= Seq::empty());
        assert(found_counts(tag_counts@) =~= Seq::empty());
        BulkMutation {
            removed,
            appended: None,
            strict: true,
            dry_run,
            base,
            searched: 0,
            items,
            tag_counts,
            applied: 0,
            updated: 0,
            errors: 0,
            failed: false,
        }
    }

    /// What is to be done next.
    pub fn step(&self) -> (r: MutationStep)
        requires
            self@.wf(),
        ensures
            r@ == self@.step(),
    {
        if self.failed {
            MutationStep::Failed
        } else if self.searched < self.removed.len() {
            MutationStep::Search { subject: self.removed[self.searched].clone() }
        } else if !self.dry_run && self.applied < self.items.len() {
            let item = &self.items[self.applied];
            MutationStep::Update {
                path: item_path(item.id.as_str(), self.base.as_str()),
                subjects: proposed_tags(&item.subjects, &self.removed, &self.appended),
            }
        } else {
            let message = if self.items.len() == 0 {
                Some("No matching items found.".to_owned())
            } else {
                None
            };
            MutationStep::Finished(
                MutationResult {
                    updated: self.updated,
                    errors: self.errors,
                    items: self.items.len(),
                    preview: build_preview(&self.items, &self.removed, &self.appended),
                    tag_counts: copy_counts(&self.tag_counts),
                    dry_run: self.dry_run,
                    message,
                },
            )
        }
    }

    /// Takes the items that the awaited search returned.
    pub fn search_done(&mut self, found: &Vec<serde_json::Value>)
        requires
            old(self)@.wf(),
        ensures
            final(self)@ == old(self)@.after_search(found@),
            final(self)@.wf(),
    {
        proof {
            lemma_steps_keep_wf(self@, found@, true);
        }
        if !self.failed && self.searched < self.removed.len() {
            absorb_items(&mut self.items, found);
            put_count(&mut self.tag_counts, self.removed[self.searched].clone(), found.len());
            self.searched = self.searched + 1;
        }
    }

    /// Takes note that the awaited search failed.
    pub fn search_failed(&mut self)
        requires
            old(self)@.wf(),
        ensures
            final(self)@ == old(self)@.after_search_failure(),
            final(self)@.wf(),
    {
        if !self.failed && self.searched < self.removed.len() {
            if self.strict {
                self.failed = true;
            } else {
                self.searched = self.searched + 1;
            }
        }
    }

    /// Takes note that the awaited write succeeded (`ok`) or failed.
    pub fn update_done(&mut self, ok: bool)
        requires
            old(self)@.wf(),
        ensures
            final(self)@ == old(self)@.after_update(ok),
            final(self)@.wf(),
    {
        if !self.failed && self.searched >= self.removed.len() && !self.dry_run && self.applied
            < self.items.len() {
            self.applied = self.applied + 1;
            if ok {
                self.updated = self.updated + 1;
            } else {
                self.errors = self.errors + 1;
            }
        }
    }
}

} // verus!
