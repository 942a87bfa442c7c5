use crate::text::{lex_before, lex_less};
use vstd::prelude::*;

verus! {

/// What a result is ranked by.
pub struct RankKey {
    pub score: i32,
    pub count: usize,
    /// The characters of the lowercase name.
    pub lower: Vec<char>,
}

/// The mathematical content of a `RankKey`.
pub struct KeyView {
    pub score: int,
    pub count: int,
    pub lower: Seq<char>,
}

impl View for RankKey {
    type V = KeyView;

    open spec fn view(&self) -> KeyView {
        KeyView { score: self.score as int, count: self.count as int, lower: self.lower@ }
    }
}

/// The views of a list of keys.
pub open spec fn key_views(keys: Seq<RankKey>) -> Seq<KeyView> {
    Seq::new(keys.len(), |i: int| keys[i]@)
}

/// `a` comes before `b`: by the higher score, then by the higher count, then by
/// the lowercase name in lexicographic order.
pub open spec fn ranks_before(a: KeyView, b: KeyView) -> bool {
    a.score > b.score || (a.score == b.score && (a.count > b.count || (a.count == b.count
        && lex_less(a.lower, b.lower))))
}

/// `sorted` with the index `x` put in after every index that does not rank
/// behind it.
pub open spec fn insert_ranked(keys: Seq<KeyView>, sorted: Seq<usize>, x: usize) -> Seq<usize>
    decreases sorted.len(),
{
    if sorted.len() == 0 {
        seq![x]
    } else if ranks_before(keys[x as int], keys[sorted.last() as int]) {
        insert_ranked(keys, sorted.drop_last(), x).push(sorted.last())
    } else {
        sorted.push(x)
    }
}

/// The indices below `n` in ranked order; of two that rank alike the lower
/// index comes first.
pub open spec fn rank_order(keys: Seq<KeyView>, n: nat) -> Seq<usize>
    decreases n,
{
    if n == 0 {
        Seq::empty()
    } else {
        insert_ranked(keys, rank_order(keys, (n - 1) as nat), (n - 1) as usize)
    }
}

/// Each index below `n` stands in `s` once, and nothing else does.
pub open spec fn is_arrangement(s: Seq<usize>, n: nat) -> bool {
    &&& s.len() == n
    &&& s.no_duplicates()
    &&& forall|k: int| 0 <= k < s.len() ==> #[trigger] s[k] < n
}

/// The index `a` is to stand before the index `b`: its key ranks before, or
/// neither ranks before the other and `a` is the lower index.
pub open spec fn in_order(keys: Seq<KeyView>, a: usize, b: usize) -> bool {
    ranks_before(keys[a as int], keys[b as int]) || (!ranks_before(keys[b as int], keys[a as int])
        && a < b)
}

/// Every index in `s` is to stand before those that follow it.
pub open spec fn is_ranked(keys: Seq<KeyView>, s: Seq<usize>) -> bool {
    forall|p: int, q: int| 0 <= p < q < s.len() ==> in_order(keys, #[trigger] s[p], #[trigger] s[q])
}

/// The lexicographic order is irreflexive.
pub proof fn lemma_lex_irreflexive(a: Seq<char>)
    ensures
        !lex_less(a, a),
    decreases a.len(),
{
    if a.len() > 0 {
        lemma_lex_irreflexive(a.drop_first());
    }
}

/// The lexicographic order is transitive.
pub proof fn lemma_lex_transitive(a: Seq<char>, b: Seq<char>, c: Seq<char>)
    requires
        lex_less(a, b),
        lex_less(b, c),
    ensures
        lex_less(a, c),
    decreases a.len(),
{
    if a.len() > 0 && b.len() > 0 && c.len() > 0 {
        if a[0] == b[0] && b[0] == c[0] {
            lemma_lex_transitive(a.drop_first(), b.drop_first(), c.drop_first());
        }
    }
}

/// Of two different texts one comes before the other.
pub proof fn lemma_lex_total(a: Seq<char>, b: Seq<char>)
    ensures
        lex_less(a, b) || lex_less(b, a) || a == b,
    decreases a.len(),
{
    if a.len() > 0 && b.len() > 0 {
        if a[0] == b[0] {
            lemma_lex_total(a.drop_first(), b.drop_first());
            if a.drop_first() == b.drop_first() {
                assert(a =~= seq![a[0]] + a.drop_first());
                assert(b =~= seq![b[0]] + b.drop_first());
            }
        } else {
            if (a[0] as u32) == (b[0] as u32) {
                vstd::utf8::char_u32_cast(a[0], a[0] as u32);
                vstd::utf8::char_u32_cast(b[0], b[0] as u32);
            }
        }
    } else if a.len() == 0 && b.len() == 0 {
        assert(a =~= b);
    }
}

/// The ranking is a strict order: nothing ranks before itself, and it is
/// transitive.
pub proof fn lemma_ranks_transitive(a: KeyView, b: KeyView, c: KeyView)
    requires
        ranks_before(a, b),
        ranks_before(b, c),
    ensures
        ranks_before(a, c),
        !ranks_before(a, a),
{
    lemma_lex_irreflexive(a.lower);
    if a.score == b.score && b.score == c.score && a.count == b.count && b.count == c.count {
        lemma_lex_transitive(a.lower, b.lower, c.lower);
    }
}

/// If `a` does not rank before `b`, nor `b` before `c`, then `a` does not rank
/// before `c`.
pub proof fn lemma_ranks_not_before(a: KeyView, b: KeyView, c: KeyView)
    requires
        !ranks_before(a, b),
        !ranks_before(b, c),
    ensures
        !ranks_before(a, c),
{
    if ranks_before(a, c) {
        lemma_lex_total(a.lower, b.lower);
        lemma_lex_total(b.lower, c.lower);
        if a.score == b.score && b.score == c.score && a.count == b.count && b.count == c.count {
            if a.lower == b.lower {
            } else if b.lower == c.lower {
            } else {
                lemma_lex_transitive(c.lower, b.lower, a.lower);
                lemma_lex_transitive(a.lower, c.lower, b.lower);
                lemma_lex_irreflexive(a.lower);
                lemma_lex_transitive(a.lower, c.lower, a.lower);
            }
        }
    }
}

/// Inserting a new highest index into a ranked sequence leaves it ranked, and
/// adds that index and nothing else.
pub proof fn lemma_insert_ranked(keys: Seq<KeyView>, s: Seq<usize>, x: usize)
    requires
        is_ranked(keys, s),
        s.no_duplicates(),
        forall|k: int| 0 <= k < s.len() ==> #[trigger] s[k] < x,
    ensures
        is_ranked(keys, insert_ranked(keys, s, x)),
        insert_ranked(keys, s, x).no_duplicates(),
        insert_ranked(keys, s, x).len() == s.len() + 1,
        forall|k: int|
            0 <= k < insert_ranked(keys, s, x).len() ==> #[trigger] insert_ranked(keys, s, x)[k]
                <= x,
        forall|v: usize| #[trigger]
            insert_ranked(keys, s, x).contains(v) <==> s.contains(v) || v == x,
    decreases s.len(),
{
    let r = insert_ranked(keys, s, x);
    if s.len() == 0 {
        assert(r[0] == x);
        assert forall|v: usize| #[trigger] r.contains(v) <==> s.contains(v) || v == x by {
            if r.contains(v) {
                let i = choose|i: int| 0 <= i < r.len() && r[i] == v;
            }
        }
    } else {
        let head = s.drop_last();
        let last = s.last();
        assert(forall|k: int| 0 <= k < head.len() ==> head[k] == s[k]);
        assert(s[s.len() - 1] == last);
        if ranks_before(keys[x as int], keys[last as int]) {
            lemma_insert_ranked(keys, head, x);
            let inner = insert_ranked(keys, head, x);
            assert(r == inner.push(last));
            assert forall|p: int| 0 <= p < inner.len() implies in_order(keys, inner[p], last)
                && inner[p] != last by {
                assert(inner.contains(inner[p]));
                if inner[p] != x {
                    assert(head.contains(inner[p]));
                    let j = choose|j: int| 0 <= j < head.len() && head[j] == inner[p];
                    assert(s[j] == inner[p]);
                    assert(in_order(keys, s[j], s[s.len() - 1]));
                }
            }
            assert forall|p: int, q: int| 0 <= p < q < r.len() implies in_order(
                keys,
                #[trigger] r[p],
                #[trigger] r[q],
            ) by {
                if q < inner.len() {
                    assert(in_order(keys, inner[p], inner[q]));
                }
            }
            assert forall|v: usize| #[trigger] r.contains(v) <==> s.contains(v) || v == x by {
                if r.contains(v) {
                    let i = choose|i: int| 0 <= i < r.len() && r[i] == v;
                    if i < inner.len() {
                        assert(inner.contains(v));
                        if head.contains(v) {
                            let j = choose|j: int| 0 <= j < head.len() && head[j] == v;
                            assert(s[j] == v);
                        }
                    }
                }
                if s.contains(v) {
                    let j = choose|j: int| 0 <= j < s.len() && s[j] == v;
                    if j < head.len() {
                        assert(head[j] == v);
                        assert(head.contains(v));
                        assert(inner.contains(v));
                        let i = choose|i: int| 0 <= i < inner.len() && inner[i] == v;
                        assert(r[i] == v);
                    } else {
                        assert(r[inner.len() as int] == v);
                    }
                }
                if v == x {
                    assert(inner.contains(x));
                    let i = choose|i: int| 0 <= i < inner.len() && inner[i] == x;
                    assert(r[i] == v);
                }
            }
        } else {
            assert(r == s.push(x));
            assert forall|p: int, q: int| 0 <= p < q < r.len() implies in_order(
                keys,
                #[trigger] r[p],
                #[trigger] r[q],
            ) by {
                if q < s.len() {
                    assert(in_order(keys, s[p], s[q]));
                } else {
                    if p < s.len() - 1 {
                        assert(in_order(keys, s[p], s[s.len() - 1]));
                        if ranks_before(keys[s[p] as int], keys[last as int]) {
                            if ranks_before(keys[last as int], keys[s[p] as int]) {
                                lemma_ranks_transitive(
                                    keys[last as int],
                                    keys[s[p] as int],
                                    keys[last as int],
                                );
                            }
                        }
                        lemma_ranks_not_before(
                            keys[x as int],
                            keys[last as int],
                            keys[s[p] as int],
                        );
                    }
                }
            }
            assert forall|v: usize| #[trigger] r.contains(v) <==> s.contains(v) || v == x by {
                if r.contains(v) {
                    let i = choose|i: int| 0 <= i < r.len() && r[i] == v;
                    if i < s.len() {
                        assert(s[i] == v);
                    }
                }
                if s.contains(v) {
                    let j = choose|j: int| 0 <= j < s.len() && s[j] == v;
                    assert(r[j] == v);
                }
                if v == x {
                    assert(r[s.len() as int] == v);
                }
            }
        }
    }
}

/// The ranked order holds each index once, and every index in it is to stand
/// before those that follow it.
pub proof fn lemma_rank_order(keys: Seq<KeyView>, n: nat)
    requires
        n <= usize::MAX,
    ensures
        is_arrangement(rank_order(keys, n), n),
        is_ranked(keys, rank_order(keys, n)),
    decreases n,
{
    if n > 0 {
        lemma_rank_order(keys, (n - 1) as nat);
        lemma_insert_ranked(keys, rank_order(keys, (n - 1) as nat), (n - 1) as usize);
        let r = rank_order(keys, n);
        assert forall|k: int| 0 <= k < r.len() implies #[trigger] r[k] < n by {
            assert(r[k] <= (n - 1) as usize);
        }
    }
}

/// Whether `a` ranks before `b`.
pub fn ranks_first(a: &RankKey, b: &RankKey) -> (r: bool)
    ensures
        r == ranks_before(a@, b@),
{
    if a.score != b.score {
        a.score > b.score
    } else if a.count != b.count {
        a.count > b.count
    } else {
        lex_before(&a.lower, &b.lower)
    }
}

/// The indices of `keys` in ranked order.
pub fn ranked_order(keys: &Vec<RankKey>) -> (r: Vec<usize>)
    ensures
        r@ == rank_order(key_views(keys@), keys.len() as nat),
        is_arrangement(r@, keys.len() as nat),
        is_ranked(key_views(keys@), r@),
{
    let ghost kv = key_views(keys@);
    let mut order: Vec<usize> = Vec::new();
    let mut k: usize = 0;
    assert(order@ =~= rank_order(kv, 0));
    while k < keys.len()
        invariant
            k <= keys.len(),
            kv == key_views(keys@),
            order@ == rank_order(kv, k as nat),
        decreases keys.len() - k,
    {
        proof {
            lemma_rank_order(kv, k as nat);
        }
        let mut p: usize = order.len();
        assert(order@.take(p as int) =~= order@);
        assert(order@.skip(p as int) =~= Seq::empty());
        assert(insert_ranked(kv, order@, k) =~= insert_ranked(kv, order@.take(p as int), k)
            + order@.skip(p as int));
        while p > 0 && ranks_first(&keys[k], &keys[order[p - 1]])
            invariant
                p <= order.len(),
                k < keys.len(),
                kv == key_views(keys@),
                is_arrangement(order@, k as nat),
                insert_ranked(kv, order@, k) == insert_ranked(kv, order@.take(p as int), k)
                    + order@.skip(p as int),
            decreases p,
        {
            proof {
                let t = order@.take(p as int);
                assert(t.last() == order@[p - 1]);
                assert(t.drop_last() =~= order@.take(p - 1));
                assert(insert_ranked(kv, t, k) == insert_ranked(kv, order@.take(p - 1), k).push(
                    order@[p - 1],
                ));
                assert(insert_ranked(kv, order@.take(p - 1), k).push(order@[p - 1]) + order@.skip(
                    p as int,
                ) =~= insert_ranked(kv, order@.take(p - 1), k) + order@.skip(p - 1));
            }
            p = p - 1;
        }
        proof {
            let t = order@.take(p as int);
            if p > 0 {
                assert(t.last() == order@[p - 1]);
            }
            assert(insert_ranked(kv, t, k) == t.push(k));
            assert(t.push(k) + order@.skip(p as int) =~= order@.insert(p as int, k));
        }
        order.insert(p, k);
        k = k + 1;
    }
    proof {
        lemma_rank_order(kv, keys.len() as nat);
    }
    order
}

} // verus!
