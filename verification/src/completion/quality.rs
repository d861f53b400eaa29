//! Ranking of completion candidates by how well their label matches the text
//! at the cursor.

use crate::completion::query::{document_query, get_document_query};
use crate::features::completion::types::{push_candidate, Candidate, InternalCompletionItem};
use crate::features::cursor::{CompletionParams, FeatureRequest};
use crate::strings::{
    is_substring, lowercase, str_contains, str_eq, str_starts_with, str_to_lowercase,
};
use crate::syntax::text::Position;
use crate::workspace::Document;
use vstd::multiset::Multiset;
use vstd::prelude::*;

verus! {

/// Reorders the merged candidates by the quality of their match.
pub struct OrderByQualityCompletionProvider;

/// The score of `label` against `query`, given the lowercase forms of both.
///
/// Exact match scores 7, exact match ignoring case 6, prefix 5, prefix
/// ignoring case 4, substring 3, substring ignoring case 2, anything else 1.
pub open spec fn match_quality(
    query: Seq<char>,
    label: Seq<char>,
    query_lower: Seq<char>,
    label_lower: Seq<char>,
) -> int {
    if label == query {
        7
    } else if label_lower == query_lower {
        6
    } else if query.is_prefix_of(label) {
        5
    } else if query_lower.is_prefix_of(label_lower) {
        4
    } else if is_substring(query, label) {
        3
    } else if is_substring(query_lower, label_lower) {
        2
    } else {
        1
    }
}

/// The score of `label` against an optional query: 0 without a query.
pub open spec fn quality(query: Option<Seq<char>>, label: Seq<char>) -> int {
    match query {
        Some(q) => match_quality(q, label, lowercase(q), lowercase(label)),
        None => 0,
    }
}

/// Scores a label against a query when the lowercase forms are at hand.
pub fn score_match(query: &str, label: &str, query_lower: &str, label_lower: &str) -> (score: i32)
    ensures
        score == match_quality(query@, label@, query_lower@, label_lower@),
{
    if str_eq(label, query) {
        return 7;
    }
    if str_eq(label_lower, query_lower) {
        return 6;
    }
    if str_starts_with(label, query) {
        return 5;
    }
    if str_starts_with(label_lower, query_lower) {
        return 4;
    }
    if str_contains(label, query) {
        return 3;
    }
    if str_contains(label_lower, query_lower) {
        return 2;
    }
    1
}

/// The candidates among the first `n` of `items` that score `level`
/// against `query`, in their order.
pub open spec fn bucket_below(
    query: Option<Seq<char>>,
    items: Seq<Candidate>,
    level: int,
    n: int,
) -> Seq<Candidate>
    decreases n,
{
    if n <= 0 {
        Seq::empty()
    } else if quality(query, items[n - 1].data.label()) == level {
        bucket_below(query, items, level, n - 1).push(items[n - 1])
    } else {
        bucket_below(query, items, level, n - 1)
    }
}

/// The candidates that score more than `level`, those of the highest score
/// first and those of one score in their order in `items`.
pub open spec fn levels_above(query: Option<Seq<char>>, items: Seq<Candidate>, level: int) -> Seq<
    Candidate,
>
    decreases 7 - level,
{
    if level >= 7 {
        Seq::empty()
    } else {
        levels_above(query, items, level + 1) + bucket_below(
            query,
            items,
            level + 1,
            items.len() as int,
        )
    }
}

/// The candidates in descending order of their score against `query`,
/// those of one score in their order in `items`.
pub open spec fn ordered_by_quality(query: Option<Seq<char>>, items: Seq<Candidate>) -> Seq<
    Candidate,
> {
    levels_above(query, items, -1)
}

/// A score lies between 0 and 7, and it is 0 exactly where there is no
/// query.
pub proof fn lemma_quality_range(query: Option<Seq<char>>, label: Seq<char>)
    ensures
        0 <= quality(query, label) <= 7,
        quality(query, label) == 0 <==> query is None,
{
}

/// Every candidate of a bucket has the score of the bucket, and a bucket
/// is no longer than the part of the list it was taken from.
pub proof fn lemma_bucket_scores(
    query: Option<Seq<char>>,
    items: Seq<Candidate>,
    level: int,
    n: int,
)
    requires
        0 <= n <= items.len(),
    ensures
        bucket_below(query, items, level, n).len() <= n,
        forall|i: int|
            0 <= i < bucket_below(query, items, level, n).len() ==> quality(
                query,
                (#[trigger] bucket_below(query, items, level, n)[i]).data.label(),
            ) == level,
    decreases n,
{
    if n > 0 {
        lemma_bucket_scores(query, items, level, n - 1);
    }
}

/// Every candidate of `levels_above` scores more than `level`, and the
/// scores never go up along the list.
pub proof fn lemma_levels_descending(query: Option<Seq<char>>, items: Seq<Candidate>, level: int)
    requires
        -1 <= level <= 7,
    ensures
        forall|i: int|
            0 <= i < levels_above(query, items, level).len() ==> level < quality(
                query,
                (#[trigger] levels_above(query, items, level)[i]).data.label(),
            ) <= 7,
        forall|i: int, j: int|
            0 <= i <= j < levels_above(query, items, level).len() ==> quality(
                query,
                (#[trigger] levels_above(query, items, level)[i]).data.label(),
            ) >= quality(query, (#[trigger] levels_above(query, items, level)[j]).data.label()),
    decreases 7 - level,
{
    if level < 7 {
        lemma_levels_descending(query, items, level + 1);
        lemma_bucket_scores(query, items, level + 1, items.len() as int);
    }
}

/// The ordered list is in descending order of score.
pub proof fn lemma_ordered_descending(
    query: Option<Seq<char>>,
    items: Seq<Candidate>,
    i: int,
    j: int,
)
    requires
        0 <= i <= j < ordered_by_quality(query, items).len(),
    ensures
        quality(query, ordered_by_quality(query, items)[i].data.label()) >= quality(
            query,
            ordered_by_quality(query, items)[j].data.label(),
        ),
{
    lemma_levels_descending(query, items, -1);
}

/// The bucket of a prefix does not depend on what follows the prefix.
proof fn lemma_bucket_prefix(
    query: Option<Seq<char>>,
    a: Seq<Candidate>,
    b: Seq<Candidate>,
    level: int,
    n: int,
)
    requires
        0 <= n <= a.len(),
        n <= b.len(),
        forall|i: int| 0 <= i < n ==> a[i] == b[i],
    ensures
        bucket_below(query, a, level, n) == bucket_below(query, b, level, n),
    decreases n,
{
    if n > 0 {
        lemma_bucket_prefix(query, a, b, level, n - 1);
    }
}

/// The bucket of two lists joined is the two buckets joined.
proof fn lemma_bucket_concat(
    query: Option<Seq<char>>,
    a: Seq<Candidate>,
    b: Seq<Candidate>,
    level: int,
    n: int,
)
    requires
        0 <= n <= b.len(),
    ensures
        bucket_below(query, a + b, level, a.len() + n) == bucket_below(
            query,
            a,
            level,
            a.len() as int,
        ) + bucket_below(query, b, level, n),
    decreases n,
{
    if n == 0 {
        lemma_bucket_prefix(query, a + b, a, level, a.len() as int);
        assert(bucket_below(query, a, level, a.len() as int) + Seq::<Candidate>::empty()
            =~= bucket_below(query, a, level, a.len() as int));
    } else {
        lemma_bucket_concat(query, a, b, level, n - 1);
        assert((a + b)[a.len() + n - 1] == b[n - 1]);
        let left = bucket_below(query, a, level, a.len() as int);
        let right = bucket_below(query, b, level, n - 1);
        assert((left + right).push(b[n - 1]) =~= left + right.push(b[n - 1]));
    }
}

/// A list whose candidates all score `level` is its own bucket of that
/// level and has an empty bucket of every other level.
proof fn lemma_bucket_of_uniform(
    query: Option<Seq<char>>,
    items: Seq<Candidate>,
    level: int,
    other: int,
    n: int,
)
    requires
        0 <= n <= items.len(),
        forall|i: int|
            0 <= i < items.len() ==> quality(query, (#[trigger] items[i]).data.label()) == level,
    ensures
        bucket_below(query, items, other, n) == if other == level {
            items.take(n)
        } else {
            Seq::<Candidate>::empty()
        },
    decreases n,
{
    if n > 0 {
        lemma_bucket_of_uniform(query, items, level, other, n - 1);
        if other == level {
            assert(items.take(n - 1).push(items[n - 1]) =~= items.take(n));
        }
    } else {
        assert(items.take(0) =~= Seq::<Candidate>::empty());
    }
}

/// The candidates of one score come out of `levels_above` in the order in
/// which they went in.
proof fn lemma_levels_stable(
    query: Option<Seq<char>>,
    items: Seq<Candidate>,
    level: int,
    other: int,
)
    requires
        -1 <= level <= 7,
    ensures
        bucket_below(
            query,
            levels_above(query, items, level),
            other,
            levels_above(query, items, level).len() as int,
        ) == if level < other <= 7 {
            bucket_below(query, items, other, items.len() as int)
        } else {
            Seq::<Candidate>::empty()
        },
    decreases 7 - level,
{
    if level < 7 {
        let rest = levels_above(query, items, level + 1);
        let bucket = bucket_below(query, items, level + 1, items.len() as int);
        lemma_levels_stable(query, items, level + 1, other);
        lemma_bucket_scores(query, items, level + 1, items.len() as int);
        lemma_bucket_of_uniform(query, bucket, level + 1, other, bucket.len() as int);
        lemma_bucket_concat(query, rest, bucket, other, bucket.len() as int);
        assert(bucket.take(bucket.len() as int) =~= bucket);
        let left = bucket_below(query, rest, other, rest.len() as int);
        let right = bucket_below(query, bucket, other, bucket.len() as int);
        assert(left + Seq::<Candidate>::empty() =~= left);
        assert(Seq::<Candidate>::empty() + right =~= right);
    }
}

/// Ordering is stable: the candidates of one score stand in the ordered
/// list in the order in which they stood in the merged list.
pub proof fn lemma_ordered_stable(query: Option<Seq<char>>, items: Seq<Candidate>, level: int)
    requires
        0 <= level <= 7,
    ensures
        bucket_below(
            query,
            ordered_by_quality(query, items),
            level,
            ordered_by_quality(query, items).len() as int,
        ) == bucket_below(query, items, level, items.len() as int),
{
    lemma_levels_stable(query, items, -1, level);
}

/// The candidates among the first `n` of `items` that score more than
/// `level`, as a multiset.
pub open spec fn levels_multiset(
    query: Option<Seq<char>>,
    items: Seq<Candidate>,
    level: int,
    n: int,
) -> Multiset<Candidate>
    decreases 7 - level,
{
    if level >= 7 {
        Multiset::empty()
    } else {
        levels_multiset(query, items, level + 1, n).add(
            bucket_below(query, items, level + 1, n).to_multiset(),
        )
    }
}

/// `levels_above` holds the candidates of its buckets.
proof fn lemma_levels_multiset(query: Option<Seq<char>>, items: Seq<Candidate>, level: int)
    requires
        -1 <= level <= 7,
    ensures
        levels_above(query, items, level).to_multiset() == levels_multiset(
            query,
            items,
            level,
            items.len() as int,
        ),
    decreases 7 - level,
{
    if level < 7 {
        lemma_levels_multiset(query, items, level + 1);
        vstd::seq_lib::lemma_multiset_commutative(
            levels_above(query, items, level + 1),
            bucket_below(query, items, level + 1, items.len() as int),
        );
    } else {
        assert(levels_above(query, items, level).to_multiset() =~= Multiset::<
            Candidate,
        >::empty()) by {
            levels_above(query, items, level).to_multiset_ensures();
        }
    }
}

/// One more candidate in the list is one more candidate in the buckets
/// above `level` if it scores more than `level`, and none otherwise.
proof fn lemma_levels_multiset_step(
    query: Option<Seq<char>>,
    items: Seq<Candidate>,
    level: int,
    n: int,
)
    requires
        -1 <= level <= 7,
        0 < n <= items.len(),
    ensures
        levels_multiset(query, items, level, n) == if level < quality(
            query,
            items[n - 1].data.label(),
        ) {
            levels_multiset(query, items, level, n - 1).insert(items[n - 1])
        } else {
            levels_multiset(query, items, level, n - 1)
        },
    decreases 7 - level,
{
    if level < 7 {
        lemma_levels_multiset_step(query, items, level + 1, n);
        let before = bucket_below(query, items, level + 1, n - 1);
        vstd::seq_lib::to_multiset_build(before, items[n - 1]);
        let score = quality(query, items[n - 1].data.label());
        let rest = levels_multiset(query, items, level + 1, n - 1);
        if score == level + 1 {
            assert(rest.add(before.to_multiset().insert(items[n - 1])) =~= rest.add(
                before.to_multiset(),
            ).insert(items[n - 1]));
        } else if level + 1 < score {
            assert(rest.insert(items[n - 1]).add(before.to_multiset()) =~= rest.add(
                before.to_multiset(),
            ).insert(items[n - 1]));
        }
    }
}

/// The buckets of all levels hold the candidates of the list.
proof fn lemma_levels_multiset_all(query: Option<Seq<char>>, items: Seq<Candidate>, n: int)
    requires
        0 <= n <= items.len(),
    ensures
        levels_multiset(query, items, -1, n) == items.take(n).to_multiset(),
    decreases n,
{
    if n == 0 {
        lemma_levels_multiset_empty(query, items, -1);
        items.take(0).to_multiset_ensures();
        assert(items.take(0).to_multiset() =~= Multiset::<Candidate>::empty());
    } else {
        lemma_levels_multiset_all(query, items, n - 1);
        lemma_levels_multiset_step(query, items, -1, n);
        vstd::seq_lib::to_multiset_build(items.take(n - 1), items[n - 1]);
        assert(items.take(n - 1).push(items[n - 1]) =~= items.take(n));
    }
}

/// The buckets of an empty prefix are empty.
proof fn lemma_levels_multiset_empty(query: Option<Seq<char>>, items: Seq<Candidate>, level: int)
    requires
        -1 <= level <= 7,
    ensures
        levels_multiset(query, items, level, 0) == Multiset::<Candidate>::empty(),
    decreases 7 - level,
{
    if level < 7 {
        lemma_levels_multiset_empty(query, items, level + 1);
        let bucket = bucket_below(query, items, level + 1, 0);
        bucket.to_multiset_ensures();
        assert(bucket.to_multiset() =~= Multiset::<Candidate>::empty());
        assert(Multiset::<Candidate>::empty().add(Multiset::<Candidate>::empty())
            =~= Multiset::<Candidate>::empty());
    }
}

/// Ordering nothing gives nothing.
pub proof fn lemma_ordered_empty(query: Option<Seq<char>>)
    ensures
        ordered_by_quality(query, Seq::<Candidate>::empty()) == Seq::<Candidate>::empty(),
{
    lemma_ordered_permutation(query, Seq::<Candidate>::empty());
    assert(ordered_by_quality(query, Seq::<Candidate>::empty()) =~= Seq::<Candidate>::empty());
}

/// Ordering neither drops nor adds a candidate: the ordered list holds
/// each candidate as often as the merged list does.
pub proof fn lemma_ordered_permutation(query: Option<Seq<char>>, items: Seq<Candidate>)
    ensures
        ordered_by_quality(query, items).to_multiset() == items.to_multiset(),
        ordered_by_quality(query, items).len() == items.len(),
{
    lemma_levels_multiset(query, items, -1);
    lemma_levels_multiset_all(query, items, items.len() as int);
    assert(items.take(items.len() as int) =~= items);
    ordered_by_quality(query, items).to_multiset_ensures();
    items.to_multiset_ensures();
}

impl OrderByQualityCompletionProvider {
    /// The text that the user is typing at a position of a document.
    pub fn get_query<'a>(document: &'a Document, position: Position) -> (query: Option<&'a str>)
        requires
            document.wf(),
        ensures
            match query {
                Some(q) => document_query(*document, position) == Some(q@),
                None => document_query(*document, position) is None,
            },
    {
        get_document_query(document, position)
    }

    /// Reorders the merged candidates of a request: those that match the
    /// text at the cursor best come first, and candidates that match
    /// equally well keep their order.
    pub fn execute(
        request: &FeatureRequest<CompletionParams>,
        items: Vec<InternalCompletionItem>,
    ) -> (ordered: Vec<InternalCompletionItem>)
        requires
            request.wf(),
        ensures
            ordered.deep_view() == ordered_by_quality(
                document_query(request.main_of(), request.params.position),
                items.deep_view(),
            ),
    {
        let query = Self::get_query(request.main_document(), request.params.position);
        let ghost q = document_query(request.main_of(), request.params.position);
        let ghost all = items.deep_view();
        let mut scores: Vec<i32> = Vec::new();
        let mut k: usize = 0;
        while k < items.len()
            invariant
                0 <= k <= items@.len(),
                all == items.deep_view(),
                q == match query {
                    Some(text) => Some(text@),
                    None => None,
                },
                scores@.len() == k,
                forall|j: int|
                    0 <= j < k ==> (#[trigger] scores@[j]) == quality(q, all[j].data.label()),
            decreases items@.len() - k,
        {
            scores.push(Self::get_quality(query, items[k].label()));
            k = k + 1;
        }
        let mut ordered: Vec<InternalCompletionItem> = Vec::new();
        let mut level: i32 = 7;
        assert(ordered.deep_view() =~= levels_above(q, all, 7));
        while level >= 0
            invariant
                -1 <= level <= 7,
                all == items.deep_view(),
                scores@.len() == items@.len(),
                forall|j: int|
                    0 <= j < scores@.len() ==> (#[trigger] scores@[j]) == quality(
                        q,
                        all[j].data.label(),
                    ),
                ordered.deep_view() == levels_above(q, all, level as int),
            decreases level + 1,
        {
            let ghost above = ordered.deep_view();
            let mut i: usize = 0;
            while i < items.len()
                invariant
                    0 <= level <= 7,
                    0 <= i <= items@.len(),
                    all == items.deep_view(),
                    scores@.len() == items@.len(),
                    forall|j: int|
                        0 <= j < scores@.len() ==> (#[trigger] scores@[j]) == quality(
                            q,
                            all[j].data.label(),
                        ),
                    ordered.deep_view() == above + bucket_below(q, all, level as int, i as int),
                decreases items@.len() - i,
            {
                if scores[i] == level {
                    let copy = items[i].duplicate();
                    push_candidate(&mut ordered, copy);
                }
                i = i + 1;
                assert(ordered.deep_view() =~= above + bucket_below(
                    q,
                    all,
                    level as int,
                    i as int,
                ));
            }
            level = level - 1;
        }
        ordered
    }

    /// Scores a label against the query at the cursor.
    pub fn get_quality(query: Option<&str>, label: &str) -> (score: i32)
        ensures
            score == quality(
                match query {
                    Some(q) => Some(q@),
                    None => None,
                },
                label@,
            ),
    {
        if let Some(query) = query {
            let query_lower = str_to_lowercase(query);
            let label_lower = str_to_lowercase(label);
            score_match(query, label, query_lower.as_str(), label_lower.as_str())
        } else {
            0
        }
    }
}

} // verus!
