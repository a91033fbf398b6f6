//! Sequences filed under keys, and the part of a sequence that a choice keeps.

use vstd::prelude::*;

verus! {

/// The sequence filed under `key`, empty if there is none.
pub open spec fn list_at<K, A>(lists: Map<K, Seq<A>>, key: K) -> Seq<A> {
    if lists.contains_key(key) {
        lists[key]
    } else {
        Seq::empty()
    }
}

/// `lists` with `list` filed under `key`. An empty sequence is not filed at all.
pub open spec fn with_list<K, A>(lists: Map<K, Seq<A>>, key: K, list: Seq<A>) -> Map<K, Seq<A>> {
    if list.len() == 0 {
        lists.remove(key)
    } else {
        lists.insert(key, list)
    }
}

/// No sequence that is filed is empty.
pub open spec fn no_empty_list<K, A>(lists: Map<K, Seq<A>>) -> bool {
    forall|key: K| #[trigger] lists.contains_key(key) ==> lists[key].len() > 0
}

/// The items of `items` whose place `keep` marks, in their order.
pub open spec fn kept<A>(items: Seq<A>, keep: Seq<bool>) -> Seq<A>
    decreases items.len(),
{
    if items.len() == 0 || keep.len() == 0 {
        Seq::empty()
    } else {
        let before = kept(items.drop_last(), keep.drop_last());
        if keep.last() {
            before.push(items.last())
        } else {
            before
        }
    }
}

/// One more item is kept or left out, as its mark says.
pub proof fn lemma_kept_push<A>(items: Seq<A>, keep: Seq<bool>, item: A, mark: bool)
    requires
        items.len() == keep.len(),
    ensures
        kept(items.push(item), keep.push(mark)) == (if mark {
            kept(items, keep).push(item)
        } else {
            kept(items, keep)
        }),
{
    assert(items.push(item).drop_last() =~= items);
    assert(keep.push(mark).drop_last() =~= keep);
}

/// Everything that is kept was there, at a place that is marked.
pub proof fn lemma_kept_index<A>(items: Seq<A>, keep: Seq<bool>, at: int) -> (from: int)
    requires
        items.len() == keep.len(),
        0 <= at < kept(items, keep).len(),
    ensures
        0 <= from < items.len(),
        keep[from],
        items[from] == kept(items, keep)[at],
    decreases items.len(),
{
    let before = kept(items.drop_last(), keep.drop_last());
    if at < before.len() {
        lemma_kept_index(items.drop_last(), keep.drop_last(), at)
    } else {
        items.len() - 1
    }
}

/// Whatever is marked is kept.
pub proof fn lemma_kept_contains<A>(items: Seq<A>, keep: Seq<bool>, from: int) -> (at: int)
    requires
        items.len() == keep.len(),
        0 <= from < items.len(),
        keep[from],
    ensures
        0 <= at < kept(items, keep).len(),
        kept(items, keep)[at] == items[from],
    decreases items.len(),
{
    let before = kept(items.drop_last(), keep.drop_last());
    if from < items.len() - 1 {
        lemma_kept_contains(items.drop_last(), keep.drop_last(), from)
    } else {
        before.len() as int
    }
}

/// No more is kept than there was.
pub proof fn lemma_kept_len<A>(items: Seq<A>, keep: Seq<bool>)
    ensures
        kept(items, keep).len() <= items.len(),
    decreases items.len(),
{
    if items.len() != 0 && keep.len() != 0 {
        lemma_kept_len(items.drop_last(), keep.drop_last());
    }
}

} // verus!
