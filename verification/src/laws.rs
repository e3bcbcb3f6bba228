use vstd::prelude::*;

use crate::file_checker::{
    adds_of, change_of, changes_have, changes_unique, deletes_of, eligible, eligible_pred,
    files_have, files_unique, has_name, is_update, kept_entries, lemma_filter_unique_names,
    lemma_size_at_index, missing_from, size_at, sizes_differ, step, unique_names, update_pred,
    updates_of, ListedV, Mode, ResultsV,
};
use crate::seqs::lemma_filter_members;
use crate::syncer::{drain, total_pending};

verus! {

// ---------------------------------------------------------------------------
// How each collection of a pass is characterized by the listings
// ---------------------------------------------------------------------------

/// A name is reported as an add exactly when the source carries it and the
/// destination does not.
pub proof fn lemma_adds_have(s: Seq<ListedV>, d: Seq<ListedV>, n: Seq<char>)
    ensures
        files_have(adds_of(s, d), n) <==> (has_name(s, n) && !has_name(d, n)),
{
    let kept = s.filter(missing_from(d));
    if files_have(adds_of(s, d), n) {
        let i = choose|i: int| 0 <= i < adds_of(s, d).len() && adds_of(s, d)[i].name == n;
        assert(adds_of(s, d)[i] == kept[i].file);
        lemma_filter_members(s, missing_from(d));
        assert(s.contains(kept[i]));
        let j = choose|j: int| 0 <= j < s.len() && s[j] == kept[i];
        assert(s[j].file.name == n);
        s.lemma_filter_pred(missing_from(d), i);
    }
    if has_name(s, n) && !has_name(d, n) {
        let j = choose|j: int| 0 <= j < s.len() && s[j].file.name == n;
        assert(missing_from(d)(s[j]));
        s.lemma_filter_contains(missing_from(d), j);
        let k = choose|k: int| 0 <= k < kept.len() && kept[k] == s[j];
        assert(adds_of(s, d)[k] == kept[k].file);
    }
}

/// A name is reported as a delete exactly when the destination carries it and
/// the source does not.
pub proof fn lemma_deletes_have(s: Seq<ListedV>, d: Seq<ListedV>, n: Seq<char>)
    ensures
        files_have(deletes_of(s, d), n) <==> (has_name(d, n) && !has_name(s, n)),
{
    let kept = d.filter(missing_from(s));
    if files_have(deletes_of(s, d), n) {
        let i = choose|i: int| 0 <= i < deletes_of(s, d).len() && deletes_of(s, d)[i].name == n;
        assert(deletes_of(s, d)[i] == kept[i].file);
        lemma_filter_members(d, missing_from(s));
        assert(d.contains(kept[i]));
        let j = choose|j: int| 0 <= j < d.len() && d[j] == kept[i];
        assert(d[j].file.name == n);
        d.lemma_filter_pred(missing_from(s), i);
    }
    if has_name(d, n) && !has_name(s, n) {
        let j = choose|j: int| 0 <= j < d.len() && d[j].file.name == n;
        assert(missing_from(s)(d[j]));
        d.lemma_filter_contains(missing_from(s), j);
        let k = choose|k: int| 0 <= k < kept.len() && kept[k] == d[j];
        assert(deletes_of(s, d)[k] == kept[k].file);
    }
}

/// A reported update always names a source file.
pub proof fn lemma_updates_have_source(s: Seq<ListedV>, d: Seq<ListedV>, n: Seq<char>)
    ensures
        changes_have(updates_of(s, d), n) ==> has_name(s, n),
{
    let kept = s.filter(update_pred(d));
    if changes_have(updates_of(s, d), n) {
        let i = choose|i: int|
            0 <= i < updates_of(s, d).len() && updates_of(s, d)[i].file.name == n;
        assert(updates_of(s, d)[i] == change_of(d)(kept[i]));
        assert(kept[i].file.name == n);
        lemma_filter_members(s, update_pred(d));
        assert(s.contains(kept[i]));
        let j = choose|j: int| 0 <= j < s.len() && s[j] == kept[i];
        assert(s[j].file.name == n);
    }
}

/// A name is reported as an update exactly when both sides carry it with
/// known, differing byte lengths.
pub proof fn lemma_updates_have(s: Seq<ListedV>, d: Seq<ListedV>, n: Seq<char>)
    requires
        unique_names(s),
    ensures
        changes_have(updates_of(s, d), n) <==> (has_name(s, n) && has_name(d, n) && sizes_differ(
            s,
            d,
            n,
        )),
{
    let kept = s.filter(update_pred(d));
    if changes_have(updates_of(s, d), n) {
        let i = choose|i: int|
            0 <= i < updates_of(s, d).len() && updates_of(s, d)[i].file.name == n;
        assert(updates_of(s, d)[i] == change_of(d)(kept[i]));
        assert(kept[i].file.name == n);
        lemma_filter_members(s, update_pred(d));
        assert(s.contains(kept[i]));
        let j = choose|j: int| 0 <= j < s.len() && s[j] == kept[i];
        assert(s[j].file.name == n);
        s.lemma_filter_pred(update_pred(d), i);
        assert(is_update(d, kept[i]));
        lemma_size_at_index(s, j);
        assert(size_at(s, n) == s[j].size);
    }
    if has_name(s, n) && has_name(d, n) && sizes_differ(s, d, n) {
        let j = choose|j: int| 0 <= j < s.len() && s[j].file.name == n;
        lemma_size_at_index(s, j);
        assert(s[j].size == size_at(s, n));
        assert(is_update(d, s[j]));
        s.lemma_filter_contains(update_pred(d), j);
        let k = choose|k: int| 0 <= k < kept.len() && kept[k] == s[j];
        assert(updates_of(s, d)[k] == change_of(d)(kept[k]));
        assert(updates_of(s, d)[k].file.name == n);
    }
}

pub proof fn lemma_adds_unique(s: Seq<ListedV>, d: Seq<ListedV>)
    requires
        unique_names(s),
    ensures
        files_unique(adds_of(s, d)),
{
    lemma_filter_unique_names(s, missing_from(d));
    let kept = s.filter(missing_from(d));
    assert forall|i: int, j: int| 0 <= i < j < adds_of(s, d).len() implies adds_of(s, d)[i].name
        != adds_of(s, d)[j].name by {
        assert(adds_of(s, d)[i] == kept[i].file);
        assert(adds_of(s, d)[j] == kept[j].file);
    }
}

pub proof fn lemma_deletes_unique(s: Seq<ListedV>, d: Seq<ListedV>)
    requires
        unique_names(d),
    ensures
        files_unique(deletes_of(s, d)),
{
    lemma_filter_unique_names(d, missing_from(s));
    let kept = d.filter(missing_from(s));
    assert forall|i: int, j: int| 0 <= i < j < deletes_of(s, d).len() implies deletes_of(
        s,
        d,
    )[i].name != deletes_of(s, d)[j].name by {
        assert(deletes_of(s, d)[i] == kept[i].file);
        assert(deletes_of(s, d)[j] == kept[j].file);
    }
}

pub proof fn lemma_updates_unique(s: Seq<ListedV>, d: Seq<ListedV>)
    requires
        unique_names(s),
    ensures
        changes_unique(updates_of(s, d)),
{
    lemma_filter_unique_names(s, update_pred(d));
    let kept = s.filter(update_pred(d));
    assert forall|i: int, j: int| 0 <= i < j < updates_of(s, d).len() implies updates_of(
        s,
        d,
    )[i].file.name != updates_of(s, d)[j].file.name by {
        assert(updates_of(s, d)[i] == change_of(d)(kept[i]));
        assert(updates_of(s, d)[j] == change_of(d)(kept[j]));
    }
}

/// Partition law: each filename yields exactly the action its classification
/// calls for, and appears in at most one collection, at most once. A name on
/// both sides with equal or unknown lengths yields no action; differing known
/// lengths exactly one update; a source-only name exactly one add; a
/// destination-only name exactly one delete.
pub proof fn lemma_name_partition(s: Seq<ListedV>, d: Seq<ListedV>, n: Seq<char>)
    requires
        unique_names(s),
        unique_names(d),
    ensures
        files_have(adds_of(s, d), n) <==> (has_name(s, n) && !has_name(d, n)),
        files_have(deletes_of(s, d), n) <==> (has_name(d, n) && !has_name(s, n)),
        changes_have(updates_of(s, d), n) <==> (has_name(s, n) && has_name(d, n) && sizes_differ(
            s,
            d,
            n,
        )),
        files_unique(adds_of(s, d)),
        files_unique(deletes_of(s, d)),
        changes_unique(updates_of(s, d)),
{
    lemma_adds_have(s, d, n);
    lemma_deletes_have(s, d, n);
    lemma_updates_have(s, d, n);
    lemma_adds_unique(s, d);
    lemma_deletes_unique(s, d);
    lemma_updates_unique(s, d);
}

// ---------------------------------------------------------------------------
// Filter law
// ---------------------------------------------------------------------------

/// Filter law: a filename that fails the filters, in particular any name
/// starting with a period, appears in no collection of a pass over the
/// filtered listings.
pub proof fn lemma_filter_law(
    required: Seq<Seq<char>>,
    exclude: Seq<Seq<char>>,
    s: Seq<ListedV>,
    d: Seq<ListedV>,
    n: Seq<char>,
)
    requires
        !eligible(required, exclude, n),
    ensures
        !files_have(adds_of(kept_entries(required, exclude, s), kept_entries(required, exclude, d)), n),
        !files_have(deletes_of(kept_entries(required, exclude, s), kept_entries(required, exclude, d)), n),
        !changes_have(updates_of(kept_entries(required, exclude, s), kept_entries(required, exclude, d)), n),
{
    let ks = kept_entries(required, exclude, s);
    let kd = kept_entries(required, exclude, d);
    assert forall|j: int| 0 <= j < ks.len() implies ks[j].file.name != n by {
        s.lemma_filter_pred(eligible_pred(required, exclude), j);
    }
    assert forall|j: int| 0 <= j < kd.len() implies kd[j].file.name != n by {
        d.lemma_filter_pred(eligible_pred(required, exclude), j);
    }
    assert(!has_name(ks, n));
    assert(!has_name(kd, n));
    lemma_adds_have(ks, kd, n);
    lemma_deletes_have(ks, kd, n);
    lemma_updates_have_source(ks, kd, n);
}

// ---------------------------------------------------------------------------
// Idempotence
// ---------------------------------------------------------------------------

/// The contents of a listing as a map from filename to recorded length.
pub open spec fn map_of(s: Seq<ListedV>) -> Map<Seq<char>, Option<u64>> {
    Map::new(|n: Seq<char>| has_name(s, n), |n: Seq<char>| size_at(s, n))
}

/// Every entry of the listing has a known byte length.
pub open spec fn sizes_known(s: Seq<ListedV>) -> bool {
    forall|i: int| 0 <= i < s.len() ==> s[i].size is Some
}

/// The destination contents after the executor performs every action of the
/// pass over `s` and `d` with no interference: adds and updates copy the
/// source bytes, deletes remove the file, everything else stays.
pub open spec fn applied(s: Seq<ListedV>, d: Seq<ListedV>) -> Map<Seq<char>, Option<u64>> {
    Map::new(
        |n: Seq<char>| (has_name(d, n) && !files_have(deletes_of(s, d), n)) || files_have(
            adds_of(s, d),
            n,
        ),
        |n: Seq<char>| if files_have(adds_of(s, d), n) || changes_have(updates_of(s, d), n) {
            size_at(s, n)
        } else {
            size_at(d, n)
        },
    )
}

proof fn lemma_size_known(s: Seq<ListedV>, n: Seq<char>)
    requires
        sizes_known(s),
        has_name(s, n),
    ensures
        size_at(s, n) is Some,
{
    let i = choose|i: int| 0 <= i < s.len() && s[i].file.name == n;
    assert(s[i].size is Some);
}

/// Draining every action of one pass leaves the destination holding exactly
/// the source's files at the source's lengths.
pub proof fn lemma_full_drain_syncs(s: Seq<ListedV>, d: Seq<ListedV>)
    requires
        unique_names(s),
        unique_names(d),
        sizes_known(s),
        sizes_known(d),
    ensures
        applied(s, d) == map_of(s),
{
    broadcast use vstd::set::group_set_axioms;

    assert forall|n: Seq<char>|
        ((has_name(d, n) && !files_have(deletes_of(s, d), n)) || files_have(adds_of(s, d), n))
        == #[trigger] has_name(s, n) by {
        lemma_adds_have(s, d, n);
        lemma_deletes_have(s, d, n);
    }
    assert forall|n: Seq<char>| #[trigger] has_name(s, n) implies (if files_have(adds_of(s, d), n)
        || changes_have(updates_of(s, d), n) {
        size_at(s, n)
    } else {
        size_at(d, n)
    }) == size_at(s, n) by {
        lemma_adds_have(s, d, n);
        lemma_updates_have(s, d, n);
        if has_name(d, n) {
            lemma_size_known(s, n);
            lemma_size_known(d, n);
            if !sizes_differ(s, d, n) {
                assert(size_at(s, n) == size_at(d, n));
            }
        }
    }
    assert(applied(s, d) =~= map_of(s));
}

/// Two listings with the same names and lengths leave nothing to do.
pub proof fn lemma_synced_idle(s: Seq<ListedV>, d: Seq<ListedV>)
    requires
        unique_names(s),
        map_of(s) == map_of(d),
    ensures
        adds_of(s, d).len() == 0,
        deletes_of(s, d).len() == 0,
        updates_of(s, d).len() == 0,
{
    broadcast use vstd::set::group_set_axioms;

    assert forall|n: Seq<char>| #[trigger] has_name(s, n) == has_name(d, n) by {
        assert(map_of(s).dom().contains(n) == map_of(d).dom().contains(n));
        assert(map_of(s).dom().contains(n) == has_name(s, n));
        assert(map_of(d).dom().contains(n) == has_name(d, n));
    }
    if adds_of(s, d).len() > 0 {
        let n = adds_of(s, d)[0].name;
        assert(files_have(adds_of(s, d), n));
        lemma_adds_have(s, d, n);
        assert(false);
    }
    if deletes_of(s, d).len() > 0 {
        let n = deletes_of(s, d)[0].name;
        assert(files_have(deletes_of(s, d), n));
        lemma_deletes_have(s, d, n);
        assert(false);
    }
    if updates_of(s, d).len() > 0 {
        let n = updates_of(s, d)[0].file.name;
        assert(changes_have(updates_of(s, d), n));
        lemma_updates_have(s, d, n);
        assert(has_name(s, n) && has_name(d, n));
        assert(map_of(s)[n] == map_of(d)[n]);
        assert(size_at(s, n) == size_at(d, n));
        assert(false);
    }
}

/// Idempotence: once the executor fully drains one pass and nothing else
/// touches the filesystem, a second pass over the same source and the
/// resulting destination finds nothing to do.
pub proof fn lemma_reconcile_idempotent(s: Seq<ListedV>, d: Seq<ListedV>, d2: Seq<ListedV>)
    requires
        unique_names(s),
        unique_names(d),
        unique_names(d2),
        sizes_known(s),
        sizes_known(d),
        map_of(d2) == applied(s, d),
    ensures
        adds_of(s, d2).len() == 0,
        deletes_of(s, d2).len() == 0,
        updates_of(s, d2).len() == 0,
{
    lemma_full_drain_syncs(s, d);
    lemma_synced_idle(s, d2);
}

// ---------------------------------------------------------------------------
// Executor ordering and budget
// ---------------------------------------------------------------------------

/// Updates drain before adds, adds before deletes.
pub open spec fn rank(m: Mode) -> int {
    match m {
        Mode::UPDATE => 0,
        Mode::ADD => 1,
        Mode::REMOVE => 2,
    }
}

/// The rank of the next action a result set would hand out.
pub open spec fn min_rank(r: ResultsV) -> int {
    if r.to_rewrite.len() > 0 {
        0
    } else if r.to_add.len() > 0 {
        1
    } else {
        2
    }
}

proof fn lemma_drain_min_rank(r: ResultsV, n: nat)
    ensures
        forall|k: int|
            0 <= k < drain(r, n).0.len() ==> rank(#[trigger] drain(r, n).0[k].0) >= min_rank(r),
    decreases n,
{
    if n > 0 && step(r) is Some {
        let picked = step(r)->0;
        lemma_drain_min_rank(picked.1, (n - 1) as nat);
        assert(rank(picked.0.0) == min_rank(r));
        assert(min_rank(picked.1) >= min_rank(r));
        assert forall|k: int|
            0 <= k < drain(r, n).0.len() implies rank(#[trigger] drain(r, n).0[k].0) >= min_rank(
            r,
        ) by {
            if k == 0 {
                assert(drain(r, n).0[0] == picked.0);
            } else {
                assert(drain(r, n).0[k] == drain(picked.1, (n - 1) as nat).0[k - 1]);
            }
        }
    }
}

/// Executor priority law: in any drained plan every update comes before every
/// add, and every add before every delete.
pub proof fn lemma_executor_priority(r: ResultsV, n: nat)
    ensures
        forall|i: int, j: int|
            0 <= i < j < drain(r, n).0.len() ==> rank(#[trigger] drain(r, n).0[i].0) <= rank(
                #[trigger] drain(r, n).0[j].0,
            ),
    decreases n,
{
    if n > 0 && step(r) is Some {
        let picked = step(r)->0;
        lemma_executor_priority(picked.1, (n - 1) as nat);
        lemma_drain_min_rank(picked.1, (n - 1) as nat);
        assert(rank(picked.0.0) == min_rank(r));
        assert(min_rank(picked.1) >= min_rank(r));
        assert forall|i: int, j: int| 0 <= i < j < drain(r, n).0.len() implies rank(
            #[trigger] drain(r, n).0[i].0,
        ) <= rank(#[trigger] drain(r, n).0[j].0) by {
            let tail = drain(picked.1, (n - 1) as nat).0;
            assert(drain(r, n).0[j] == tail[j - 1]);
            if i == 0 {
                assert(drain(r, n).0[0] == picked.0);
                assert(rank(tail[j - 1].0) >= min_rank(picked.1));
            } else {
                assert(drain(r, n).0[i] == tail[i - 1]);
            }
        }
    }
}

/// Operation budget law: a drain performs exactly the budgeted number of
/// actions, or every pending action when the budget exceeds them; the rest
/// stay behind.
pub proof fn lemma_drain_budget(r: ResultsV, n: nat)
    ensures
        n <= total_pending(r) ==> drain(r, n).0.len() == n,
        n > total_pending(r) ==> drain(r, n).0.len() == total_pending(r),
        total_pending(drain(r, n).1) == total_pending(r) - drain(r, n).0.len(),
    decreases n,
{
    if n > 0 {
        if step(r) is Some {
            let picked = step(r)->0;
            lemma_drain_budget(picked.1, (n - 1) as nat);
            assert(total_pending(picked.1) == total_pending(r) - 1);
        } else {
            assert(total_pending(r) == 0);
        }
    }
}

} // verus!
