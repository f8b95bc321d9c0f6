use crate::text::str_eq;
use crate::types::RecentFile;
use vstd::prelude::*;

verus! {

/// Most projects that the list of recently opened projects holds.
pub const MAX_RECENT_FILES: usize = 10;

/// The entries of `recent` whose path is not `path`, in their order.
pub open spec fn without_path(recent: Seq<RecentFile>, path: Seq<char>) -> Seq<RecentFile>
    decreases recent.len(),
{
    if recent.len() == 0 {
        Seq::empty()
    } else if recent.last().path@ == path {
        without_path(recent.drop_last(), path)
    } else {
        without_path(recent.drop_last(), path).push(recent.last())
    }
}

/// The list after `entry` was opened: `entry` comes first, the other
/// projects follow in their order, an older entry for the same path is
/// dropped, and the list is cut to [`MAX_RECENT_FILES`] entries.
pub open spec fn with_opened(recent: Seq<RecentFile>, entry: RecentFile) -> Seq<RecentFile> {
    let all = seq![entry] + without_path(recent, entry.path@);
    if all.len() > MAX_RECENT_FILES {
        all.take(MAX_RECENT_FILES as int)
    } else {
        all
    }
}

/// The entries of `recent` that `exists` marks as there, in their order. An
/// entry without a mark counts as gone.
pub open spec fn existing(recent: Seq<RecentFile>, exists: Seq<bool>) -> Seq<RecentFile>
    decreases recent.len(),
{
    if recent.len() == 0 {
        Seq::empty()
    } else if recent.len() <= exists.len() && exists[recent.len() - 1] {
        existing(recent.drop_last(), exists).push(recent.last())
    } else {
        existing(recent.drop_last(), exists)
    }
}

/// Drops the entries for `path` from the list.
fn remove_path(recent: Vec<RecentFile>, path: &str) -> (kept: Vec<RecentFile>)
    ensures
        kept@ == without_path(recent@, path@),
{
    let mut kept = recent;
    let mut at: usize = 0;
    let ghost mut seen: int = 0;
    while at < kept.len()
        invariant
            0 <= seen <= recent@.len(),
            at <= kept@.len(),
            at == without_path(recent@.take(seen), path@).len(),
            kept@ == without_path(recent@.take(seen), path@) + recent@.skip(seen),
        decreases kept.len() - at,
    {
        proof {
            assert(kept@[at as int] == recent@[seen]);
            assert(recent@.take(seen + 1).drop_last() =~= recent@.take(seen));
            assert(recent@.take(seen + 1).last() == recent@[seen]);
            assert(recent@.skip(seen) =~= seq![recent@[seen]] + recent@.skip(seen + 1));
        }
        if str_eq(kept[at].path.as_str(), path) {
            kept.remove(at);
            proof {
                seen = seen + 1;
                assert(kept@ =~= without_path(recent@.take(seen), path@) + recent@.skip(seen));
            }
        } else {
            at += 1;
            proof {
                seen = seen + 1;
                assert(kept@ =~= without_path(recent@.take(seen), path@) + recent@.skip(seen));
            }
        }
    }
    proof {
        assert(seen == recent@.len()) by {
            assert(kept@.len() == at + recent@.skip(seen).len());
        }
        assert(recent@.take(seen) =~= recent@);
        assert(kept@ =~= without_path(recent@, path@));
    }
    kept
}

/// Puts a project that was opened at `opened_at` at the head of the list of
/// recently opened projects.
pub fn push_recent(recent: Vec<RecentFile>, path: String, name: String, opened_at: String) -> (updated:
    Vec<RecentFile>)
    ensures
        updated@ == with_opened(recent@, RecentFile { path, name, opened_at }),
        updated@.len() <= MAX_RECENT_FILES,
        updated@.len() >= 1,
        updated@[0] == (RecentFile { path, name, opened_at }),
{
    let mut updated = remove_path(recent, path.as_str());
    let entry = RecentFile { path, name, opened_at };
    updated.insert(0, entry);
    assert(updated@ =~= seq![entry] + without_path(recent@, entry.path@));
    updated.truncate(MAX_RECENT_FILES);
    updated
}

/// Keeps the projects that are still there: `exists` says of each entry, in
/// the order of the list, whether its file exists.
pub fn keep_existing(recent: Vec<RecentFile>, exists: &Vec<bool>) -> (kept: Vec<RecentFile>)
    ensures
        kept@ == existing(recent@, exists@),
{
    let total = recent.len();
    let mut kept = recent;
    let mut at: usize = 0;
    let mut seen: usize = 0;
    while at < kept.len()
        invariant
            total == recent@.len(),
            seen <= recent@.len(),
            at <= kept@.len(),
            kept@.len() == at + recent@.len() - seen,
            at == existing(recent@.take(seen as int), exists@).len(),
            kept@ == existing(recent@.take(seen as int), exists@) + recent@.skip(seen as int),
        decreases kept.len() - at,
    {
        proof {
            assert(kept@[at as int] == recent@[seen as int]);
            assert(recent@.take(seen + 1).drop_last() =~= recent@.take(seen as int));
            assert(recent@.take(seen + 1).last() == recent@[seen as int]);
            assert(recent@.skip(seen as int) =~= seq![recent@[seen as int]] + recent@.skip(seen + 1));
        }
        if seen < exists.len() && exists[seen] {
            at += 1;
        } else {
            kept.remove(at);
        }
        seen += 1;
        proof {
            assert(kept@ =~= existing(recent@.take(seen as int), exists@) + recent@.skip(seen as int));
        }
    }
    proof {
        assert(seen == recent@.len()) by {
            assert(kept@.len() == at + recent@.skip(seen as int).len());
        }
        assert(recent@.take(seen as int) =~= recent@);
        assert(kept@ =~= existing(recent@, exists@));
    }
    kept
}

/// The head of the list is the project that was opened last, and no path
/// stands in the list twice if none did before.
pub proof fn opened_project_stands_once(recent: Seq<RecentFile>, entry: RecentFile)
    ensures
        with_opened(recent, entry)[0] == entry,
        forall|i: int|
            1 <= i < with_opened(recent, entry).len() ==> (#[trigger] with_opened(
                recent,
                entry,
            )[i]).path@ != entry.path@,
{
    lemma_without_path_holds_no_such(recent, entry.path@);
    let all = seq![entry] + without_path(recent, entry.path@);
    assert forall|i: int| 1 <= i < with_opened(recent, entry).len() implies (#[trigger] with_opened(
        recent,
        entry,
    )[i]).path@ != entry.path@ by {
        assert(with_opened(recent, entry)[i] == all[i]);
        assert(all[i] == without_path(recent, entry.path@)[i - 1]);
    }
}

proof fn lemma_without_path_holds_no_such(recent: Seq<RecentFile>, path: Seq<char>)
    ensures
        forall|i: int|
            0 <= i < without_path(recent, path).len() ==> (#[trigger] without_path(
                recent,
                path,
            )[i]).path@ != path,
    decreases recent.len(),
{
    if recent.len() > 0 {
        lemma_without_path_holds_no_such(recent.drop_last(), path);
        let kept = without_path(recent, path);
        let before = without_path(recent.drop_last(), path);
        assert forall|i: int| 0 <= i < kept.len() implies (#[trigger] kept[i]).path@ != path by {
            if i < before.len() {
                assert(kept[i] == before[i]);
            }
        }
    }
}

} // verus!
