use crate::image_utils::{file_type_for_lowercase, file_type_of};
use crate::text::{lowercased, to_lowercase};
use crate::types::FileInfo;
use vstd::prelude::*;
use vstd::string::StringExecFns;

verus! {

/// How `natord::compare` orders `left` and `right`: -1 where `left` comes
/// first, 0 where neither does, and 1 where `right` comes first.
pub uninterp spec fn natural_order(left: Seq<char>, right: Seq<char>) -> int;

/// `natord::compare`: compares two file names the way a reader would, runs
/// of digits by their value. It reads both names in step and treats them
/// alike, so that with the names swapped it answers the other way round.
#[verifier::external_body]
pub(crate) fn compare_naturally(left: &str, right: &str) -> (order: i8)
    ensures
        order == natural_order(left@, right@),
        -1 <= order <= 1,
        natural_order(right@, left@) == -order,
{
    match natord::compare(left, right) {
        std::cmp::Ordering::Less => -1,
        std::cmp::Ordering::Equal => 0,
        std::cmp::Ordering::Greater => 1,
    }
}

/// What a folder listing says of a file with the given extension: the file
/// is listed, with the file type of its extension, if the extension, in
/// lower case, is one that is read.
pub open spec fn listed_file_type(extension: Seq<char>) -> Option<Seq<char>> {
    file_type_of(lowercased(extension))
}

/// The entry of a folder listing for a file, or none if files with this
/// extension are not listed.
pub fn describe_file(
    path: String,
    name: String,
    extension: &str,
    size: u64,
    modified_time: u64,
) -> (info: Option<FileInfo>)
    ensures
        match info {
            Some(info) => listed_file_type(extension@) == Some(info.file_type@) && info.path
                == path && info.name == name && info.size == size && info.modified_time
                == modified_time,
            None => listed_file_type(extension@) is None,
        },
{
    let lower = to_lowercase(extension);
    match file_type_for_lowercase(lower.as_str()) {
        Some(file_type) => Some(
            FileInfo { path, name, size, modified_time, file_type: String::from_str(file_type) },
        ),
        None => None,
    }
}

/// Whether `first` may stand directly before `second` in a listing: the
/// natural order does not put `first` after `second`.
pub open spec fn in_natural_order(first: Seq<char>, second: Seq<char>) -> bool {
    natural_order(first, second) <= 0
}

/// Whether each file of `files` may stand directly before the next.
pub open spec fn listed_in_natural_order(files: Seq<FileInfo>) -> bool {
    forall|i: int|
        0 <= i < files.len() - 1 ==> in_natural_order(
            #[trigger] files[i].name@,
            files[i + 1].name@,
        )
}

proof fn lemma_insert_to_multiset<A>(s: Seq<A>, at: int, value: A)
    requires
        0 <= at <= s.len(),
    ensures
        s.insert(at, value).to_multiset() =~= s.to_multiset().insert(value),
{
    let grown = s.insert(at, value);
    assert(grown.remove(at) =~= s);
    vstd::seq_lib::to_multiset_remove(grown, at);
    grown.to_multiset_ensures();
    assert(grown.contains(value)) by {
        assert(grown[at] == value);
    }
}

/// Whether `source` says where each file of `sorted` stood in `files`, so
/// that `sorted` holds the files of `files`, each once in place of itself,
/// and a file stands before one that came in ahead of it only where the
/// natural order puts it first.
pub open spec fn arranged_from(files: Seq<FileInfo>, sorted: Seq<FileInfo>, source: Seq<int>) -> bool {
    &&& source.len() == sorted.len()
    &&& sorted.len() == files.len()
    &&& forall|i: int|
        0 <= i < sorted.len() ==> 0 <= #[trigger] source[i] < files.len() && sorted[i]
            == files[source[i]]
    &&& forall|i: int, j: int|
        0 <= i < j < sorted.len() ==> #[trigger] source[i] != #[trigger] source[j]
    &&& forall|i: int, j: int|
        0 <= i < j < sorted.len() && #[trigger] source[i] > #[trigger] source[j] ==> natural_order(
            sorted[i].name@,
            sorted[j].name@,
        ) < 0
}

/// Sorts the files of a folder by name, in natural order. Files that the
/// order does not tell apart stay in the order they came in.
pub fn sort_by_name(files: Vec<FileInfo>) -> (sorted: Vec<FileInfo>)
    ensures
        sorted@.to_multiset() == files@.to_multiset(),
        listed_in_natural_order(sorted@),
        exists|source: Seq<int>| arranged_from(files@, sorted@, source),
{
    let total = files.len();
    let mut rest = files;
    let mut sorted: Vec<FileInfo> = Vec::new();
    let ghost mut source: Seq<int> = Seq::empty();
    proof {
        rest@.to_multiset_ensures();
        sorted@.to_multiset_ensures();
        assert(sorted@.to_multiset().add(rest@.to_multiset()) =~= files@.to_multiset());
        assert(files@.skip(0) =~= files@);
    }
    while rest.len() > 0
        invariant
            total == files@.len(),
            sorted@.to_multiset().add(rest@.to_multiset()) == files@.to_multiset(),
            listed_in_natural_order(sorted@),
            sorted@.len() + rest@.len() == files@.len(),
            rest@ == files@.skip(sorted@.len() as int),
            source.len() == sorted@.len(),
            forall|i: int|
                0 <= i < sorted@.len() ==> 0 <= #[trigger] source[i] < sorted@.len() && sorted@[i]
                    == files@[source[i]],
            forall|i: int, j: int|
                0 <= i < j < sorted@.len() ==> #[trigger] source[i] != #[trigger] source[j],
            forall|i: int, j: int|
                0 <= i < j < sorted@.len() && #[trigger] source[i] > #[trigger] source[j]
                    ==> natural_order(sorted@[i].name@, sorted@[j].name@) < 0,
        decreases rest.len(),
    {
        let ghost rest_before = rest@;
        let ghost sorted_before = sorted@;
        let ghost source_before = source;
        let ghost taken = sorted@.len() as int;
        let file = rest.remove(0);
        assert(file == files@[taken]);
        let mut at: usize = sorted.len();
        loop
            invariant
                at <= sorted.len(),
                forall|k: int|
                    at <= k < sorted@.len() ==> natural_order(
                        file.name@,
                        (#[trigger] sorted@[k]).name@,
                    ) < 0,
            ensures
                at > 0 ==> natural_order(sorted@[at - 1].name@, file.name@) <= 0,
            decreases at,
        {
            if at == 0 {
                break ;
            }
            if compare_naturally(file.name.as_str(), sorted[at - 1].name.as_str()) >= 0 {
                break ;
            }
            at -= 1;
        }
        sorted.insert(at, file);
        proof {
            source = source_before.insert(at as int, taken);
            vstd::seq_lib::to_multiset_remove(rest_before, 0);
            lemma_insert_to_multiset(sorted_before, at as int, file);
            rest_before.to_multiset_ensures();
            assert(rest_before.contains(file)) by {
                assert(rest_before[0] == file);
            }
            assert(sorted@.to_multiset().add(rest@.to_multiset()) =~= sorted_before.to_multiset().add(
                rest_before.to_multiset(),
            ));
            assert(rest@ =~= files@.skip(sorted@.len() as int));
            assert forall|i: int| 0 <= i < sorted@.len() - 1 implies in_natural_order(
                #[trigger] sorted@[i].name@,
                sorted@[i + 1].name@,
            ) by {
                if i + 1 < at {
                    assert(sorted@[i] == sorted_before[i] && sorted@[i + 1] == sorted_before[i + 1]);
                    assert(in_natural_order(sorted_before[i].name@, sorted_before[i + 1].name@));
                } else if i + 1 == at {
                    assert(sorted@[i] == sorted_before[i]);
                } else if i == at {
                    assert(sorted@[i + 1] == sorted_before[i]);
                } else {
                    assert(sorted@[i] == sorted_before[i - 1] && sorted@[i + 1] == sorted_before[i]);
                    assert(in_natural_order(sorted_before[i - 1].name@, sorted_before[i].name@));
                }
            }
            assert forall|i: int| 0 <= i < sorted@.len() implies 0 <= #[trigger] source[i]
                < sorted@.len() && sorted@[i] == files@[source[i]] by {
                if i < at {
                    assert(source[i] == source_before[i]);
                } else if i > at {
                    assert(source[i] == source_before[i - 1]);
                }
            }
            assert forall|i: int, j: int| 0 <= i < j < sorted@.len() implies #[trigger] source[i]
                != #[trigger] source[j] by {
                let from_i = if i < at { i } else { i - 1 };
                let from_j = if j < at { j } else { j - 1 };
                if i != at && j != at {
                    assert(source[i] == source_before[from_i]);
                    assert(source[j] == source_before[from_j]);
                } else if i == at {
                    assert(source[j] == source_before[from_j]);
                } else {
                    assert(source[i] == source_before[from_i]);
                }
            }
            assert forall|i: int, j: int|
                0 <= i < j < sorted@.len() && #[trigger] source[i] > #[trigger] source[j] implies natural_order(
                sorted@[i].name@,
                sorted@[j].name@,
            ) < 0 by {
                let from_i = if i < at { i } else { i - 1 };
                let from_j = if j < at { j } else { j - 1 };
                if i != at && j != at {
                    assert(source[i] == source_before[from_i]);
                    assert(source[j] == source_before[from_j]);
                    assert(sorted@[i] == sorted_before[from_i]);
                    assert(sorted@[j] == sorted_before[from_j]);
                } else if i == at {
                    assert(sorted@[j] == sorted_before[from_j]);
                } else {
                    assert(source[i] == source_before[from_i]);
                }
            }
        }
    }
    proof {
        rest@.to_multiset_ensures();
        assert(rest@.to_multiset() =~= vstd::multiset::Multiset::<FileInfo>::empty());
        assert(sorted@.to_multiset().add(rest@.to_multiset()) =~= sorted@.to_multiset());
        assert(arranged_from(files@, sorted@, source));
    }
    sorted
}

} // verus!
