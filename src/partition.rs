use std::collections::HashSet;
use vstd::prelude::*;

use crate::error::Error;
use crate::fingerprint::digest;

verus! {

broadcast use vstd::std_specs::hash::group_hash_axioms;

/// Position `i` of `fps` holds the first occurrence of its fingerprint.
pub open spec fn first_seen(fps: Seq<u64>, i: int) -> bool {
    forall|j: int| 0 <= j < i ==> fps[j] != fps[i]
}

/// The paths whose fingerprint occurs for the first time, in input order.
pub open spec fn uniques(paths: Seq<String>, fps: Seq<u64>) -> Seq<String>
    decreases paths.len(),
{
    if paths.len() == 0 {
        Seq::empty()
    } else {
        let last = paths.len() - 1;
        let rest = uniques(paths.drop_last(), fps);
        if first_seen(fps, last) {
            rest.push(paths[last])
        } else {
            rest
        }
    }
}

/// The paths whose fingerprint was already seen earlier, in input order.
pub open spec fn duplicates(paths: Seq<String>, fps: Seq<u64>) -> Seq<String>
    decreases paths.len(),
{
    if paths.len() == 0 {
        Seq::empty()
    } else {
        let last = paths.len() - 1;
        let rest = duplicates(paths.drop_last(), fps);
        if first_seen(fps, last) {
            rest
        } else {
            rest.push(paths[last])
        }
    }
}

/// Every path lands in exactly one of the two lists.
pub proof fn lemma_counts_add_up(paths: Seq<String>, fps: Seq<u64>)
    ensures
        uniques(paths, fps).len() + duplicates(paths, fps).len() == paths.len(),
    decreases paths.len(),
{
    if paths.len() > 0 {
        lemma_counts_add_up(paths.drop_last(), fps);
    }
}

/// Where each path lands: a path that is the first to carry its fingerprint is
/// among the uniques, any other among the duplicates, and nothing else is in
/// either list.
pub proof fn lemma_membership(paths: Seq<String>, fps: Seq<u64>)
    requires
        paths.len() <= fps.len(),
    ensures
        forall|k: int|
            0 <= k < paths.len() && first_seen(fps, k) ==> uniques(paths, fps).contains(
                #[trigger] paths[k],
            ),
        forall|k: int|
            0 <= k < paths.len() && !first_seen(fps, k) ==> duplicates(paths, fps).contains(
                #[trigger] paths[k],
            ),
        forall|x: String|
            uniques(paths, fps).contains(x) ==> exists|k: int|
                0 <= k < paths.len() && paths[k] == x && first_seen(fps, k),
        forall|x: String|
            duplicates(paths, fps).contains(x) ==> exists|k: int|
                0 <= k < paths.len() && paths[k] == x && !first_seen(fps, k),
    decreases paths.len(),
{
    if paths.len() > 0 {
        let last = paths.len() - 1;
        let init = paths.drop_last();
        lemma_membership(init, fps);
        assert forall|k: int| 0 <= k < last implies #[trigger] paths[k] == init[k] by {}
        let u = uniques(paths, fps);
        let d = duplicates(paths, fps);
        assert forall|k: int| 0 <= k < paths.len() && first_seen(fps, k) implies u.contains(
            #[trigger] paths[k],
        ) by {
            if k < last {
                assert(uniques(init, fps).contains(init[k]));
                let w = choose|w: int| 0 <= w < uniques(init, fps).len() && uniques(init, fps)[w] == init[k];
                assert(u[w] == paths[k]);
            } else {
                assert(u.last() == paths[k]);
            }
        }
        assert forall|k: int| 0 <= k < paths.len() && !first_seen(fps, k) implies d.contains(
            #[trigger] paths[k],
        ) by {
            if k < last {
                assert(duplicates(init, fps).contains(init[k]));
                let w = choose|w: int| 0 <= w < duplicates(init, fps).len() && duplicates(init, fps)[w] == init[k];
                assert(d[w] == paths[k]);
            } else {
                assert(d.last() == paths[k]);
            }
        }
        assert forall|x: String| u.contains(x) implies exists|k: int|
            0 <= k < paths.len() && paths[k] == x && first_seen(fps, k) by {
            let w = choose|w: int| 0 <= w < u.len() && u[w] == x;
            if w < uniques(init, fps).len() {
                assert(uniques(init, fps).contains(x));
                let k = choose|k: int| 0 <= k < init.len() && init[k] == x && first_seen(fps, k);
                assert(paths[k] == x);
            } else {
                assert(paths[last] == x);
            }
        }
        assert forall|x: String| d.contains(x) implies exists|k: int|
            0 <= k < paths.len() && paths[k] == x && !first_seen(fps, k) by {
            let w = choose|w: int| 0 <= w < d.len() && d[w] == x;
            if w < duplicates(init, fps).len() {
                assert(duplicates(init, fps).contains(x));
                let k = choose|k: int| 0 <= k < init.len() && init[k] == x && !first_seen(fps, k);
                assert(paths[k] == x);
            } else {
                assert(paths[last] == x);
            }
        }
    }
}

/// The fingerprints of a list of file contents, position by position.
pub open spec fn digests(contents: Seq<Seq<u8>>) -> Seq<u64> {
    contents.map_values(|c: Seq<u8>| digest(c))
}

/// Of two distinct paths with identical content, where no earlier path shares
/// their fingerprint, the earlier one is unique and the later one a duplicate.
pub proof fn lemma_identical_contents(paths: Seq<String>, contents: Seq<Seq<u8>>, i: int, j: int)
    requires
        paths.no_duplicates(),
        paths.len() == contents.len(),
        0 <= i < j < paths.len(),
        contents[i] == contents[j],
        first_seen(digests(contents), i),
    ensures
        uniques(paths, digests(contents)).contains(paths[i]),
        !duplicates(paths, digests(contents)).contains(paths[i]),
        duplicates(paths, digests(contents)).contains(paths[j]),
        !uniques(paths, digests(contents)).contains(paths[j]),
{
    let fps = digests(contents);
    lemma_membership(paths, fps);
    assert(fps[i] == fps[j]);
    assert(!first_seen(fps, j));
}

/// Where all contents, and their fingerprints, are pairwise distinct, every
/// path is unique, in input order, and there are no duplicates.
pub proof fn lemma_distinct_contents(paths: Seq<String>, contents: Seq<Seq<u8>>)
    requires
        paths.len() == contents.len(),
        forall|i: int, j: int|
            0 <= i < j < contents.len() ==> contents[i] != contents[j] && digest(contents[i])
                != digest(contents[j]),
    ensures
        uniques(paths, digests(contents)) == paths,
        duplicates(paths, digests(contents)) == Seq::<String>::empty(),
    decreases paths.len(),
{
    if paths.len() > 0 {
        let last = paths.len() - 1;
        lemma_distinct_contents(paths.drop_last(), contents.drop_last());
        let fps = digests(contents);
        assert(digests(contents.drop_last()) =~= fps.drop_last());
        lemma_prefix_classification(paths.drop_last(), fps.drop_last(), fps);
        assert(first_seen(fps, last));
        assert(paths.drop_last().push(paths[last]) =~= paths);
    }
}

/// Only the fingerprints up to a path's own position decide where it lands.
proof fn lemma_prefix_classification(paths: Seq<String>, short: Seq<u64>, fps: Seq<u64>)
    requires
        paths.len() <= short.len() <= fps.len(),
        short == fps.take(short.len() as int),
    ensures
        uniques(paths, short) == uniques(paths, fps),
        duplicates(paths, short) == duplicates(paths, fps),
    decreases paths.len(),
{
    if paths.len() > 0 {
        let last = paths.len() - 1;
        lemma_prefix_classification(paths.drop_last(), short, fps);
        assert forall|j: int| 0 <= j < short.len() implies #[trigger] short[j] == fps[j] by {}
        if first_seen(fps, last) {
            assert forall|j: int| 0 <= j < last implies short[j] != short[last] by {
                assert(fps[j] != fps[last]);
            }
        }
        if first_seen(short, last) {
            assert forall|j: int| 0 <= j < last implies fps[j] != fps[last] by {
                assert(short[j] != short[last]);
            }
        }
    }
}

/// Two runs over the same paths and unchanged files classify them alike.
pub proof fn lemma_repeatable(
    paths: Seq<String>,
    contents: Seq<Seq<u8>>,
    first: Seq<Result<u64, String>>,
    second: Seq<Result<u64, String>>,
)
    requires
        first.len() == contents.len(),
        second.len() == contents.len(),
        forall|i: int| 0 <= i < contents.len() ==> first[i] == Ok::<u64, String>(digest(contents[i])),
        forall|i: int| 0 <= i < contents.len() ==> second[i] == Ok::<u64, String>(digest(contents[i])),
    ensures
        uniques(paths, fingerprints_of(first)) == uniques(paths, fingerprints_of(second)),
        duplicates(paths, fingerprints_of(first)) == duplicates(paths, fingerprints_of(second)),
{
    assert(fingerprints_of(first) =~= fingerprints_of(second));
}

/// Splits `paths` into those that are the first to carry their fingerprint
/// and those whose fingerprint an earlier path already carried.
pub fn partition(paths: Vec<String>, fingerprints: Vec<u64>) -> (r: (Vec<String>, Vec<String>))
    requires
        paths.len() == fingerprints.len(),
    ensures
        r.0@ == uniques(paths@, fingerprints@),
        r.1@ == duplicates(paths@, fingerprints@),
        r.0.len() + r.1.len() == paths.len(),
{
    let n = paths.len();
    let mut seen: HashSet<u64> = HashSet::new();
    let mut unique: Vec<String> = Vec::new();
    let mut duplicate: Vec<String> = Vec::new();
    let mut i: usize = 0;
    while i < n
        invariant
            n == paths.len(),
            n == fingerprints.len(),
            i <= n,
            forall|k: u64|
                seen@.contains(k) <==> exists|j: int| 0 <= j < i && fingerprints@[j] == k,
            unique@ == uniques(paths@.take(i as int), fingerprints@),
            duplicate@ == duplicates(paths@.take(i as int), fingerprints@),
        decreases n - i,
    {
        let fp = fingerprints[i];
        let path = paths[i].clone();
        proof {
            let next = paths@.take(i + 1);
            assert(next.drop_last() =~= paths@.take(i as int));
            assert(next[i as int] == paths@[i as int]);
            assert(first_seen(fingerprints@, i as int) <==> !seen@.contains(fp));
        }
        if seen.insert(fp) {
            unique.push(path);
        } else {
            duplicate.push(path);
        }
        i = i + 1;
    }
    proof {
        assert(paths@.take(n as int) =~= paths@);
        lemma_counts_add_up(paths@, fingerprints@);
    }
    (unique, duplicate)
}

/// The fingerprints that successful outcomes carry.
pub open spec fn fingerprints_of(outcomes: Seq<Result<u64, String>>) -> Seq<u64> {
    outcomes.map_values(
        |o: Result<u64, String>|
            match o {
                Ok(fp) => fp,
                Err(_) => 0,
            },
    )
}

/// Every outcome is a fingerprint.
pub open spec fn all_succeeded(outcomes: Seq<Result<u64, String>>) -> bool {
    forall|i: int| 0 <= i < outcomes.len() ==> (#[trigger] outcomes[i]) is Ok
}

/// Position `i` holds the first failed outcome.
pub open spec fn first_failure(outcomes: Seq<Result<u64, String>>, i: int) -> bool {
    &&& 0 <= i < outcomes.len()
    &&& outcomes[i] is Err
    &&& forall|j: int| 0 <= j < i ==> (#[trigger] outcomes[j]) is Ok
}

/// Classifies `paths` from the outcome of fingerprinting each of them: the
/// outcome at a position belongs to the path at the same position, and is its
/// fingerprint or the reason reading it failed. All or nothing: if any file
/// failed, the first failure in path order is returned, naming its path, and
/// no classification is produced.
pub fn process_files(paths: Vec<String>, outcomes: Vec<Result<u64, String>>) -> (r: Result<
    (Vec<String>, Vec<String>),
    Error,
>)
    requires
        paths.len() == outcomes.len(),
    ensures
        r is Ok <==> all_succeeded(outcomes@),
        r matches Ok((unique, duplicate)) ==> {
            &&& unique@ == uniques(paths@, fingerprints_of(outcomes@))
            &&& duplicate@ == duplicates(paths@, fingerprints_of(outcomes@))
            &&& unique.len() + duplicate.len() == paths.len()
        },
        r matches Err(e) ==> exists|i: int|
            {
                &&& first_failure(outcomes@, i)
                &&& outcomes@[i] == Err::<u64, String>(e.reason)
                &&& e.path == Some(paths@[i])
            },
{
    let n = outcomes.len();
    let mut fingerprints: Vec<u64> = Vec::new();
    let mut i: usize = 0;
    while i < n
        invariant
            n == outcomes.len(),
            n == paths.len(),
            i <= n,
            forall|j: int| 0 <= j < i ==> (#[trigger] outcomes@[j]) is Ok,
            fingerprints@ == fingerprints_of(outcomes@).take(i as int),
        decreases n - i,
    {
        match &outcomes[i] {
            Ok(fp) => {
                fingerprints.push(*fp);
                proof {
                    assert(fingerprints@ =~= fingerprints_of(outcomes@).take(i + 1));
                }
            },
            Err(_) => {
                let mut outcomes = outcomes;
                let reason = outcomes.remove(i).err().unwrap();
                return Err(Error::for_path(paths[i].clone(), reason));
            },
        }
        i = i + 1;
    }
    proof {
        assert(fingerprints@ =~= fingerprints_of(outcomes@));
    }
    Ok(partition(paths, fingerprints))
}

} // verus!
