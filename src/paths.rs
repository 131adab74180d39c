use vstd::prelude::*;

verus! {

/// Some entry before position `k` of `s` names the same path as entry `k`.
pub open spec fn named_earlier(s: Seq<String>, k: int) -> bool {
    exists|j: int| 0 <= j < k && s[j]@ == s[k]@
}

/// `s` with every path kept at its first occurrence only, in input order.
pub open spec fn first_occurrences(s: Seq<String>) -> Seq<String>
    decreases s.len(),
{
    if s.len() == 0 {
        s
    } else {
        let last = s.len() - 1;
        let rest = first_occurrences(s.drop_last());
        if named_earlier(s, last) {
            rest
        } else {
            rest.push(s[last])
        }
    }
}

/// Whether some entry of `all` before position `i` names the same path as
/// entry `i`.
fn seen_before(all: &Vec<String>, i: usize) -> (r: bool)
    requires
        i < all.len(),
    ensures
        r == named_earlier(all@, i as int),
{
    let mut j: usize = 0;
    while j < i
        invariant
            i < all.len(),
            j <= i,
            forall|m: int| 0 <= m < j ==> all@[m]@ != all@[i as int]@,
        decreases i - j,
    {
        if all[j] == all[i] {
            return true;
        }
        j = j + 1;
    }
    false
}

/// The path list to process: the paths read from the input stream, then those
/// given as arguments, with every repeat of a path after its first mention
/// dropped, so that no path is classified twice.
pub fn collect_paths(from_stream: Vec<String>, from_args: Vec<String>) -> (r: Vec<String>)
    ensures
        r@ == first_occurrences(from_stream@ + from_args@),
{
    let mut all = from_stream;
    let mut rest = from_args;
    all.append(&mut rest);
    let n = all.len();
    let mut r: Vec<String> = Vec::new();
    let mut i: usize = 0;
    while i < n
        invariant
            n == all.len(),
            i <= n,
            r@ == first_occurrences(all@.take(i as int)),
        decreases n - i,
    {
        proof {
            let next = all@.take(i + 1);
            assert(next.drop_last() =~= all@.take(i as int));
            assert(named_earlier(next, i as int) == named_earlier(all@, i as int)) by {
                if named_earlier(all@, i as int) {
                    let j = choose|j: int| 0 <= j < i && all@[j]@ == all@[i as int]@;
                    assert(next[j] == all@[j]);
                }
            }
        }
        if !seen_before(&all, i) {
            r.push(all[i].clone());
        }
        i = i + 1;
    }
    assert(all@.take(n as int) =~= all@);
    r
}

/// No two entries of a collected path list name the same path, and each
/// entry comes from the input.
pub proof fn lemma_collected_paths_distinct(s: Seq<String>)
    ensures
        forall|a: int, b: int|
            0 <= a < b < first_occurrences(s).len() ==> first_occurrences(s)[a]@
                != first_occurrences(s)[b]@,
        forall|x: String| first_occurrences(s).contains(x) ==> s.contains(x),
    decreases s.len(),
{
    if s.len() > 0 {
        let last = s.len() - 1;
        let init = s.drop_last();
        lemma_collected_paths_distinct(init);
        let f = first_occurrences(s);
        let g = first_occurrences(init);
        assert forall|x: String| g.contains(x) implies s.contains(x) by {
            assert(init.contains(x));
            let k = choose|k: int| 0 <= k < init.len() && init[k] == x;
            assert(s[k] == x);
        }
        if !named_earlier(s, last) {
            assert(f == g.push(s[last]));
            assert forall|a: int| 0 <= a < g.len() implies g[a]@ != s[last]@ by {
                assert(g.contains(g[a]));
                assert(init.contains(g[a]));
                let k = choose|k: int| 0 <= k < init.len() && init[k] == g[a];
                assert(s[k] == g[a]);
            }
            assert forall|x: String| f.contains(x) implies s.contains(x) by {
                let w = choose|w: int| 0 <= w < f.len() && f[w] == x;
                if w < g.len() {
                    assert(g.contains(x));
                } else {
                    assert(s[last] == x);
                }
            }
        }
    }
}

} // verus!
