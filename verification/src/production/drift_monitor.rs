//! Drift-monitor bookkeeping: bin tallies, city counts, observation
//! counts and the names of snapshot files.

use vstd::prelude::*;
use crate::production::text::{
    chars_of, extend_all, extend_range, lex_le, sort_names, sorted_names, str_eq, string_of,
    string_views,
};

verus! {

/// Number of entries of `s` equal to `k`.
pub open spec fn count_in(s: Seq<usize>, k: int) -> nat
    decreases s.len(),
{
    if s.len() == 0 {
        0
    } else {
        count_in(s.drop_last(), k) + if s.last() == k {
            1nat
        } else {
            0nat
        }
    }
}

/// A count never exceeds the length of the sequence.
pub proof fn lemma_count_in_le(s: Seq<usize>, k: int)
    ensures
        count_in(s, k) <= s.len(),
    decreases s.len(),
{
    if s.len() > 0 {
        lemma_count_in_le(s.drop_last(), k);
    }
}

/// Histogram of bin indices: entry `k` counts the indices equal to `k`;
/// indices at or beyond `n_bins` are not counted.
pub fn tally_bins(bins: &[usize], n_bins: usize) -> (counts: Vec<usize>)
    ensures
        counts.len() == n_bins,
        forall|k: int| 0 <= k < n_bins ==> #[trigger] counts@[k] == count_in(bins@, k),
{
    let mut counts: Vec<usize> = vec![0usize; n_bins];
    let mut i: usize = 0;
    while i < bins.len()
        invariant
            i <= bins.len(),
            counts.len() == n_bins,
            forall|k: int| 0 <= k < n_bins ==> #[trigger] counts@[k] == count_in(bins@.take(i as int), k),
        decreases bins.len() - i,
    {
        let b = bins[i];
        proof {
            assert(bins@.take(i + 1).drop_last() =~= bins@.take(i as int));
            lemma_count_in_le(bins@.take(i as int), b as int);
        }
        if b < n_bins {
            let c = counts[b];
            counts.set(b, c + 1);
        }
        i = i + 1;
    }
    assert(bins@.take(bins.len() as int) =~= bins@);
    counts
}

/// The distinct names among the present entries of `cities`.
pub open spec fn distinct_names(cities: Seq<Option<String>>) -> Set<Seq<char>> {
    Set::new(
        |x: Seq<char>|
            exists|i: int| 0 <= i < cities.len() && #[trigger] cities[i] is Some && cities[i]->0@ == x,
    )
}

/// The names of a prefix grow by the name of the next entry, if any.
proof fn lemma_distinct_names_step(cities: Seq<Option<String>>, i: int)
    requires
        0 <= i < cities.len(),
    ensures
        distinct_names(cities.take(i + 1)) == match cities[i] {
            Some(c) => distinct_names(cities.take(i)).insert(c@),
            None => distinct_names(cities.take(i)),
        },
{
    let a = distinct_names(cities.take(i));
    let b = distinct_names(cities.take(i + 1));
    let t0 = cities.take(i);
    let t1 = cities.take(i + 1);
    assert forall|k: int| 0 <= k < i implies t1[k] == t0[k] by {}
    assert(t1[i] == cities[i]);
    let rhs = match cities[i] {
        Some(c) => a.insert(c@),
        None => a,
    };
    assert forall|x: Seq<char>| b.contains(x) implies rhs.contains(x) by {
        let k = choose|k: int| 0 <= k < t1.len() && #[trigger] t1[k] is Some && t1[k]->0@ == x;
        if k < i {
            assert(t0[k] is Some && t0[k]->0@ == x);
            assert(a.contains(x));
        }
    }
    assert forall|x: Seq<char>| rhs.contains(x) implies b.contains(x) by {
        if a.contains(x) {
            let k = choose|k: int| 0 <= k < t0.len() && #[trigger] t0[k] is Some && t0[k]->0@ == x;
            assert(t1[k] is Some && t1[k]->0@ == x);
        } else {
            assert(t1[i] is Some && t1[i]->0@ == x);
        }
    }
    assert(b =~= rhs);
}

/// Number of distinct city names in a column (absent entries skipped).
pub fn count_distinct_cities(cities: &[Option<String>]) -> (n: usize)
    ensures
        n == distinct_names(cities@).len(),
{
    let mut seen: Vec<String> = Vec::new();
    let mut i: usize = 0;
    assert(distinct_names(cities@.take(0)) =~= Set::<Seq<char>>::empty());
    assert(string_views(seen@).to_set() =~= Set::<Seq<char>>::empty());
    while i < cities.len()
        invariant
            i <= cities.len(),
            seen.len() <= i,
            string_views(seen@).no_duplicates(),
            string_views(seen@).to_set() == distinct_names(cities@.take(i as int)),
        decreases cities.len() - i,
    {
        let ghost before = string_views(seen@);
        proof {
            lemma_distinct_names_step(cities@, i as int);
        }
        match &cities[i] {
            Some(c) => {
                let mut found = false;
                let mut j: usize = 0;
                while j < seen.len()
                    invariant
                        j <= seen.len(),
                        before == string_views(seen@),
                        found ==> before.contains(c@),
                        !found ==> forall|k: int| 0 <= k < j ==> before[k] != c@,
                    decreases seen.len() - j,
                {
                    if seen[j] == *c {
                        found = true;
                        assert(before[j as int] == c@);
                    }
                    j = j + 1;
                }
                if !found {
                    seen.push(c.clone());
                    let ghost after = string_views(seen@);
                    assert(after =~= before.push(c@));
                    assert forall|x: Seq<char>| after.contains(x) <==> (before.contains(x) || x == c@) by {
                        if after.contains(x) {
                            let k = choose|k: int| 0 <= k < after.len() && after[k] == x;
                            if k < before.len() {
                                assert(before[k] == x);
                            }
                        }
                        if before.contains(x) {
                            let k = choose|k: int| 0 <= k < before.len() && before[k] == x;
                            assert(after[k] == x);
                        }
                        if x == c@ {
                            assert(after[before.len() as int] == x);
                        }
                    }
                    assert(after.to_set() =~= before.to_set().insert(c@));
                } else {
                    assert(before.to_set().insert(c@) =~= before.to_set());
                }
            },
            None => {},
        }
        i = i + 1;
    }
    assert(cities@.take(cities.len() as int) =~= cities@);
    proof {
        string_views(seen@).unique_seq_to_set();
    }
    seen.len()
}

/// Largest value of `s`, or 0 when `s` is empty.
pub open spec fn max_or_zero(s: Seq<usize>) -> nat
    decreases s.len(),
{
    if s.len() == 0 {
        0
    } else {
        let m = max_or_zero(s.drop_last());
        if s.last() > m {
            s.last() as nat
        } else {
            m
        }
    }
}

/// Largest observation count among the monitored features, or 0.
pub fn max_observations(counts: &[usize]) -> (m: usize)
    ensures
        m == max_or_zero(counts@),
{
    let mut m: usize = 0;
    let mut i: usize = 0;
    while i < counts.len()
        invariant
            i <= counts.len(),
            m == max_or_zero(counts@.take(i as int)),
        decreases counts.len() - i,
    {
        assert(counts@.take(i + 1).drop_last() =~= counts@.take(i as int));
        if counts[i] > m {
            m = counts[i];
        }
        i = i + 1;
    }
    assert(counts@.take(counts.len() as int) =~= counts@);
    m
}

/// File stem of a snapshot: the first 13 characters of its ISO-8601
/// timestamp (`"YYYY-MM-DDTHH"`) followed by `'Z'`.
pub open spec fn hour_stamp(iso: Seq<char>) -> Seq<char> {
    (if iso.len() <= 13 {
        iso
    } else {
        iso.subrange(0, 13)
    }) + seq!['Z']
}

/// Hour-stamped file stem of an ISO-8601 timestamp.
pub fn hour_stamp_from_iso(iso: &str) -> (stem: String)
    ensures
        stem@ == hour_stamp(iso@),
{
    let t = chars_of(iso);
    let mut out: Vec<char> = Vec::new();
    if t.len() <= 13 {
        extend_all(&mut out, &t);
    } else {
        extend_range(&mut out, &t, 0, 13);
    }
    out.push('Z');
    string_of(&out)
}

/// The name ends in `".json"`.
pub open spec fn has_json_suffix(n: Seq<char>) -> bool {
    n.len() >= 5 && n.subrange(n.len() - 5, n.len() as int) == seq!['.', 'j', 's', 'o', 'n']
}

/// A history file listed in the index: a JSON file other than the
/// `latest.json` and `index.json` bookkeeping files.
pub open spec fn indexed_snapshot(n: Seq<char>) -> bool {
    has_json_suffix(n) && n != "latest.json"@ && n != "index.json"@
}

/// A history snapshot: a file whose extension is `json` (the name ends
/// in `".json"` and something stands before that suffix), other than the
/// `latest.json` and `index.json` bookkeeping files.
pub open spec fn history_snapshot(n: Seq<char>) -> bool {
    has_json_suffix(n) && n.len() > 5 && n != "latest.json"@ && n != "index.json"@
}

/// Which snapshot names a listing keeps (`index_mode` selects the index
/// rule, otherwise the history rule).
pub open spec fn kept_name(n: Seq<char>, index_mode: bool) -> bool {
    if index_mode {
        indexed_snapshot(n)
    } else {
        history_snapshot(n)
    }
}

/// Whether the name ends in `".json"`.
fn is_json_name(name: &str) -> (r: bool)
    ensures
        r == has_json_suffix(name@),
{
    let c = chars_of(name);
    let n = c.len();
    if n < 5 {
        return false;
    }
    let r = c[n - 5] == '.' && c[n - 4] == 'j' && c[n - 3] == 's' && c[n - 2] == 'o' && c[n - 1]
        == 'n';
    proof {
        let t = c@.subrange(n - 5, n as int);
        if r {
            assert(t =~= seq!['.', 'j', 's', 'o', 'n']);
        } else {
            if t == seq!['.', 'j', 's', 'o', 'n'] {
                assert(t[0] == c@[n - 5] && t[1] == c@[n - 4] && t[2] == c@[n - 3]);
                assert(t[3] == c@[n - 2] && t[4] == c@[n - 1]);
            }
        }
    }
    r
}

/// The names that a snapshot listing keeps, in their given order.
fn keep_snapshot_names(names: &Vec<String>, index_mode: bool) -> (kept: Vec<String>)
    ensures
        string_views(kept@) == string_views(names@).filter(|n: Seq<char>| kept_name(n, index_mode)),
{
    let ghost pred = |n: Seq<char>| kept_name(n, index_mode);
    let mut kept: Vec<String> = Vec::new();
    let mut i: usize = 0;
    proof {
        reveal(Seq::filter);
        assert(string_views(names@).take(0) =~= Seq::<Seq<char>>::empty());
        assert(string_views(kept@) =~= Seq::<Seq<char>>::empty());
    }
    while i < names.len()
        invariant
            i <= names.len(),
            pred == (|n: Seq<char>| kept_name(n, index_mode)),
            string_views(kept@) == string_views(names@).take(i as int).filter(pred),
        decreases names.len() - i,
    {
        let name = &names[i];
        let ghost before = string_views(kept@);
        let json = is_json_name(name.as_str());
        let keep = if index_mode {
            json && !str_eq(name.as_str(), "latest.json") && !str_eq(name.as_str(), "index.json")
        } else {
            json && name.as_str().unicode_len() > 5 && !str_eq(name.as_str(), "latest.json")
                && !str_eq(name.as_str(), "index.json")
        };
        proof {
            let t = string_views(names@).take(i as int);
            assert(string_views(names@).take(i + 1) =~= t.push(name@));
            t.lemma_filter_push(name@, pred);
        }
        if keep {
            kept.push(name.clone());
            assert(string_views(kept@) =~= before.push(name@));
        } else {
            assert(string_views(kept@) =~= before);
        }
        i = i + 1;
    }
    assert(string_views(names@).take(names.len() as int) =~= string_views(names@));
    kept
}

/// The history files to list in the index: every JSON name except the
/// `latest.json` and `index.json` bookkeeping files, in sorted order.
pub fn history_index_files(names: &Vec<String>) -> (files: Vec<String>)
    ensures
        sorted_names(string_views(files@)),
        string_views(files@).to_multiset() == string_views(names@).filter(
            |n: Seq<char>| indexed_snapshot(n),
        ).to_multiset(),
{
    let kept = keep_snapshot_names(names, true);
    assert(string_views(names@).filter(|n: Seq<char>| kept_name(n, true)) =~= string_views(
        names@,
    ).filter(|n: Seq<char>| indexed_snapshot(n))) by {
        assert((|n: Seq<char>| kept_name(n, true)) =~= (|n: Seq<char>| indexed_snapshot(n)));
    }
    sort_names(&kept)
}

/// The names of the last `n_days` history snapshots: the names with a
/// `json` extension other than `latest.json` and `index.json`, sorted, of
/// which the last `n_days` (all, when fewer) are kept, oldest first.
pub fn recent_history_files(names: &Vec<String>, n_days: usize) -> (recent: Vec<String>)
    ensures
        exists|all: Seq<Seq<char>>|
            {
                &&& sorted_names(all)
                &&& all.to_multiset() == string_views(names@).filter(
                    |n: Seq<char>| history_snapshot(n),
                ).to_multiset()
                &&& string_views(recent@) == all.subrange(
                    all.len() - (if n_days < all.len() {
                        n_days as int
                    } else {
                        all.len() as int
                    }),
                    all.len() as int,
                )
            },
{
    let kept = keep_snapshot_names(names, false);
    assert(string_views(names@).filter(|n: Seq<char>| kept_name(n, false)) =~= string_views(
        names@,
    ).filter(|n: Seq<char>| history_snapshot(n))) by {
        assert((|n: Seq<char>| kept_name(n, false)) =~= (|n: Seq<char>| history_snapshot(n)));
    }
    let files = sort_names(&kept);
    let ghost all = string_views(files@);
    let start = files.len() - if n_days < files.len() {
        n_days
    } else {
        files.len()
    };
    let mut recent: Vec<String> = Vec::new();
    let mut i: usize = start;
    while i < files.len()
        invariant
            start <= i <= files.len(),
            all == string_views(files@),
            string_views(recent@) == all.subrange(start as int, i as int),
        decreases files.len() - i,
    {
        let ghost before = string_views(recent@);
        recent.push(files[i].clone());
        assert(all[i as int] == files@[i as int]@);
        assert(string_views(recent@) =~= before.push(all[i as int]));
        assert(string_views(recent@) =~= all.subrange(start as int, i + 1));
        i = i + 1;
    }
    assert(all.len() == files.len());
    recent
}

/// Each entry counts for its own value: appending `v` adds one to the
/// count of `v` and leaves every other count unchanged.
pub proof fn lemma_count_in_push(s: Seq<usize>, v: usize, k: int)
    ensures
        k == v ==> count_in(s.push(v), k) == count_in(s, k) + 1,
        k != v ==> count_in(s.push(v), k) == count_in(s, k),
{
    assert(s.push(v).drop_last() =~= s);
}

/// The largest value is at least every entry, and is one of the entries
/// when there are any.
pub proof fn lemma_max_or_zero(s: Seq<usize>)
    ensures
        forall|i: int| 0 <= i < s.len() ==> s[i] <= max_or_zero(s),
        s.len() > 0 ==> exists|i: int| 0 <= i < s.len() && s[i] == max_or_zero(s),
    decreases s.len(),
{
    if s.len() > 0 {
        let init = s.drop_last();
        lemma_max_or_zero(init);
        assert forall|i: int| 0 <= i < s.len() implies s[i] <= max_or_zero(s) by {
            if i < init.len() {
                assert(s[i] == init[i]);
            }
        }
        if s.last() > max_or_zero(init) {
            assert(s[s.len() - 1] == max_or_zero(s));
        } else if init.len() > 0 {
            let j = choose|j: int| 0 <= j < init.len() && init[j] == max_or_zero(init);
            assert(s[j] == init[j]);
        } else {
            assert(s[0] == s.last());
        }
    }
}

} // verus!
