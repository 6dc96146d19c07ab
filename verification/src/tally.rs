//! Counting how often each key occurs, and ranking the counts.

use vstd::prelude::*;

verus! {

/// A key and how often it occurs.
pub type Count = (Seq<char>, nat);

/// The position of `k` among the keys of a tally, if present.
pub open spec fn key_index(t: Seq<Count>, k: Seq<char>) -> Option<int>
    decreases t.len(),
{
    if t.len() == 0 {
        None
    } else if t.last().0 == k {
        Some(t.len() - 1)
    } else {
        key_index(t.drop_last(), k)
    }
}

/// A tally with one more occurrence of `k`: its count goes up, or it is added
/// at the end with a count of one.
pub open spec fn add_key(t: Seq<Count>, k: Seq<char>) -> Seq<Count> {
    match key_index(t, k) {
        Some(j) => t.update(j, (k, t[j].1 + 1)),
        None => t.push((k, 1)),
    }
}

/// How often each key occurs, keys in the order they first occur.
pub open spec fn spec_tally(keys: Seq<Seq<char>>) -> Seq<Count>
    decreases keys.len(),
{
    if keys.len() == 0 {
        seq![]
    } else {
        add_key(spec_tally(keys.drop_last()), keys.last())
    }
}

/// `e` placed before the first entry of `s` with a smaller count.
pub open spec fn insert_desc(s: Seq<Count>, e: Count) -> Seq<Count>
    decreases s.len(),
{
    if s.len() == 0 {
        seq![e]
    } else if s[0].1 < e.1 {
        seq![e] + s
    } else {
        seq![s[0]] + insert_desc(s.drop_first(), e)
    }
}

/// The entries by decreasing count; entries with equal counts keep their
/// order.
pub open spec fn rank_desc(t: Seq<Count>) -> Seq<Count>
    decreases t.len(),
{
    if t.len() == 0 {
        seq![]
    } else {
        insert_desc(rank_desc(t.drop_last()), t.last())
    }
}

/// The total of the counts.
pub open spec fn total(t: Seq<Count>) -> nat
    decreases t.len(),
{
    if t.len() == 0 {
        0
    } else {
        total(t.drop_last()) + t.last().1
    }
}

/// The counts decrease along the sequence.
pub open spec fn is_desc(t: Seq<Count>) -> bool {
    forall|i: int, j: int| 0 <= i < j < t.len() ==> t[i].1 >= t[j].1
}

/// The entries of a tally as executable values.
pub open spec fn count_views(v: Seq<(String, usize)>) -> Seq<Count> {
    v.map_values(|e: (String, usize)| (e.0@, e.1 as nat))
}

proof fn lemma_key_index(t: Seq<Count>, k: Seq<char>)
    ensures
        key_index(t, k) matches Some(j) ==> 0 <= j < t.len() && t[j].0 == k,
        key_index(t, k) is None ==> forall|j: int| 0 <= j < t.len() ==> t[j].0 != k,
    decreases t.len(),
{
    if t.len() > 0 && t.last().0 != k {
        lemma_key_index(t.drop_last(), k);
        assert forall|j: int| 0 <= j < t.len() - 1 implies t[j] == t.drop_last()[j] by {}
    }
}

proof fn lemma_key_index_first(t: Seq<Count>, k: Seq<char>, j: int)
    requires
        0 <= j < t.len(),
        t[j].0 == k,
        forall|a: int, b: int| 0 <= a < b < t.len() ==> t[a].0 != t[b].0,
    ensures
        key_index(t, k) == Some(j),
    decreases t.len(),
{
    if t.last().0 != k {
        lemma_key_index_first(t.drop_last(), k, j);
    }
}

/// Adding a key adds one to the total.
pub proof fn lemma_add_key_total(t: Seq<Count>, k: Seq<char>)
    ensures
        total(add_key(t, k)) == total(t) + 1,
    decreases t.len(),
{
    lemma_key_index(t, k);
    match key_index(t, k) {
        Some(j) => {
            if j == t.len() - 1 {
                assert(add_key(t, k).drop_last() == t.drop_last());
            } else {
                lemma_add_key_total(t.drop_last(), k);
                assert(add_key(t, k).drop_last() == add_key(t.drop_last(), k));
            }
        },
        None => {
            assert(add_key(t, k).drop_last() == t);
        },
    }
}

/// The counts of a tally add up to the number of keys.
pub proof fn lemma_tally_total(keys: Seq<Seq<char>>)
    ensures
        total(spec_tally(keys)) == keys.len(),
    decreases keys.len(),
{
    if keys.len() > 0 {
        lemma_tally_total(keys.drop_last());
        lemma_add_key_total(spec_tally(keys.drop_last()), keys.last());
    }
}


/// The string views of a list of strings.
pub open spec fn key_views(v: Seq<String>) -> Seq<Seq<char>> {
    v.map_values(|s: String| s@)
}

fn find_key(t: &Vec<(String, usize)>, k: &String) -> (res: Option<usize>)
    ensures
        match res {
            Some(j) => key_index(count_views(t@), k@) == Some(j as int),
            None => key_index(count_views(t@), k@) is None,
        },
{
    let ghost tv = count_views(t@);
    let mut j: usize = t.len();
    assert(tv.take(j as int) == tv);
    while j > 0
        invariant
            j <= t.len(),
            tv == count_views(t@),
            key_index(tv, k@) == key_index(tv.take(j as int), k@),
        decreases j,
    {
        assert(tv.take(j as int).last() == tv[j - 1]);
        assert(tv.take(j as int).drop_last() == tv.take(j - 1));
        if t[j - 1].0.eq(k) {
            return Some(j - 1);
        }
        j = j - 1;
    }
    None
}

/// Counts how often each key occurs, keys in the order they first occur.
pub fn tally(keys: &[String]) -> (res: Vec<(String, usize)>)
    ensures
        count_views(res@) == spec_tally(key_views(keys@)),
{
    let ghost kv = key_views(keys@);
    let mut t: Vec<(String, usize)> = Vec::new();
    let mut i: usize = 0;
    assert(count_views(t@) =~= spec_tally(kv.take(0)));
    while i < keys.len()
        invariant
            i <= keys.len(),
            kv == key_views(keys@),
            count_views(t@) == spec_tally(kv.take(i as int)),
            forall|j: int| 0 <= j < t@.len() ==> t@[j].1 <= i,
        decreases keys.len() - i,
    {
        let ghost tv = count_views(t@);
        assert(kv.take(i + 1).drop_last() == kv.take(i as int));
        assert(kv.take(i + 1).last() == keys@[i as int]@);
        let k = &keys[i];
        proof {
            lemma_key_index(tv, k@);
        }
        match find_key(&t, k) {
            Some(j) => {
                let c = t[j].1;
                let key = t[j].0.clone();
                t.set(j, (key, c + 1));
                assert(count_views(t@) =~= tv.update(j as int, (k@, tv[j as int].1 + 1)));
            },
            None => {
                t.push((k.clone(), 1));
                assert(count_views(t@) =~= tv.push((k@, 1)));
            },
        }
        i = i + 1;
    }
    assert(kv.take(keys.len() as int) == kv);
    t
}

proof fn lemma_insert_desc_split(s: Seq<Count>, e: Count, p: int)
    requires
        0 <= p <= s.len(),
        forall|q: int| 0 <= q < p ==> s[q].1 >= e.1,
    ensures
        insert_desc(s, e) == s.take(p) + insert_desc(s.skip(p), e),
    decreases p,
{
    if p == 0 {
        assert(s.take(0) + insert_desc(s.skip(0), e) == insert_desc(s, e)) by {
            assert(s.skip(0) == s);
            assert(s.take(0) + insert_desc(s, e) =~= insert_desc(s, e));
        }
    } else {
        lemma_insert_desc_split(s.drop_first(), e, p - 1);
        assert(s.drop_first().take(p - 1) == s.take(p).drop_first());
        assert(s.drop_first().skip(p - 1) == s.skip(p));
        assert(s.take(p) =~= seq![s[0]] + s.take(p).drop_first());
    }
}

/// Orders tally entries by decreasing count, keeping the order of entries
/// with equal counts.
pub fn rank(t: &Vec<(String, usize)>) -> (res: Vec<(String, usize)>)
    ensures
        count_views(res@) == rank_desc(count_views(t@)),
{
    let ghost tv = count_views(t@);
    let mut sorted: Vec<(String, usize)> = Vec::new();
    let mut i: usize = 0;
    assert(count_views(sorted@) =~= rank_desc(tv.take(0)));
    while i < t.len()
        invariant
            i <= t.len(),
            tv == count_views(t@),
            count_views(sorted@) == rank_desc(tv.take(i as int)),
        decreases t.len() - i,
    {
        let ghost sv = count_views(sorted@);
        assert(tv.take(i + 1).drop_last() == tv.take(i as int));
        assert(tv.take(i + 1).last() == tv[i as int]);
        let c = t[i].1;
        let ghost e = tv[i as int];
        let mut p: usize = 0;
        while p < sorted.len() && sorted[p].1 >= c
            invariant
                p <= sorted.len(),
                sv == count_views(sorted@),
                e.1 == c,
                forall|q: int| 0 <= q < p ==> sv[q].1 >= e.1,
            decreases sorted.len() - p,
        {
            p = p + 1;
        }
        proof {
            lemma_insert_desc_split(sv, e, p as int);
            if p < sorted.len() {
                assert(sv.skip(p as int)[0].1 < e.1);
                assert(insert_desc(sv.skip(p as int), e) == seq![e] + sv.skip(p as int));
            } else {
                assert(sv.skip(p as int) =~= Seq::<Count>::empty());
            }
        }
        sorted.insert(p, (t[i].0.clone(), c));
        assert(count_views(sorted@) =~= sv.take(p as int) + seq![e] + sv.skip(p as int));
        i = i + 1;
    }
    assert(tv.take(t.len() as int) == tv);
    sorted
}


proof fn lemma_total_prepend(x: Count, s: Seq<Count>)
    ensures
        total(seq![x] + s) == x.1 + total(s),
    decreases s.len(),
{
    if s.len() > 0 {
        lemma_total_prepend(x, s.drop_last());
        assert((seq![x] + s).drop_last() == seq![x] + s.drop_last());
        assert((seq![x] + s).last() == s.last());
    } else {
        assert((seq![x] + s).drop_last() == Seq::<Count>::empty());
        assert((seq![x] + s).last() == x);
        assert(total(Seq::<Count>::empty()) == 0);
    }
}

proof fn lemma_insert_desc(s: Seq<Count>, e: Count)
    ensures
        total(insert_desc(s, e)) == total(s) + e.1,
        insert_desc(s, e).len() == s.len() + 1,
        forall|i: int|
            0 <= i < insert_desc(s, e).len() ==> #[trigger] insert_desc(s, e)[i].1 == e.1 || exists|j: int|
                0 <= j < s.len() && insert_desc(s, e)[i].1 == s[j].1,
        is_desc(s) ==> is_desc(insert_desc(s, e)),
    decreases s.len(),
{
    if s.len() == 0 {
        assert(total(seq![e]) == total(Seq::<Count>::empty()) + e.1) by {
            assert(seq![e].drop_last() == Seq::<Count>::empty());
        }
    } else if s[0].1 < e.1 {
        lemma_total_prepend(e, s);
        assert forall|i: int| 0 <= i < insert_desc(s, e).len() implies #[trigger] insert_desc(
            s,
            e,
        )[i].1 == e.1 || exists|j: int| 0 <= j < s.len() && insert_desc(s, e)[i].1 == s[j].1 by {
            if i > 0 {
                assert(insert_desc(s, e)[i] == s[i - 1]);
            }
        }
    } else {
        let r = s.drop_first();
        lemma_insert_desc(r, e);
        lemma_total_prepend(s[0], insert_desc(r, e));
        lemma_total_prepend(s[0], r);
        assert(s == seq![s[0]] + r);
        assert forall|i: int| 0 <= i < insert_desc(s, e).len() implies #[trigger] insert_desc(
            s,
            e,
        )[i].1 == e.1 || exists|j: int| 0 <= j < s.len() && insert_desc(s, e)[i].1 == s[j].1 by {
            if i == 0 {
                assert(insert_desc(s, e)[i].1 == s[0].1);
            } else {
                assert(insert_desc(s, e)[i] == insert_desc(r, e)[i - 1]);
                if insert_desc(r, e)[i - 1].1 != e.1 {
                    let j = choose|j: int| 0 <= j < r.len() && insert_desc(r, e)[i - 1].1 == r[j].1;
                    assert(r[j] == s[j + 1]);
                }
            }
        }
        if is_desc(s) {
            assert(is_desc(r));
            assert forall|a: int, b: int| 0 <= a < b < insert_desc(s, e).len() implies insert_desc(
                s,
                e,
            )[a].1 >= insert_desc(s, e)[b].1 by {
                let t = insert_desc(s, e);
                assert(t[b] == insert_desc(r, e)[b - 1]);
                if a == 0 {
                    assert(t[a] == s[0]);
                    if insert_desc(r, e)[b - 1].1 != e.1 {
                        let j = choose|j: int| 0 <= j < r.len() && insert_desc(r, e)[b - 1].1 == r[j].1;
                        assert(r[j] == s[j + 1]);
                    }
                } else {
                    assert(t[a] == insert_desc(r, e)[a - 1]);
                }
            }
        }
    }
}

/// Ranking keeps the total and puts the counts in decreasing order.
pub proof fn lemma_rank_desc(t: Seq<Count>)
    ensures
        total(rank_desc(t)) == total(t),
        rank_desc(t).len() == t.len(),
        is_desc(rank_desc(t)),
    decreases t.len(),
{
    if t.len() > 0 {
        lemma_rank_desc(t.drop_last());
        lemma_insert_desc(rank_desc(t.drop_last()), t.last());
    }
}

} // verus!
