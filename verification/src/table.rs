//! Association lists with string keys, used as the executable form of the
//! name-to-directory tables that resolution produces.
//!
//! A table is a `Vec<(String, String)>` whose keys are pairwise distinct; its
//! mathematical reading is the `Map` obtained by inserting the entries in
//! order, so that a later entry with the same key would overwrite an earlier
//! one. A name list is a `Vec<String>` without duplicates, read as a `Set`.

use vstd::prelude::*;

verus! {

/// The map described by an entry list: entries inserted in order, a later
/// entry overwrites an earlier one with the same key.
pub open spec fn entries_map(s: Seq<(String, String)>) -> Map<Seq<char>, Seq<char>>
    decreases s.len(),
{
    if s.len() == 0 {
        Map::empty()
    } else {
        entries_map(s.drop_last()).insert(s.last().0@, s.last().1@)
    }
}

/// No two entries of the list share a key.
pub open spec fn distinct_keys(s: Seq<(String, String)>) -> bool {
    forall|i: int, j: int| 0 <= i < j < s.len() ==> s[i].0@ != s[j].0@
}

/// The set of (views of) the names in a list.
pub open spec fn names_set(s: Seq<String>) -> Set<Seq<char>>
    decreases s.len(),
{
    if s.len() == 0 {
        Set::empty()
    } else {
        names_set(s.drop_last()).insert(s.last()@)
    }
}

/// No two names of the list are equal.
pub open spec fn distinct_names(s: Seq<String>) -> bool {
    forall|i: int, j: int| 0 <= i < j < s.len() ==> s[i]@ != s[j]@
}

/// The views of a list of strings.
pub open spec fn str_views(v: Seq<String>) -> Seq<Seq<char>> {
    v.map_values(|x: String| x@)
}

/// A key is in the map exactly when some entry carries it.
pub proof fn lemma_entries_map_dom(s: Seq<(String, String)>, k: Seq<char>)
    ensures
        entries_map(s).dom().contains(k) <==> (exists|i: int|
            0 <= i < s.len() && #[trigger] s[i].0@ == k),
    decreases s.len(),
{
    if s.len() == 0 {
    } else {
        let prefix = s.drop_last();
        lemma_entries_map_dom(prefix, k);
        if s.last().0@ == k {
            assert(s[s.len() - 1].0@ == k);
        } else {
            if entries_map(s).dom().contains(k) {
                let i = choose|i: int| 0 <= i < prefix.len() && #[trigger] prefix[i].0@ == k;
                assert(s[i].0@ == k);
            }
            if exists|i: int| 0 <= i < s.len() && #[trigger] s[i].0@ == k {
                let i = choose|i: int| 0 <= i < s.len() && #[trigger] s[i].0@ == k;
                assert(i < s.len() - 1);
                assert(prefix[i].0@ == k);
            }
        }
    }
}

/// In a list with distinct keys, the map sends each entry's key to that
/// entry's value.
pub proof fn lemma_entries_map_at(s: Seq<(String, String)>, i: int)
    requires
        distinct_keys(s),
        0 <= i < s.len(),
    ensures
        entries_map(s).dom().contains(s[i].0@),
        entries_map(s)[s[i].0@] == s[i].1@,
    decreases s.len(),
{
    if i == s.len() - 1 {
    } else {
        let prefix = s.drop_last();
        assert(prefix[i] == s[i]);
        lemma_entries_map_at(prefix, i);
        assert(s.last().0@ != s[i].0@);
    }
}

/// Replacing the entry at `i` by one with the same key reads as a plain
/// map insertion.
pub proof fn lemma_entries_map_update(s: Seq<(String, String)>, i: int, p: (String, String))
    requires
        distinct_keys(s),
        0 <= i < s.len(),
        p.0@ == s[i].0@,
    ensures
        entries_map(s.update(i, p)) == entries_map(s).insert(p.0@, p.1@),
    decreases s.len(),
{
    if i == s.len() - 1 {
        assert(s.update(i, p).drop_last() =~= s.drop_last());
        assert(entries_map(s.update(i, p)) =~= entries_map(s).insert(p.0@, p.1@));
    } else {
        let prefix = s.drop_last();
        assert(s.update(i, p).drop_last() =~= prefix.update(i, p));
        assert(prefix[i] == s[i]);
        lemma_entries_map_update(prefix, i, p);
        assert(s.last().0@ != s[i].0@);
        assert(entries_map(s.update(i, p)) =~= entries_map(s).insert(p.0@, p.1@));
    }
}

/// A name is in the set exactly when some list element carries it.
pub proof fn lemma_names_set_dom(s: Seq<String>, n: Seq<char>)
    ensures
        names_set(s).contains(n) <==> (exists|i: int| 0 <= i < s.len() && #[trigger] s[i]@ == n),
    decreases s.len(),
{
    if s.len() == 0 {
    } else {
        let prefix = s.drop_last();
        lemma_names_set_dom(prefix, n);
        if s.last()@ == n {
            assert(s[s.len() - 1]@ == n);
        } else {
            if names_set(s).contains(n) {
                let i = choose|i: int| 0 <= i < prefix.len() && #[trigger] prefix[i]@ == n;
                assert(s[i]@ == n);
            }
            if exists|i: int| 0 <= i < s.len() && #[trigger] s[i]@ == n {
                let i = choose|i: int| 0 <= i < s.len() && #[trigger] s[i]@ == n;
                assert(i < s.len() - 1);
                assert(prefix[i]@ == n);
            }
        }
    }
}

/// Look a key up in a table with distinct keys.
pub fn tbl_get<'a>(s: &'a Vec<(String, String)>, k: &String) -> (r: Option<&'a String>)
    requires
        distinct_keys(s@),
    ensures
        match r {
            Some(v) => entries_map(s@).dom().contains(k@) && v@ == entries_map(s@)[k@],
            None => !entries_map(s@).dom().contains(k@),
        },
{
    let mut i: usize = 0;
    while i < s.len()
        invariant
            distinct_keys(s@),
            i <= s@.len(),
            forall|m: int| 0 <= m < i ==> #[trigger] s@[m].0@ != k@,
        decreases s@.len() - i,
    {
        let pair = &s[i];
        if pair.0 == *k {
            proof {
                lemma_entries_map_at(s@, i as int);
            }
            return Some(&pair.1);
        }
        i += 1;
    }
    proof {
        lemma_entries_map_dom(s@, k@);
    }
    None
}

/// Bind `k` to `v` in a table with distinct keys, overwriting any earlier
/// binding of the same key.
pub fn tbl_set(s: &mut Vec<(String, String)>, k: String, v: String)
    requires
        distinct_keys(old(s)@),
    ensures
        distinct_keys(final(s)@),
        entries_map(final(s)@) == entries_map(old(s)@).insert(k@, v@),
{
    let ghost kk: Seq<char> = k@;
    let ghost vv: Seq<char> = v@;
    let mut i: usize = 0;
    while i < s.len()
        invariant
            s@ == old(s)@,
            distinct_keys(s@),
            i <= s@.len(),
            kk == k@,
            vv == v@,
            forall|m: int| 0 <= m < i ==> #[trigger] s@[m].0@ != k@,
        decreases s@.len() - i,
    {
        if s[i].0 == k {
            s.remove(i);
            s.insert(i, (k, v));
            proof {
                assert(s@ =~= old(s)@.update(i as int, s@[i as int]));
                lemma_entries_map_update(old(s)@, i as int, s@[i as int]);
            }
            return;
        }
        i += 1;
    }
    s.push((k, v));
    proof {
        assert(s@.drop_last() =~= old(s)@);
        assert(forall|m: int, j: int|
            0 <= m < j < s@.len() ==> #[trigger] s@[m].0@ != #[trigger] s@[j].0@) by {
            assert(forall|m: int| 0 <= m < s@.len() - 1 ==> s@[m] == old(s)@[m]);
        }
    }
}

/// Add a name to a duplicate-free list, keeping it duplicate-free.
pub fn names_add(s: &mut Vec<String>, n: String)
    requires
        distinct_names(old(s)@),
    ensures
        distinct_names(final(s)@),
        names_set(final(s)@) == names_set(old(s)@).insert(n@),
{
    let ghost nn: Seq<char> = n@;
    let mut i: usize = 0;
    while i < s.len()
        invariant
            s@ == old(s)@,
            distinct_names(s@),
            i <= s@.len(),
            nn == n@,
            forall|m: int| 0 <= m < i ==> #[trigger] s@[m]@ != n@,
        decreases s@.len() - i,
    {
        if s[i] == n {
            proof {
                lemma_names_set_dom(s@, nn);
                assert(names_set(s@).contains(nn));
                assert(names_set(s@) =~= names_set(old(s)@).insert(nn));
            }
            return;
        }
        i += 1;
    }
    s.push(n);
    proof {
        assert(s@.drop_last() =~= old(s)@);
        assert(forall|m: int, j: int| 0 <= m < j < s@.len() ==> #[trigger] s@[m]@ != #[trigger] s@[j]@)
            by {
            assert(forall|m: int| 0 <= m < s@.len() - 1 ==> s@[m] == old(s)@[m]);
        }
    }
}

} // verus!
