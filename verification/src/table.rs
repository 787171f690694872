//! Small name-to-value tables kept as vectors of pairs without repeated names.
use vstd::prelude::*;

use crate::text::{chars_of, vec_eq};

verus! {

broadcast use vstd::string::group_string_axioms;

/// A name-to-command table, as pairs of character sequences.
pub open spec fn pair_views(v: Seq<(String, String)>) -> Seq<(Seq<char>, Seq<char>)> {
    v.map_values(|p: (String, String)| (p.0@, p.1@))
}

/// The map that a list of pairs describes: a later pair for a name
/// replaces an earlier one.
pub open spec fn pairs_map(s: Seq<(Seq<char>, Seq<char>)>) -> Map<Seq<char>, Seq<char>>
    decreases s.len(),
{
    if s.len() == 0 {
        Map::empty()
    } else {
        pairs_map(s.drop_last()).insert(s.last().0, s.last().1)
    }
}

/// No name occurs twice in the list.
pub open spec fn unique_names(s: Seq<(Seq<char>, Seq<char>)>) -> bool {
    forall|i: int, j: int|
        #![trigger s[i], s[j]]
        0 <= i < s.len() && 0 <= j < s.len() && i != j ==> s[i].0 != s[j].0
}

pub proof fn lemma_pairs_map_unique(s: Seq<(Seq<char>, Seq<char>)>)
    requires
        unique_names(s),
    ensures
        forall|i: int| 0 <= i < s.len() ==> #[trigger] pairs_map(s).contains_key(s[i].0)
            && pairs_map(s)[s[i].0] == s[i].1,
        forall|k: Seq<char>| #[trigger]
            pairs_map(s).contains_key(k) ==> exists|i: int| 0 <= i < s.len() && s[i].0 == k,
    decreases s.len(),
{
    if s.len() > 0 {
        let p = s.drop_last();
        assert(unique_names(p));
        lemma_pairs_map_unique(p);
        assert forall|i: int| 0 <= i < s.len() implies #[trigger] pairs_map(s).contains_key(s[i].0)
            && pairs_map(s)[s[i].0] == s[i].1 by {
            if i < s.len() - 1 {
                assert(p[i] == s[i]);
                assert(s[i].0 != s[s.len() - 1].0);
                assert(pairs_map(p).contains_key(p[i].0));
            }
        }
        assert forall|k: Seq<char>| #[trigger]
            pairs_map(s).contains_key(k) implies exists|i: int| 0 <= i < s.len() && s[i].0 == k by {
            if k != s.last().0 {
                assert(pairs_map(p).contains_key(k));
                let i = choose|i: int| 0 <= i < p.len() && p[i].0 == k;
                assert(p[i] == s[i]);
                assert(s[i].0 == k);
            } else {
                assert(s[s.len() - 1].0 == k);
            }
        }
    }
}

/// Sets `name` to `value` in `table`, replacing an existing entry of that
/// name in place or appending a new one.
pub fn set_entry(table: &mut Vec<(String, String)>, name: String, value: String)
    requires
        unique_names(pair_views(old(table)@)),
    ensures
        unique_names(pair_views(final(table)@)),
        pairs_map(pair_views(final(table)@)) == pairs_map(pair_views(old(table)@)).insert(
            name@,
            value@,
        ),
{
    let ghost t0 = pair_views(table@);
    proof {
        lemma_pairs_map_unique(t0);
    }
    let mut i: usize = 0;
    while i < table.len()
        invariant
            i <= table.len(),
            pair_views(table@) == t0,
            t0 == pair_views(old(table)@),
            unique_names(t0),
            forall|k: int| 0 <= k < i ==> t0[k].0 != name@,
        decreases table.len() - i,
    {
        if table[i].0 == name {
            let ghost old_t = table@;
            table.set(i, (name, value));
            let ghost t1 = pair_views(table@);
            assert(t1 =~= t0.update(i as int, (name@, value@)));
            assert(unique_names(t1)) by {
                assert forall|a: int, b: int|
                    #![trigger t1[a], t1[b]]
                    0 <= a < t1.len() && 0 <= b < t1.len() && a != b implies t1[a].0
                    != t1[b].0 by {
                    assert(t1[a].0 == t0[a].0);
                    assert(t1[b].0 == t0[b].0);
                    assert(t0[a].0 != t0[b].0);
                }
            }
            proof {
                lemma_pairs_map_unique(t0);
                lemma_pairs_map_unique(t1);
                let m0 = pairs_map(t0).insert(name@, value@);
                let m1 = pairs_map(t1);
                assert forall|k: Seq<char>| #[trigger] m1.contains_key(k) <==> m0.contains_key(k) by {
                    if m1.contains_key(k) {
                        let j = choose|j: int| 0 <= j < t1.len() && t1[j].0 == k;
                        if j != i {
                            assert(t0[j] == t1[j]);
                            assert(pairs_map(t0).contains_key(t0[j].0));
                        }
                    }
                    if pairs_map(t0).contains_key(k) {
                        let j = choose|j: int| 0 <= j < t0.len() && t0[j].0 == k;
                        assert(t0[j].0 == t1[j].0);
                        assert(m1.contains_key(t1[j].0));
                    }
                    if k == name@ {
                        assert(m1.contains_key(t1[i as int].0));
                    }
                }
                assert forall|k: Seq<char>| #[trigger] m1.contains_key(k) implies m1[k] == m0[k] by {
                    let j = choose|j: int| 0 <= j < t1.len() && t1[j].0 == k;
                    if j != i {
                        assert(t0[j] == t1[j]);
                    }
                }
                assert(m1 =~= m0);
            }
            return;
        }
        assert(t0[i as int].0 == table@[i as int].0@);
        i += 1;
    }
    let ghost before = table@;
    table.push((name, value));
    let ghost t1 = pair_views(table@);
    assert(t1 =~= t0.push((name@, value@)));
    assert(t1.drop_last() =~= t0);
}

/// The value for `name` in a table: that of its last pair for `name`.
pub fn lookup_entry(table: &Vec<(String, String)>, name: &str) -> (r: Option<String>)
    ensures
        r matches Some(c) ==> pairs_map(pair_views(table@)).contains_key(name@) && c@ == pairs_map(
            pair_views(table@),
        )[name@],
        r is None ==> !pairs_map(pair_views(table@)).contains_key(name@),
{
    let ghost t = pair_views(table@);
    let key = chars_of(name);
    let mut i: usize = table.len();
    assert(t.take(i as int) =~= t);
    while i > 0
        invariant
            i <= table.len(),
            t == pair_views(table@),
            key@ == name@,
            pairs_map(t).contains_key(name@) == pairs_map(t.take(i as int)).contains_key(name@),
            pairs_map(t).contains_key(name@) ==> pairs_map(t)[name@] == pairs_map(
                t.take(i as int),
            )[name@],
        decreases i,
    {
        let entry_name = chars_of(table[i - 1].0.as_str());
        assert(t[i - 1].0 == table@[i - 1].0@);
        assert(t[i - 1].1 == table@[i - 1].1@);
        assert(t.take(i as int).drop_last() =~= t.take(i - 1));
        assert(t.take(i as int).last() == t[i - 1]);
        if vec_eq(&entry_name, &key) {
            return Some(table[i - 1].1.clone());
        }
        i -= 1;
    }
    None
}

} // verus!
