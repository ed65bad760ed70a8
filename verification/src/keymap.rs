//! Maps from keys to lists of keys, held as lists of entries: what the
//! commands use to record who depends on whom.

use vstd::prelude::*;
use crate::text::{str_eq, views_of};

verus! {

broadcast use vstd::string::group_string_axioms;

/// A map from keys to lists of keys, as plain values: each entry a key and
/// its list.
pub type KeyMap = Seq<(Seq<char>, Seq<Seq<char>>)>;

/// The plain values of a map from keys to lists of keys.
pub open spec fn key_map_view(m: Seq<(String, Vec<String>)>) -> KeyMap {
    m.map_values(|e: (String, Vec<String>)| (e.0@, views_of(e.1@)))
}

/// The index of the first entry of `m` for `k`, or `-1`.
pub open spec fn key_index(m: KeyMap, k: Seq<char>) -> int
    decreases m.len(),
{
    if m.len() == 0 {
        -1
    } else if m[0].0 == k {
        0
    } else {
        let i = key_index(m.drop_first(), k);
        if i < 0 {
            -1
        } else {
            i + 1
        }
    }
}

/// Whether `m` has an entry for `k`.
pub open spec fn has_key(m: KeyMap, k: Seq<char>) -> bool {
    key_index(m, k) >= 0
}

/// The list that `m` holds for `k` (its first entry for `k`), or nothing.
pub open spec fn list_of(m: KeyMap, k: Seq<char>) -> Seq<Seq<char>>
    decreases m.len(),
{
    if m.len() == 0 {
        Seq::empty()
    } else if m[0].0 == k {
        m[0].1
    } else {
        list_of(m.drop_first(), k)
    }
}

/// `key_index` finds the first entry for `k`, and `list_of` is its list.
pub proof fn lemma_key_index(m: KeyMap, k: Seq<char>)
    ensures
        -1 <= key_index(m, k) < m.len(),
        key_index(m, k) >= 0 ==> m[key_index(m, k)].0 == k && list_of(m, k) == m[key_index(m, k)].1,
        forall|j: int| 0 <= j < m.len() && (j < key_index(m, k) || key_index(m, k) < 0) ==> (#[trigger] m[j]).0 != k,
        key_index(m, k) < 0 ==> list_of(m, k) == Seq::<Seq<char>>::empty(),
    decreases m.len(),
{
    if m.len() > 0 && m[0].0 != k {
        lemma_key_index(m.drop_first(), k);
        assert forall|j: int| 0 <= j < m.len() && (j < key_index(m, k) || key_index(m, k) < 0) implies (
        #[trigger] m[j]).0 != k by {
            if j > 0 {
                assert(m[j] == m.drop_first()[j - 1]);
            }
        }
    }
}

/// `m` with the list of `k` set to `l`: its entry changed in place, or a new
/// entry at the end.
pub open spec fn map_put(m: KeyMap, k: Seq<char>, l: Seq<Seq<char>>) -> KeyMap {
    if key_index(m, k) >= 0 {
        m.update(key_index(m, k), (k, l))
    } else {
        m.push((k, l))
    }
}

/// `m` with `x` added at the end of the list of `k`, which starts empty.
pub open spec fn map_append(m: KeyMap, k: Seq<char>, x: Seq<char>) -> KeyMap {
    if key_index(m, k) >= 0 {
        m.update(key_index(m, k), (k, m[key_index(m, k)].1.push(x)))
    } else {
        m.push((k, seq![x]))
    }
}

/// The index of the first entry of `m` for `k`, if there is one.
pub fn find_key(m: &Vec<(String, Vec<String>)>, k: &str) -> (r: Option<usize>)
    ensures
        r matches Some(i) ==> i == key_index(key_map_view(m@), k@) && i < m@.len() && m@[i as int].0@
            == k@ && list_of(key_map_view(m@), k@) == views_of(m@[i as int].1@),
        r is None ==> key_index(key_map_view(m@), k@) == -1 && list_of(key_map_view(m@), k@)
            == Seq::<Seq<char>>::empty(),
{
    let ghost mv = key_map_view(m@);
    proof {
        lemma_key_index(mv, k@);
    }
    let mut i: usize = 0;
    while i < m.len()
        invariant
            0 <= i <= m.len(),
            mv == key_map_view(m@),
            -1 <= key_index(mv, k@) < mv.len(),
            key_index(mv, k@) >= 0 ==> mv[key_index(mv, k@)].0 == k@ && list_of(mv, k@)
                == mv[key_index(mv, k@)].1,
            key_index(mv, k@) < 0 ==> list_of(mv, k@) == Seq::<Seq<char>>::empty(),
            forall|j: int|
                0 <= j < mv.len() && (j < key_index(mv, k@) || key_index(mv, k@) < 0) ==> (
                #[trigger] mv[j]).0 != k@,
            forall|j: int| 0 <= j < i ==> (#[trigger] mv[j]).0 != k@,
        decreases m.len() - i,
    {
        assert(mv[i as int] == (m@[i as int].0@, views_of(m@[i as int].1@)));
        if str_eq(m[i].0.as_str(), k) {
            return Some(i);
        }
        i = i + 1;
    }
    None
}

/// Sets the list of `k` in `m` to `l`.
pub fn put(m: &mut Vec<(String, Vec<String>)>, k: String, l: Vec<String>)
    ensures
        key_map_view(final(m)@) == map_put(key_map_view(old(m)@), k@, views_of(l@)),
{
    let ghost mv = key_map_view(m@);
    let ghost kv = k@;
    let ghost lv = views_of(l@);
    match find_key(m, k.as_str()) {
        Some(i) => {
            m.set(i, (k, l));
            assert(key_map_view(m@) =~= mv.update(i as int, (kv, lv)));
        },
        None => {
            m.push((k, l));
            assert(key_map_view(m@) =~= mv.push((kv, lv)));
        },
    }
}

/// Adds `x` at the end of the list of `k` in `m`.
pub fn append(m: &mut Vec<(String, Vec<String>)>, k: &str, x: &str)
    ensures
        key_map_view(final(m)@) == map_append(key_map_view(old(m)@), k@, x@),
{
    let ghost mv = key_map_view(m@);
    match find_key(m, k) {
        Some(i) => {
            let mut e = m.remove(i);
            let ghost l0 = views_of(e.1@);
            e.1.push(x.to_owned());
            assert(views_of(e.1@) =~= l0.push(x@));
            let ghost ev = (e.0@, views_of(e.1@));
            m.insert(i, e);
            assert(key_map_view(m@) =~= mv.update(i as int, ev));
        },
        None => {
            let mut l: Vec<String> = Vec::new();
            l.push(x.to_owned());
            assert(views_of(l@) =~= seq![x@]);
            m.push((k.to_owned(), l));
            assert(key_map_view(m@) =~= mv.push((k@, seq![x@])));
        },
    }
}

} // verus!
