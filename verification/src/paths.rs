//! Paths as strings with `/` between components, joined and taken apart
//! the way `std::path::Path` does for such paths.

use vstd::prelude::*;
use crate::text::{string_from_range, to_chars};

verus! {

/// The index of the last occurrence of `c` in `s`, or `-1` where there is none.
pub open spec fn last_index_of(s: Seq<char>, c: char) -> int
    decreases s.len(),
{
    if s.len() == 0 {
        -1
    } else if s.last() == c {
        s.len() - 1
    } else {
        last_index_of(s.drop_last(), c)
    }
}

/// `last_index_of` is `-1` or the index of an occurrence, after which `c` does not occur.
pub proof fn lemma_last_index_of(s: Seq<char>, c: char)
    ensures
        -1 <= last_index_of(s, c) < s.len(),
        last_index_of(s, c) >= 0 ==> s[last_index_of(s, c)] == c,
        forall|j: int| last_index_of(s, c) < j < s.len() ==> s[j] != c,
    decreases s.len(),
{
    if s.len() > 0 && s.last() != c {
        lemma_last_index_of(s.drop_last(), c);
        assert forall|j: int| last_index_of(s, c) < j < s.len() implies s[j] != c by {
            if j < s.len() - 1 {
                assert(s[j] == s.drop_last()[j]);
            }
        }
    }
}

/// `base` joined with `rel`, as `Path::join`: an absolute `rel` replaces `base`,
/// otherwise a `/` is put between them unless `base` is empty or already ends in one.
pub open spec fn join_spec(base: Seq<char>, rel: Seq<char>) -> Seq<char> {
    if rel.len() > 0 && rel[0] == '/' {
        rel
    } else if base.len() == 0 {
        rel
    } else if base.last() == '/' {
        base + rel
    } else {
        base + seq!['/'] + rel
    }
}

/// The last component of `p`: what follows its last `/`.
pub open spec fn file_name_spec(p: Seq<char>) -> Seq<char> {
    p.subrange(last_index_of(p, '/') + 1, p.len() as int)
}

/// The directory that holds `p`: what precedes its last `/` (`/` itself when that
/// is the first character), or the empty path when `p` holds no `/`.
pub open spec fn parent_spec(p: Seq<char>) -> Seq<char> {
    let k = last_index_of(p, '/');
    if k < 0 {
        Seq::<char>::empty()
    } else if k == 0 {
        seq!['/']
    } else {
        p.subrange(0, k)
    }
}

/// `p` relative to `base`, as `Path::strip_prefix`: the empty path when they are
/// equal, what follows `base` and a `/` when `base` is a leading run of whole
/// components of `p`, and nothing otherwise.
pub open spec fn strip_prefix_spec(p: Seq<char>, base: Seq<char>) -> Option<Seq<char>> {
    if p == base {
        Some(Seq::<char>::empty())
    } else if base.len() > 0 && base.last() == '/' && base.len() <= p.len() && p.subrange(
        0,
        base.len() as int,
    ) == base {
        Some(p.subrange(base.len() as int, p.len() as int))
    } else if base.len() < p.len() && p.subrange(0, base.len() as int) == base && p[base.len() as int]
        == '/' {
        Some(p.subrange(base.len() + 1int, p.len() as int))
    } else {
        None
    }
}

/// The index of the last `c` in `s`, if any.
fn find_last(s: &Vec<char>, c: char) -> (r: Option<usize>)
    ensures
        r matches Some(k) ==> k == last_index_of(s@, c),
        r is None ==> last_index_of(s@, c) == -1,
{
    let mut i: usize = s.len();
    assert(s@.take(i as int) =~= s@);
    while i > 0
        invariant
            0 <= i <= s.len(),
            last_index_of(s@, c) == last_index_of(s@.take(i as int), c),
        decreases i,
    {
        assert(s@.take(i as int).drop_last() =~= s@.take(i - 1));
        if s[i - 1] == c {
            return Some(i - 1);
        }
        i = i - 1;
    }
    None
}

/// `base` joined with `rel`.
pub fn join(base: &str, rel: &str) -> (r: String)
    ensures
        r@ == join_spec(base@, rel@),
{
    let cb = to_chars(base);
    let cr = to_chars(rel);
    if cr.len() > 0 && cr[0] == '/' {
        return rel.to_owned();
    }
    if cb.len() == 0 {
        return rel.to_owned();
    }
    let mut r = base.to_owned();
    if cb[cb.len() - 1] != '/' {
        r.append("/");
        proof {
            reveal_strlit("/");
        }
    }
    r.append(rel);
    assert(r@ =~= join_spec(base@, rel@));
    r
}

/// The last component of `p`.
pub fn file_name(p: &str) -> (r: String)
    ensures
        r@ == file_name_spec(p@),
{
    let cs = to_chars(p);
    let k = find_last(&cs, '/');
    proof {
        lemma_last_index_of(p@, '/');
    }
    let start: usize = match k {
        Some(k) => k + 1,
        None => 0,
    };
    let r = string_from_range(&cs, start, cs.len());
    assert(r@ =~= file_name_spec(p@));
    r
}

/// The directory that holds `p`.
pub fn parent(p: &str) -> (r: String)
    ensures
        r@ == parent_spec(p@),
{
    let cs = to_chars(p);
    let k = find_last(&cs, '/');
    proof {
        lemma_last_index_of(p@, '/');
    }
    match k {
        None => String::new(),
        Some(0) => {
            proof {
                reveal_strlit("/");
            }
            "/".to_owned()
        },
        Some(k) => {
            let r = string_from_range(&cs, 0, k);
            assert(r@ =~= parent_spec(p@));
            r
        },
    }
}

/// Whether `prefix` is a leading run of `s`.
pub fn starts_with(s: &Vec<char>, prefix: &Vec<char>) -> (r: bool)
    ensures
        r == (prefix.len() <= s.len() && s@.subrange(0, prefix.len() as int) == prefix@),
{
    if prefix.len() > s.len() {
        return false;
    }
    let mut i: usize = 0;
    while i < prefix.len()
        invariant
            prefix.len() <= s.len(),
            0 <= i <= prefix.len(),
            forall|j: int| 0 <= j < i ==> s@[j] == prefix@[j],
        decreases prefix.len() - i,
    {
        if s[i] != prefix[i] {
            assert(s@.subrange(0, prefix.len() as int)[i as int] != prefix@[i as int]);
            return false;
        }
        i = i + 1;
    }
    assert(s@.subrange(0, prefix.len() as int) =~= prefix@);
    true
}

/// `p` relative to `base`.
pub fn strip_prefix(p: &str, base: &str) -> (r: Option<String>)
    ensures
        r matches Some(s) ==> strip_prefix_spec(p@, base@) == Some(s@),
        r is None ==> strip_prefix_spec(p@, base@) is None,
{
    let cp = to_chars(p);
    let cb = to_chars(base);
    let pre = starts_with(&cp, &cb);
    if pre && cp.len() == cb.len() {
        assert(cp@ =~= cb@) by {
            assert(cp@.subrange(0, cb.len() as int) =~= cp@);
        }
        return Some(String::new());
    }
    if pre && cb.len() > 0 && cb[cb.len() - 1] == '/' {
        assert(p@.len() != base@.len());
        let r = string_from_range(&cp, cb.len(), cp.len());
        assert(r@ =~= p@.subrange(base@.len() as int, p@.len() as int));
        return Some(r);
    }
    if pre && cb.len() < cp.len() && cp[cb.len()] == '/' {
        assert(p@.len() != base@.len());
        let r = string_from_range(&cp, cb.len() + 1, cp.len());
        assert(r@ =~= p@.subrange(base@.len() + 1int, p@.len() as int));
        return Some(r);
    }
    assert(p@ != base@) by {
        if p@ == base@ {
            assert(cp@.subrange(0, cb.len() as int) =~= cp@);
        }
    }
    None
}

/// What `Path::extension` gives for the file name `f`: the text after its
/// last `.`, unless there is no `.` or the only one starts the name.
pub open spec fn extension_spec(f: Seq<char>) -> Option<Seq<char>> {
    let k = last_index_of(f, '.');
    if k <= 0 {
        None
    } else {
        Some(f.subrange(k + 1, f.len() as int))
    }
}

/// The extension of the file `p`: what follows the last `.` of its name,
/// as `Path::extension` gives it.
pub fn extension_of(p: &str) -> (r: Option<String>)
    ensures
        match r {
            Some(e) => extension_spec(file_name_spec(p@)) == Some(e@),
            None => extension_spec(file_name_spec(p@)) is None,
        },
{
    let f = file_name(p);
    let cs = to_chars(f.as_str());
    let mut k: usize = cs.len();
    while k > 0 && cs[k - 1] != '.'
        invariant
            cs@ == f@,
            0 <= k <= cs.len(),
            forall|j: int| k <= j < cs.len() ==> cs@[j] != '.',
        decreases k,
    {
        k = k - 1;
    }
    proof {
        lemma_last_index_of(f@, '.');
        if k > 0 {
            assert(cs@[k - 1] == '.');
            assert(last_index_of(f@, '.') == k - 1);
        } else {
            assert(last_index_of(f@, '.') < 0);
        }
    }
    if k <= 1 {
        return None;
    }
    let ext = crate::text::string_from_range(&cs, k, cs.len());
    assert(ext@ =~= f@.subrange(k as int, f@.len() as int));
    Some(ext)
}

} // verus!
