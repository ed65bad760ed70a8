//! An in-memory file system: a list of paths, each a directory or a file with
//! its text. Commands read the infrastructure tree through it.

use vstd::prelude::*;
use crate::paths::{parent, parent_spec, strip_prefix, strip_prefix_spec};
use crate::text::{str_eq, string_from_range, to_chars};

verus! {

/// One path of a `MemoryFileSystem`: a directory when `contents` is `None`.
pub struct FsEntry {
    pub path: String,
    pub contents: Option<String>,
}

/// The view of one entry: its path, and its text when it is a file.
pub open spec fn entry_view(e: FsEntry) -> (Seq<char>, Option<Seq<char>>) {
    (
        e.path@,
        match e.contents {
            Some(c) => Some(c@),
            None => None,
        },
    )
}

/// A file system held in memory. Where a path occurs more than once, its
/// first entry is the one that counts.
pub struct MemoryFileSystem {
    entries: Vec<FsEntry>,
}

/// Whether `p` is the root of a path tree (the empty path or `/`), which
/// always counts as a directory.
pub open spec fn is_root(p: Seq<char>) -> bool {
    p.len() == 0 || p == seq!['/']
}

/// The index of the first entry of `v` for the path `p`, or `-1`.
pub open spec fn fs_index(v: Seq<(Seq<char>, Option<Seq<char>>)>, p: Seq<char>) -> int
    decreases v.len(),
{
    if v.len() == 0 {
        -1
    } else if v[0].0 == p {
        0
    } else {
        let k = fs_index(v.drop_first(), p);
        if k < 0 {
            -1
        } else {
            k + 1
        }
    }
}

/// Whether the file system `v` holds the path `p`.
pub open spec fn fs_has(v: Seq<(Seq<char>, Option<Seq<char>>)>, p: Seq<char>) -> bool {
    fs_index(v, p) >= 0
}

/// Whether `p` is a directory of `v`.
pub open spec fn fs_is_dir(v: Seq<(Seq<char>, Option<Seq<char>>)>, p: Seq<char>) -> bool {
    fs_has(v, p) && v[fs_index(v, p)].1 is None
}

/// The text of the file `p` of `v`, if `p` is a file.
pub open spec fn fs_file(v: Seq<(Seq<char>, Option<Seq<char>>)>, p: Seq<char>) -> Option<
    Seq<char>,
> {
    if fs_has(v, p) {
        v[fs_index(v, p)].1
    } else {
        None
    }
}

/// `fs_index` is the first index whose path is `p`.
pub proof fn lemma_fs_index(v: Seq<(Seq<char>, Option<Seq<char>>)>, p: Seq<char>)
    ensures
        -1 <= fs_index(v, p) < v.len(),
        fs_index(v, p) >= 0 ==> v[fs_index(v, p)].0 == p,
        forall|j: int| 0 <= j < v.len() && (fs_index(v, p) < 0 || j < fs_index(v, p)) ==> v[j].0
            != p,
    decreases v.len(),
{
    if v.len() > 0 && v[0].0 != p {
        lemma_fs_index(v.drop_first(), p);
        assert forall|j: int|
            0 <= j < v.len() && (fs_index(v, p) < 0 || j < fs_index(v, p)) implies v[j].0 != p by {
            if j > 0 {
                assert(v[j] == v.drop_first()[j - 1]);
            }
        }
    }
}

/// Any index that is a first occurrence of `p` is `fs_index`.
pub proof fn lemma_fs_index_unique(v: Seq<(Seq<char>, Option<Seq<char>>)>, p: Seq<char>, k: int)
    requires
        -1 <= k < v.len(),
        k >= 0 ==> v[k].0 == p,
        forall|j: int| 0 <= j < v.len() && (k < 0 || j < k) ==> v[j].0 != p,
    ensures
        fs_index(v, p) == k,
{
    lemma_fs_index(v, p);
    let f = fs_index(v, p);
    if f >= 0 && k >= 0 {
        if f < k {
            assert(v[f].0 != p);
        }
        if k < f {
            assert(v[k].0 != p);
        }
    } else if f >= 0 {
        assert(v[f].0 != p);
    } else if k >= 0 {
        assert(v[k].0 != p);
    }
}

/// Appending an entry keeps every path that was there where it was.
pub proof fn lemma_fs_push(
    v: Seq<(Seq<char>, Option<Seq<char>>)>,
    x: (Seq<char>, Option<Seq<char>>),
    p: Seq<char>,
)
    ensures
        fs_index(v.push(x), p) == if fs_index(v, p) >= 0 {
            fs_index(v, p)
        } else if x.0 == p {
            v.len() as int
        } else {
            -1
        },
{
    lemma_fs_index(v, p);
    let w = v.push(x);
    let k = if fs_index(v, p) >= 0 {
        fs_index(v, p)
    } else if x.0 == p {
        v.len() as int
    } else {
        -1
    };
    assert forall|j: int| 0 <= j < w.len() && (k < 0 || j < k) implies w[j].0 != p by {
        if j < v.len() {
            assert(w[j] == v[j]);
        }
    }
    lemma_fs_index_unique(w, p, k);
}

/// Replacing the entry at `i` by one with the same path keeps every path where it was.
pub proof fn lemma_fs_update(
    v: Seq<(Seq<char>, Option<Seq<char>>)>,
    i: int,
    x: (Seq<char>, Option<Seq<char>>),
    p: Seq<char>,
)
    requires
        0 <= i < v.len(),
        v[i].0 == x.0,
    ensures
        fs_index(v.update(i, x), p) == fs_index(v, p),
{
    lemma_fs_index(v, p);
    let w = v.update(i, x);
    let k = fs_index(v, p);
    assert forall|j: int| 0 <= j < w.len() && (k < 0 || j < k) implies w[j].0 != p by {
        if j != i {
            assert(w[j] == v[j]);
        }
    }
    lemma_fs_index_unique(w, p, k);
}

/// Whether `write` can write the file `p` of `v`: `p` names no directory,
/// and the directory that would hold it exists.
pub open spec fn write_ok(v: Seq<(Seq<char>, Option<Seq<char>>)>, p: Seq<char>) -> bool {
    p.len() > 0 && !fs_is_dir(v, p) && (is_root(parent_spec(p)) || fs_is_dir(v, parent_spec(p)))
}

/// Whether `v1` is `v0` with the file `p` holding `c`.
pub open spec fn written(
    v0: Seq<(Seq<char>, Option<Seq<char>>)>,
    v1: Seq<(Seq<char>, Option<Seq<char>>)>,
    p: Seq<char>,
    c: Seq<char>,
) -> bool {
    &&& fs_file(v1, p) == Some(c)
    &&& forall|x: Seq<char>|
        #![trigger fs_index(v1, x)]
        x != p ==> {
            &&& fs_has(v1, x) == fs_has(v0, x)
            &&& fs_is_dir(v1, x) == fs_is_dir(v0, x)
            &&& fs_file(v1, x) == fs_file(v0, x)
        }
}

/// Whether `p` is a file of `v`.
pub open spec fn fs_is_file(v: Seq<(Seq<char>, Option<Seq<char>>)>, p: Seq<char>) -> bool {
    fs_file(v, p) is Some
}

/// The paths of `v` directly inside `dir`, in the order `v` holds them.
pub open spec fn children_spec(v: Seq<(Seq<char>, Option<Seq<char>>)>, dir: Seq<char>) -> Seq<
    Seq<char>,
> {
    v.filter_map(
        |e: (Seq<char>, Option<Seq<char>>)|
            if parent_spec(e.0) == dir && e.0 != dir {
                Some(e.0)
            } else {
                None
            },
    )
}

/// The length of the longest path of `v`.
pub open spec fn fs_max_len(v: Seq<(Seq<char>, Option<Seq<char>>)>) -> nat
    decreases v.len(),
{
    if v.len() == 0 {
        0
    } else {
        let rest = fs_max_len(v.drop_last());
        if v.last().0.len() > rest {
            v.last().0.len()
        } else {
            rest
        }
    }
}

/// No path of `v` is longer than `fs_max_len(v)`.
pub proof fn lemma_fs_max_len(v: Seq<(Seq<char>, Option<Seq<char>>)>, i: int)
    requires
        0 <= i < v.len(),
    ensures
        v[i].0.len() <= fs_max_len(v),
    decreases v.len(),
{
    if i < v.len() - 1 {
        lemma_fs_max_len(v.drop_last(), i);
    }
}

/// A child listed by `children_spec` is a path of `v` that is longer than `dir`.
pub proof fn lemma_children(v: Seq<(Seq<char>, Option<Seq<char>>)>, dir: Seq<char>, j: int)
    requires
        0 <= j < children_spec(v, dir).len(),
    ensures
        children_spec(v, dir)[j].len() > dir.len(),
        children_spec(v, dir)[j].len() <= fs_max_len(v),
    decreases v.len(),
{
    let c = children_spec(v, dir);
    let rest = children_spec(v.drop_last(), dir);
    let e = v.last();
    assert(c == (if parent_spec(e.0) == dir && e.0 != dir {
        rest + seq![e.0]
    } else {
        rest
    }));
    if j < rest.len() {
        lemma_children(v.drop_last(), dir, j);
        lemma_fs_max_len(v, v.len() - 1);
        assert(fs_max_len(v.drop_last()) <= fs_max_len(v));
        assert(c[j] == rest[j]);
    } else {
        assert(c[j] == e.0);
        assert(parent_spec(e.0) == dir && e.0 != dir);
        crate::paths::lemma_last_index_of(e.0, '/');
        lemma_fs_max_len(v, v.len() - 1);
        let k = crate::paths::last_index_of(e.0, '/');
        if k == 0 {
            if e.0.len() == 1 {
                assert(e.0 =~= seq!['/']);
            }
        } else if k < 0 {
            if e.0.len() == 0 {
                assert(e.0 =~= dir);
            }
        } else {
            assert(dir.len() == k);
        }
    }
}

/// The number of times `c` occurs in `s`.
pub open spec fn count_char(s: Seq<char>, c: char) -> nat
    decreases s.len(),
{
    if s.len() == 0 {
        0
    } else {
        count_char(s.drop_last(), c) + if s.last() == c {
            1nat
        } else {
            0nat
        }
    }
}

/// Whether `q` lies strictly inside `dir`, at most `max_depth` components down.
pub open spec fn within_depth(q: Seq<char>, dir: Seq<char>, max_depth: nat) -> bool {
    match strip_prefix_spec(q, dir) {
        Some(rel) => rel.len() > 0 && count_char(rel, '/') + 1 <= max_depth,
        None => false,
    }
}

/// The paths of `v` strictly inside `dir`, at most `max_depth` components
/// down, in the order `v` holds them.
pub open spec fn descendants_spec(
    v: Seq<(Seq<char>, Option<Seq<char>>)>,
    dir: Seq<char>,
    max_depth: nat,
) -> Seq<Seq<char>> {
    v.filter_map(
        |e: (Seq<char>, Option<Seq<char>>)|
            if within_depth(e.0, dir, max_depth) {
                Some(e.0)
            } else {
                None
            },
    )
}

/// The directories that `create_dir_all(p)` makes: every leading run of `p`
/// that ends just before a `/` (but the empty one), and `p` itself.
pub open spec fn dir_prefixes(p: Seq<char>) -> Set<Seq<char>> {
    Set::new(
        |q: Seq<char>|
            q.len() > 0 && ((q == p) || (q.len() < p.len() && p.subrange(0, q.len() as int) == q
                && p[q.len() as int] == '/')),
    )
}

impl View for MemoryFileSystem {
    type V = Seq<(Seq<char>, Option<Seq<char>>)>;

    closed spec fn view(&self) -> Seq<(Seq<char>, Option<Seq<char>>)> {
        self.entries@.map_values(|e: FsEntry| entry_view(e))
    }
}

impl MemoryFileSystem {
    /// An empty file system.
    pub fn new() -> (r: Self)
        ensures
            r@ == Seq::<(Seq<char>, Option<Seq<char>>)>::empty(),
    {
        let r = MemoryFileSystem { entries: Vec::new() };
        assert(r@ =~= Seq::<(Seq<char>, Option<Seq<char>>)>::empty());
        r
    }

    /// The index of the entry for `p`, if there is one.
    fn find(&self, p: &str) -> (r: Option<usize>)
        ensures
            self@.len() == self.entries.len(),
            r matches Some(i) ==> i == fs_index(self@, p@) && i < self.entries.len() && self@[i as int]
                == entry_view(self.entries@[i as int]),
            r is None ==> !fs_has(self@, p@),
    {
        let mut i: usize = 0;
        while i < self.entries.len()
            invariant
                0 <= i <= self.entries.len(),
                self@.len() == self.entries.len(),
                forall|j: int| 0 <= j < i ==> self@[j].0 != p@,
            decreases self.entries.len() - i,
        {
            if str_eq(self.entries[i].path.as_str(), p) {
                proof {
                    lemma_fs_index_unique(self@, p@, i as int);
                }
                return Some(i);
            }
            i = i + 1;
        }
        proof {
            lemma_fs_index_unique(self@, p@, -1);
        }
        None
    }

    /// Whether `p` is a file or directory.
    pub fn path_exists(&self, p: &str) -> (r: bool)
        ensures
            r == fs_has(self@, p@),
    {
        self.find(p).is_some()
    }

    /// Whether `p` is a directory.
    pub fn is_dir(&self, p: &str) -> (r: bool)
        ensures
            r == fs_is_dir(self@, p@),
    {
        match self.find(p) {
            Some(i) => self.entries[i].contents.is_none(),
            None => false,
        }
    }

    /// Whether `p` is a file.
    pub fn is_file(&self, p: &str) -> (r: bool)
        ensures
            r == fs_is_file(self@, p@),
    {
        match self.find(p) {
            Some(i) => self.entries[i].contents.is_some(),
            None => false,
        }
    }

    /// The text of the file `p`.
    pub fn read_to_string(&self, p: &str) -> (r: Result<String, String>)
        ensures
            r is Ok <==> fs_is_file(self@, p@),
            r matches Ok(s) ==> fs_file(self@, p@) == Some(s@),
            r matches Err(e) ==> e@ == if fs_has(self@, p@) {
                "Not a file: "@ + p@
            } else {
                "File not found: "@ + p@
            },
    {
        match self.find(p) {
            Some(i) => match &self.entries[i].contents {
                Some(c) => Ok(c.clone()),
                None => Err(crate::text::concat("Not a file: ", p)),
            },
            None => Err(crate::text::concat("File not found: ", p)),
        }
    }

    /// The paths directly inside the directory `p`.
    pub fn read_dir(&self, p: &str) -> (r: Result<Vec<String>, String>)
        ensures
            r is Ok <==> fs_is_dir(self@, p@),
            r matches Ok(v) ==> v@.map_values(|s: String| s@) == children_spec(self@, p@),
            r matches Err(e) ==> e@ == "Not a directory: "@ + p@,
    {
        if !self.is_dir(p) {
            return Err(crate::text::concat("Not a directory: ", p));
        }
        let mut out: Vec<String> = Vec::new();
        let mut i: usize = 0;
        assert(self@.take(0) =~= Seq::<(Seq<char>, Option<Seq<char>>)>::empty());
        while i < self.entries.len()
            invariant
                0 <= i <= self.entries.len(),
                self@.len() == self.entries.len(),
                out@.map_values(|s: String| s@) == children_spec(self@.take(i as int), p@),
            decreases self.entries.len() - i,
        {
            let q = self.entries[i].path.as_str();
            assert(self@[i as int].0 == q@);
            assert(self@.take(i + 1).drop_last() =~= self@.take(i as int));
            let ghost prev = out@.map_values(|s: String| s@);
            let par = parent(q);
            let inside = str_eq(par.as_str(), p) && !str_eq(q, p);
            if inside {
                out.push(q.to_owned());
                assert(out@.map_values(|s: String| s@) =~= prev.push(q@));
            } else {
                assert(out@.map_values(|s: String| s@) =~= prev);
            }
            i = i + 1;
        }
        assert(self@.take(self@.len() as int) =~= self@);
        Ok(out)
    }

    /// The paths strictly inside the directory `p`, at most `max_depth`
    /// components down, in the order the file system holds them.
    pub fn walk_dir(&self, p: &str, max_depth: usize) -> (r: Result<Vec<String>, String>)
        ensures
            r is Ok <==> fs_is_dir(self@, p@),
            r matches Ok(v) ==> v@.map_values(|s: String| s@) == descendants_spec(
                self@,
                p@,
                max_depth as nat,
            ),
    {
        if !self.is_dir(p) {
            return Err(crate::text::concat("Not a directory: ", p));
        }
        let mut out: Vec<String> = Vec::new();
        let mut i: usize = 0;
        assert(self@.take(0) =~= Seq::<(Seq<char>, Option<Seq<char>>)>::empty());
        while i < self.entries.len()
            invariant
                0 <= i <= self.entries.len(),
                self@.len() == self.entries.len(),
                out@.map_values(|s: String| s@) == descendants_spec(
                    self@.take(i as int),
                    p@,
                    max_depth as nat,
                ),
            decreases self.entries.len() - i,
        {
            let q = self.entries[i].path.as_str();
            assert(self@[i as int].0 == q@);
            assert(self@.take(i + 1).drop_last() =~= self@.take(i as int));
            let ghost prev = out@.map_values(|s: String| s@);
            let inside = match strip_prefix(q, p) {
                Some(rel) => {
                    let n = count_slashes(rel.as_str());
                    rel.unicode_len() > 0 && n < max_depth
                },
                None => false,
            };
            if inside {
                out.push(q.to_owned());
                assert(out@.map_values(|s: String| s@) =~= prev.push(q@));
            } else {
                assert(out@.map_values(|s: String| s@) =~= prev);
            }
            i = i + 1;
        }
        assert(self@.take(self@.len() as int) =~= self@);
        Ok(out)
    }

    /// Makes `q` a directory unless it already is one; fails where `q` is a file.
    fn ensure_dir(&mut self, q: &str) -> (r: Result<(), String>)
        ensures
            r is Err <==> fs_is_file(old(self)@, q@),
            r is Err ==> final(self)@ == old(self)@,
            r is Ok && fs_has(old(self)@, q@) ==> final(self)@ == old(self)@,
            r is Ok && !fs_has(old(self)@, q@) ==> final(self)@ == old(self)@.push(
                (q@, None::<Seq<char>>),
            ),
            r is Ok ==> forall|x: Seq<char>|
                #![trigger fs_index(final(self)@, x)]
                {
                    &&& fs_has(final(self)@, x) == (fs_has(old(self)@, x) || x == q@)
                    &&& fs_is_dir(final(self)@, x) == (fs_is_dir(old(self)@, x) || x == q@)
                    &&& fs_file(final(self)@, x) == fs_file(old(self)@, x)
                },
    {
        match self.find(q) {
            Some(i) => {
                if self.entries[i].contents.is_some() {
                    Err(crate::text::concat("Not a directory: ", q))
                } else {
                    Ok(())
                }
            },
            None => {
                let e = FsEntry { path: q.to_owned(), contents: None };
                self.entries.push(e);
                assert(self@ =~= old(self)@.push((q@, None::<Seq<char>>)));
                proof {
                    assert forall|x: Seq<char>| #![trigger fs_index(self@, x)] {
                        &&& fs_has(self@, x) == (fs_has(old(self)@, x) || x == q@)
                        &&& fs_is_dir(self@, x) == (fs_is_dir(old(self)@, x) || x == q@)
                        &&& fs_file(self@, x) == fs_file(old(self)@, x)
                    } by {
                        lemma_fs_push(old(self)@, (q@, None::<Seq<char>>), x);
                        lemma_fs_index(old(self)@, x);
                    }
                }
                Ok(())
            },
        }
    }
}

impl MemoryFileSystem {
    /// Makes `p` and every directory above it, as `std::fs::create_dir_all`.
    /// Fails, changing nothing, where one of them is a file.
    pub fn create_dir_all(&mut self, p: &str) -> (r: Result<(), String>)
        ensures
            r is Ok <==> forall|q: Seq<char>|
                #[trigger] dir_prefixes(p@).contains(q) ==> !fs_is_file(old(self)@, q),
            r is Err ==> final(self)@ == old(self)@,
            r is Ok ==> forall|x: Seq<char>|
                #![trigger fs_index(final(self)@, x)]
                {
                    &&& fs_has(final(self)@, x) == (fs_has(old(self)@, x) || dir_prefixes(
                        p@,
                    ).contains(x))
                    &&& fs_is_dir(final(self)@, x) == (fs_is_dir(old(self)@, x) || dir_prefixes(
                        p@,
                    ).contains(x))
                    &&& fs_file(final(self)@, x) == fs_file(old(self)@, x)
                },
    {
        let cs = to_chars(p);
        let n = cs.len();
        // First make sure no directory to be made is a file.
        let mut i: usize = 1;
        while i < n
            invariant
                cs@ == p@,
                n == cs.len(),
                1 <= i <= n || n == 0,
                forall|q: Seq<char>|
                    #[trigger] dir_prefixes(p@).contains(q) && q.len() < i && q.len() < n
                        ==> !fs_is_file(self@, q),
            decreases n - i,
        {
            if cs[i] == '/' {
                let q = string_from_range(&cs, 0, i);
                if self.is_file(q.as_str()) {
                    assert(dir_prefixes(p@).contains(q@));
                    return Err(crate::text::concat("Not a directory: ", q.as_str()));
                }
            }
            assert forall|q: Seq<char>|
                #[trigger] dir_prefixes(p@).contains(q) && q.len() < i + 1 && q.len() < n
                    implies !fs_is_file(self@, q) by {
                if q.len() == i {
                    assert(q =~= cs@.subrange(0, i as int));
                }
            }
            i = i + 1;
        }
        if n > 0 && self.is_file(p) {
            assert(dir_prefixes(p@).contains(p@));
            return Err(crate::text::concat("Not a directory: ", p));
        }
        assert forall|q: Seq<char>| #[trigger] dir_prefixes(p@).contains(q) implies !fs_is_file(
            old(self)@,
            q,
        ) by {
            if q.len() < n {
            } else {
                assert(q == p@);
            }
        }
        // Then make them, outermost first.
        let ghost old_v = self@;
        let mut i: usize = 1;
        while i < n
            invariant
                cs@ == p@,
                n == cs.len(),
                1 <= i <= n || n == 0,
                forall|q: Seq<char>|
                    #[trigger] dir_prefixes(p@).contains(q) ==> !fs_is_file(old_v, q),
                forall|x: Seq<char>|
                    #![trigger fs_index(self@, x)]
                    {
                        &&& fs_has(self@, x) == (fs_has(old_v, x) || (dir_prefixes(p@).contains(x)
                            && x.len() < i && x.len() < n))
                        &&& fs_is_dir(self@, x) == (fs_is_dir(old_v, x) || (dir_prefixes(
                            p@,
                        ).contains(x) && x.len() < i && x.len() < n))
                        &&& fs_file(self@, x) == fs_file(old_v, x)
                    },
            decreases n - i,
        {
            let ghost before = self@;
            if cs[i] == '/' {
                let q = string_from_range(&cs, 0, i);
                assert(dir_prefixes(p@).contains(q@));
                let r = self.ensure_dir(q.as_str());
                assert(r is Ok) by {
                    assert(fs_file(before, q@) == fs_file(old_v, q@));
                }
                assert forall|x: Seq<char>| #![trigger fs_index(self@, x)] {
                    &&& fs_has(self@, x) == (fs_has(old_v, x) || (dir_prefixes(p@).contains(x)
                        && x.len() < i + 1 && x.len() < n))
                    &&& fs_is_dir(self@, x) == (fs_is_dir(old_v, x) || (dir_prefixes(p@).contains(
                        x,
                    ) && x.len() < i + 1 && x.len() < n))
                    &&& fs_file(self@, x) == fs_file(old_v, x)
                } by {
                    assert(fs_index(before, x) == fs_index(before, x));
                    if dir_prefixes(p@).contains(x) && x.len() == i {
                        assert(x =~= q@);
                    }
                    if x == q@ {
                        assert(x.len() == i);
                    }
                }
            } else {
                assert forall|x: Seq<char>| #![trigger fs_index(self@, x)] {
                    &&& fs_has(self@, x) == (fs_has(old_v, x) || (dir_prefixes(p@).contains(x)
                        && x.len() < i + 1 && x.len() < n))
                    &&& fs_is_dir(self@, x) == (fs_is_dir(old_v, x) || (dir_prefixes(p@).contains(
                        x,
                    ) && x.len() < i + 1 && x.len() < n))
                    &&& fs_file(self@, x) == fs_file(old_v, x)
                } by {
                    if dir_prefixes(p@).contains(x) && x.len() == i {
                        assert(p@[x.len() as int] == '/');
                    }
                }
            }
            i = i + 1;
        }
        if n > 0 {
            let ghost before = self@;
            let r = self.ensure_dir(p);
            assert(r is Ok) by {
                assert(dir_prefixes(p@).contains(p@));
                assert(fs_file(before, p@) == fs_file(old_v, p@));
            }
            assert forall|x: Seq<char>| #![trigger fs_index(self@, x)] {
                &&& fs_has(self@, x) == (fs_has(old_v, x) || dir_prefixes(p@).contains(x))
                &&& fs_is_dir(self@, x) == (fs_is_dir(old_v, x) || dir_prefixes(p@).contains(x))
                &&& fs_file(self@, x) == fs_file(old_v, x)
            } by {
                assert(fs_index(before, x) == fs_index(before, x));
                if dir_prefixes(p@).contains(x) && x.len() >= n {
                    assert(x == p@);
                }
            }
        } else {
            assert forall|x: Seq<char>| !dir_prefixes(p@).contains(x) by {}
        }
        Ok(())
    }

    /// Writes `contents` to the file `p`, as `std::fs::write`: the directory that
    /// holds `p` must exist, and `p` must not be a directory.
    pub fn write(&mut self, p: &str, contents: &str) -> (r: Result<(), String>)
        ensures
            r is Ok <==> (p@.len() > 0 && !fs_is_dir(old(self)@, p@) && (is_root(
                parent_spec(p@),
            ) || fs_is_dir(old(self)@, parent_spec(p@)))),
            r is Err ==> final(self)@ == old(self)@,
            r is Ok ==> fs_file(final(self)@, p@) == Some(contents@),
            r is Ok ==> forall|x: Seq<char>|
                #![trigger fs_index(final(self)@, x)]
                x != p@ ==> {
                    &&& fs_has(final(self)@, x) == fs_has(old(self)@, x)
                    &&& fs_is_dir(final(self)@, x) == fs_is_dir(old(self)@, x)
                    &&& fs_file(final(self)@, x) == fs_file(old(self)@, x)
                },
    {
        let cp = to_chars(p);
        if cp.len() == 0 || self.is_dir(p) {
            return Err(crate::text::concat("Cannot write to: ", p));
        }
        let par = parent(p);
        let pc = to_chars(par.as_str());
        let root = pc.len() == 0 || (pc.len() == 1 && pc[0] == '/');
        assert(root == is_root(par@)) by {
            if pc.len() == 1 && pc[0] == '/' {
                assert(par@ =~= seq!['/']);
            }
        }
        if !root && !self.is_dir(par.as_str()) {
            return Err(crate::text::concat("Parent directory not found for: ", p));
        }
        let e = FsEntry { path: p.to_owned(), contents: Some(contents.to_owned()) };
        match self.find(p) {
            Some(i) => {
                let ghost before = self@;
                proof {
                    lemma_fs_index(before, p@);
                }
                self.entries.set(i, e);
                assert(self@ =~= before.update(i as int, (p@, Some(contents@))));
                assert forall|x: Seq<char>| #![trigger fs_index(self@, x)] {
                    &&& fs_index(self@, x) == fs_index(before, x)
                } by {
                    lemma_fs_update(before, i as int, (p@, Some(contents@)), x);
                }
                assert(fs_index(self@, p@) == i);
                assert forall|x: Seq<char>| #![trigger fs_index(self@, x)] x != p@ implies {
                    &&& fs_has(self@, x) == fs_has(old(self)@, x)
                    &&& fs_is_dir(self@, x) == fs_is_dir(old(self)@, x)
                    &&& fs_file(self@, x) == fs_file(old(self)@, x)
                } by {
                    lemma_fs_index(before, x);
                    if fs_has(before, x) {
                        assert(fs_index(before, x) != i);
                    }
                }
            },
            None => {
                let ghost before = self@;
                self.entries.push(e);
                assert(self@ =~= before.push((p@, Some(contents@))));
                proof {
                    lemma_fs_push(before, (p@, Some(contents@)), p@);
                }
                assert forall|x: Seq<char>| #![trigger fs_index(self@, x)] x != p@ implies {
                    &&& fs_has(self@, x) == fs_has(old(self)@, x)
                    &&& fs_is_dir(self@, x) == fs_is_dir(old(self)@, x)
                    &&& fs_file(self@, x) == fs_file(old(self)@, x)
                } by {
                    lemma_fs_push(before, (p@, Some(contents@)), x);
                    lemma_fs_index(before, x);
                }
            },
        }
        Ok(())
    }
}

/// The number of `/` in `s`.
fn count_slashes(s: &str) -> (r: usize)
    ensures
        r == count_char(s@, '/'),
{
    let cs = to_chars(s);
    let mut n: usize = 0;
    let mut i: usize = 0;
    assert(cs@.take(0) =~= Seq::<char>::empty());
    while i < cs.len()
        invariant
            cs@ == s@,
            0 <= i <= cs.len(),
            n == count_char(cs@.take(i as int), '/'),
            n <= i,
        decreases cs.len() - i,
    {
        assert(cs@.take(i + 1).drop_last() =~= cs@.take(i as int));
        if cs[i] == '/' {
            n = n + 1;
        }
        i = i + 1;
    }
    assert(cs@.take(cs.len() as int) =~= cs@);
    n
}

} // verus!
