//! Process-wide service state: the share registry (one row per shared path,
//! re-sharing overwrites the row's policy in place) and the caller's current
//! working directory. The registry is modelled two ways: as the ordered
//! sequence of `(path, scheme)` rows, which resolution scans, and as the map
//! it induces, on which the share operations are stated.
use vstd::prelude::*;
use crate::AuthScheme;
use crate::share::ShareError;
use crate::share::compute_share_id;
use crate::share::first_match;
use crate::share::resolve_result;
use crate::share::share_link_of;
use crate::share::share_id_of;
use vstd::string::StringExecFns;

verus! {

/// One share registry row: a path and the policy it was shared under.
pub struct ShareEntry {
    pub path: String,
    pub auth: AuthScheme,
}

/// The map a registry sequence induces: later rows win, though with unique
/// paths no two rows compete.
pub open spec fn map_of(s: Seq<(Seq<char>, AuthScheme)>) -> Map<Seq<char>, AuthScheme>
    decreases s.len(),
{
    if s.len() == 0 {
        Map::empty()
    } else {
        map_of(s.drop_last()).insert(s.last().0, s.last().1)
    }
}

/// The index of the first row for `p`, if any.
pub open spec fn path_index(s: Seq<(Seq<char>, AuthScheme)>, p: Seq<char>) -> Option<int>
    decreases s.len(),
{
    if s.len() == 0 {
        None
    } else if s.first().0 == p {
        Some(0)
    } else {
        match path_index(s.drop_first(), p) {
            Option::None => Option::None,
            Option::Some(i) => Option::Some(i + 1),
        }
    }
}

/// How a share reshapes the registry sequence: overwrite the row for the
/// path in place, or append a fresh row.
pub open spec fn seq_share(
    s: Seq<(Seq<char>, AuthScheme)>,
    p: Seq<char>,
    a: AuthScheme,
) -> Seq<(Seq<char>, AuthScheme)> {
    match path_index(s, p) {
        Option::None => s.push((p, a)),
        Option::Some(i) => s.update(i, (p, a)),
    }
}

/// How an unshare reshapes the registry sequence: drop the row for the path,
/// if there is one.
pub open spec fn seq_unshare(
    s: Seq<(Seq<char>, AuthScheme)>,
    p: Seq<char>,
) -> Seq<(Seq<char>, AuthScheme)> {
    match path_index(s, p) {
        Option::None => s,
        Option::Some(i) => s.remove(i),
    }
}

/// What a link lookup yields on a registry map: the path's link when it is
/// shared, nothing otherwise.
pub open spec fn link_lookup(m: Map<Seq<char>, AuthScheme>, p: Seq<char>) -> Option<Seq<char>> {
    if m.contains_key(p) {
        Some(share_link_of(p))
    } else {
        None
    }
}

/// No path occurs on two rows.
pub open spec fn unique_paths(s: Seq<(Seq<char>, AuthScheme)>) -> bool {
    forall|i: int, j: int| 0 <= i < j < s.len() ==> (#[trigger] s[i]).0 != (#[trigger] s[j]).0
}

/// Service state: the share registry and the current working directory. The
/// working directory is accepted as given at set time; no existence check is
/// performed against storage.
pub struct FileExplorerState {
    shared: Vec<ShareEntry>,
    cwd: String,
}

impl FileExplorerState {
    /// Registry rows in order: `(path, scheme)`.
    pub closed spec fn shares(self) -> Seq<(Seq<char>, AuthScheme)> {
        self.shared@.map_values(|e: ShareEntry| (e.path@, e.auth))
    }

    /// The registry as a map from shared path to its policy.
    pub open spec fn share_map(self) -> Map<Seq<char>, AuthScheme> {
        map_of(self.shares())
    }

    /// The caller's current working directory.
    pub closed spec fn current_dir(self) -> Seq<char> {
        self.cwd@
    }

    /// Registry rows never repeat a path.
    pub open spec fn wf(self) -> bool {
        unique_paths(self.shares())
    }

    /// A fresh service: nothing shared, working directory at the root.
    pub fn new() -> (s: Self)
        ensures
            s.wf(),
            s.shares() == Seq::<(Seq<char>, AuthScheme)>::empty(),
            s.current_dir() == "/"@,
    {
        let s = FileExplorerState { shared: Vec::new(), cwd: "/".to_owned() };
        proof {
            assert(s.shares() =~= Seq::<(Seq<char>, AuthScheme)>::empty());
        }
        s
    }

    /// Share `path` under `auth` and return its link. Overwrites the policy
    /// when the path is already shared; never checks that the path exists on
    /// storage, so sharing a nonexistent path succeeds.
    pub fn share_file(&mut self, path: String, auth: AuthScheme) -> (r: String)
        requires
            old(self).wf(),
        ensures
            final(self).wf(),
            r@ == share_link_of(path@),
            final(self).shares() == seq_share(old(self).shares(), path@, auth),
            final(self).share_map() == old(self).share_map().insert(path@, auth),
            final(self).current_dir() == old(self).current_dir(),
    {
        let id = compute_share_id(path.as_str());
        let mut link = "/shared/".to_owned();
        link.append(id.as_str());
        let ghost s0 = self.shares();
        let n = self.shared.len();
        let mut i: usize = 0;
        while i < n
            invariant
                old(self) == self,
                s0 == self.shares(),
                unique_paths(s0),
                n == self.shared@.len(),
                0 <= i <= n,
                forall|j: int| 0 <= j < i ==> (#[trigger] s0[j]).0 != path@,
                link@ == share_link_of(path@),
            decreases n - i,
        {
            proof {
                assert(s0[i as int] == (self.shared@[i as int].path@, self.shared@[i as int].auth));
            }
            if self.shared[i].path == path {
                self.shared[i] = ShareEntry { path, auth };
                proof {
                    lemma_path_index_found(s0, path@, i as int);
                    assert(self.shares() =~= s0.update(i as int, (path@, auth)));
                    lemma_unique_paths_update(s0, i as int, path@, auth);
                    lemma_map_of_update(s0, i as int, path@, auth);
                }
                return link;
            }
            i += 1;
        }
        self.shared.push(ShareEntry { path, auth });
        proof {
            lemma_path_index_missing(s0, path@);
            assert(self.shares() =~= s0.push((path@, auth)));
            assert(self.shares().drop_last() =~= s0);
            lemma_map_of_contains(s0, path@);
            assert forall|x: int, y: int|
                0 <= x < y < self.shares().len() implies (#[trigger] self.shares()[x]).0 != (
            #[trigger] self.shares()[y]).0 by {
                if y == self.shares().len() - 1 {
                    assert(self.shares()[x] == s0[x]);
                }
            }
        }
        link
    }

    /// Remove `path` from the registry; report whether an entry existed.
    /// Absence is not an error, it is a `false` result.
    pub fn unshare_file(&mut self, path: String) -> (r: bool)
        requires
            old(self).wf(),
        ensures
            final(self).wf(),
            r == old(self).share_map().contains_key(path@),
            final(self).shares() == seq_unshare(old(self).shares(), path@),
            final(self).share_map() == old(self).share_map().remove(path@),
            final(self).current_dir() == old(self).current_dir(),
    {
        let ghost s0 = self.shares();
        proof {
            lemma_map_of_contains(s0, path@);
        }
        let n = self.shared.len();
        let mut i: usize = 0;
        while i < n
            invariant
                old(self) == self,
                s0 == self.shares(),
                unique_paths(s0),
                n == self.shared@.len(),
                0 <= i <= n,
                forall|j: int| 0 <= j < i ==> (#[trigger] s0[j]).0 != path@,
            decreases n - i,
        {
            proof {
                assert(s0[i as int] == (self.shared@[i as int].path@, self.shared@[i as int].auth));
            }
            if self.shared[i].path == path {
                proof {
                    lemma_map_of_contains(s0, path@);
                    assert(0 <= i < s0.len() && (#[trigger] s0[i as int]).0 == path@);
                }
                self.shared.remove(i);
                proof {
                    lemma_path_index_found(s0, path@, i as int);
                    assert(self.shares() =~= s0.remove(i as int));
                    lemma_unique_paths_remove(s0, i as int);
                    lemma_map_of_remove(s0, i as int, path@);
                }
                return true;
            }
            i += 1;
        }
        proof {
            lemma_path_index_missing(s0, path@);
            lemma_map_of_remove_absent(s0, path@);
            lemma_map_of_contains(s0, path@);
        }
        false
    }

    /// The link `path` is currently served under, if it is shared. A pure
    /// lookup: the identifier is recomputed, never stored.
    pub fn get_share_link(&self, path: String) -> (r: Option<String>)
        ensures
            match r {
                Some(link) => link_lookup(self.share_map(), path@) == Some(link@),
                None => link_lookup(self.share_map(), path@) is None,
            },
    {
        proof {
            lemma_map_of_contains(self.shares(), path@);
        }
        let n = self.shared.len();
        let mut i: usize = 0;
        while i < n
            invariant
                n == self.shared@.len(),
                0 <= i <= n,
                forall|j: int| 0 <= j < i ==> (#[trigger] self.shares()[j]).0 != path@,
            decreases n - i,
        {
            proof {
                assert(self.shares()[i as int] == (
                    self.shared@[i as int].path@,
                    self.shared@[i as int].auth,
                ));
            }
            if self.shared[i].path == path {
                proof {
                    lemma_map_of_contains(self.shares(), path@);
                    assert(0 <= i < self.shares().len() && (#[trigger] self.shares()[i as int]).0
                        == path@);
                }
                let id = compute_share_id(path.as_str());
                let mut link = "/shared/".to_owned();
                link.append(id.as_str());
                return Some(link);
            }
            i += 1;
        }
        proof {
            lemma_map_of_contains(self.shares(), path@);
        }
        None
    }

    /// Resolve an inbound share request. Yields the original path of the
    /// first `Public` entry whose identifier matches, so the caller can read
    /// and return its bytes; every failure is reported by kind.
    pub fn resolve_shared_file(&self, request_path: Option<&str>) -> (r: Result<String, ShareError>)
        ensures
            resolve_result(self.shares(), opt_view(request_path)) == (match r {
                Result::Ok(p) => Result::<Seq<char>, ShareError>::Ok(p@),
                Result::Err(e) => Result::<Seq<char>, ShareError>::Err(e),
            }),
    {
        let req = match request_path {
            Option::None => {
                return Result::Err(ShareError::InvalidRequest);
            },
            Option::Some(req) => req,
        };
        let id = match crate::paths::strip_prefix_of(req, "/shared/") {
            Option::None => {
                return Result::Err(ShareError::InvalidRequest);
            },
            Option::Some(id) => id,
        };
        let ghost s = self.shares();
        proof {
            assert(s.skip(0) =~= s);
        }
        let n = self.shared.len();
        let mut i: usize = 0;
        while i < n
            invariant
                s == self.shares(),
                n == self.shared@.len(),
                0 <= i <= n,
                first_match(s, id@) == first_match(s.skip(i as int), id@),
                opt_view(request_path) == Some(req@),
                crate::paths::has_prefix(req@, "/shared/"@),
                id@ == req@.skip("/shared/"@.len() as int),
            decreases n - i,
        {
            proof {
                assert(s[i as int] == (self.shared@[i as int].path@, self.shared@[i as int].auth));
                assert(s.skip(i as int).first() == s[i as int]);
            }
            let entry_id = compute_share_id(self.shared[i].path.as_str());
            if entry_id == id {
                proof {
                    assert(first_match(s, id@) == Some(s[i as int]));
                }
                match self.shared[i].auth {
                    AuthScheme::Public => {
                        return Result::Ok(self.shared[i].path.clone());
                    },
                    AuthScheme::Private => {
                        return Result::Err(ShareError::AccessDenied);
                    },
                }
            }
            i += 1;
            proof {
                assert(s.skip(i - 1).drop_first() =~= s.skip(i as int));
            }
        }
        proof {
            assert(s.skip(n as int) =~= Seq::<(Seq<char>, AuthScheme)>::empty());
        }
        Result::Err(ShareError::NotFound)
    }

    /// The current working directory, as last set.
    pub fn get_current_directory(&self) -> (r: String)
        ensures
            r@ == self.current_dir(),
    {
        self.cwd.clone()
    }

    /// Set the current working directory and echo it back. The target is not
    /// checked against storage.
    pub fn set_current_directory(&mut self, path: String) -> (r: String)
        ensures
            final(self).current_dir() == path@,
            r@ == path@,
            final(self).shares() == old(self).shares(),
            old(self).wf() ==> final(self).wf(),
    {
        self.cwd = path.clone();
        path
    }
}

/// The view of an optional inbound request path.
pub open spec fn opt_view(o: Option<&str>) -> Option<Seq<char>> {
    match o {
        Option::None => Option::None,
        Option::Some(s) => Option::Some(s@),
    }
}

proof fn lemma_path_index_found(s: Seq<(Seq<char>, AuthScheme)>, p: Seq<char>, i: int)
    requires
        0 <= i < s.len(),
        s[i].0 == p,
        forall|j: int| 0 <= j < i ==> (#[trigger] s[j]).0 != p,
    ensures
        path_index(s, p) == Some(i),
    decreases s.len(),
{
    if i == 0 {
    } else {
        assert(s.first().0 != p);
        assert(s.drop_first()[i - 1] == s[i]);
        assert(forall|j: int| 0 <= j < i - 1 ==> (#[trigger] s.drop_first()[j]).0 != p);
        lemma_path_index_found(s.drop_first(), p, i - 1);
    }
}

proof fn lemma_path_index_missing(s: Seq<(Seq<char>, AuthScheme)>, p: Seq<char>)
    requires
        forall|j: int| 0 <= j < s.len() ==> (#[trigger] s[j]).0 != p,
    ensures
        path_index(s, p) is None,
    decreases s.len(),
{
    if s.len() > 0 {
        assert(forall|j: int| 0 <= j < s.len() - 1 ==> (#[trigger] s.drop_first()[j]).0 != p);
        lemma_path_index_missing(s.drop_first(), p);
    }
}

/// A key is in the induced map exactly when some row holds it.
pub proof fn lemma_map_of_contains(s: Seq<(Seq<char>, AuthScheme)>, p: Seq<char>)
    ensures
        map_of(s).contains_key(p) <==> exists|i: int| 0 <= i < s.len() && (#[trigger] s[i]).0 == p,
    decreases s.len(),
{
    if s.len() > 0 {
        let t = s.drop_last();
        lemma_map_of_contains(t, p);
        if s.last().0 == p {
            assert(s[s.len() - 1].0 == p);
        } else {
            if map_of(s).contains_key(p) {
                let i = choose|i: int| 0 <= i < t.len() && (#[trigger] t[i]).0 == p;
                assert(s[i].0 == p);
            }
            if exists|i: int| 0 <= i < s.len() && (#[trigger] s[i]).0 == p {
                let i = choose|i: int| 0 <= i < s.len() && (#[trigger] s[i]).0 == p;
                assert(i < s.len() - 1);
                assert(t[i].0 == p);
            }
        }
    }
}

proof fn lemma_unique_paths_update(s: Seq<(Seq<char>, AuthScheme)>, i: int, p: Seq<char>, a: AuthScheme)
    requires
        unique_paths(s),
        0 <= i < s.len(),
        s[i].0 == p,
    ensures
        unique_paths(s.update(i, (p, a))),
{
    let t = s.update(i, (p, a));
    assert forall|x: int, y: int| 0 <= x < y < t.len() implies (#[trigger] t[x]).0 != (
    #[trigger] t[y]).0 by {
        assert(s[x].0 != s[y].0);
    }
}

proof fn lemma_unique_paths_remove(s: Seq<(Seq<char>, AuthScheme)>, i: int)
    requires
        unique_paths(s),
        0 <= i < s.len(),
    ensures
        unique_paths(s.remove(i)),
{
    let t = s.remove(i);
    assert forall|x: int, y: int| 0 <= x < y < t.len() implies (#[trigger] t[x]).0 != (
    #[trigger] t[y]).0 by {
        let sx: int = if x < i { x } else { x + 1 };
        let sy: int = if y < i { y } else { y + 1 };
        assert(t[x] == s[sx]);
        assert(t[y] == s[sy]);
        assert(s[sx].0 != s[sy].0);
    }
}

/// Overwriting the row that holds a path updates the induced map at that
/// path alone.
proof fn lemma_map_of_update(s: Seq<(Seq<char>, AuthScheme)>, i: int, p: Seq<char>, a: AuthScheme)
    requires
        unique_paths(s),
        0 <= i < s.len(),
        s[i].0 == p,
    ensures
        map_of(s.update(i, (p, a))) == map_of(s).insert(p, a),
    decreases s.len(),
{
    let t = s.update(i, (p, a));
    if i == s.len() - 1 {
        assert(t.drop_last() =~= s.drop_last());
        assert(t.last() == (p, a));
        assert(s.last().0 == p);
        assert(map_of(t) == map_of(s.drop_last()).insert(p, a));
        assert(map_of(s.drop_last()).insert(p, s.last().1).insert(p, a) =~= map_of(
            s.drop_last(),
        ).insert(p, a));
    } else {
        assert(t.last() == s.last());
        assert(t.drop_last() =~= s.drop_last().update(i, (p, a)));
        assert(s.drop_last()[i] == s[i]);
        assert(forall|x: int, y: int|
            0 <= x < y < s.drop_last().len() ==> (#[trigger] s.drop_last()[x]).0 != (
            #[trigger] s.drop_last()[y]).0);
        lemma_map_of_update(s.drop_last(), i, p, a);
        assert(map_of(t) == map_of(s.drop_last()).insert(p, a).insert(s.last().0, s.last().1));
        assert(s.last().0 != p);
        assert(map_of(s.drop_last()).insert(p, a).insert(s.last().0, s.last().1) =~= map_of(
            s.drop_last(),
        ).insert(s.last().0, s.last().1).insert(p, a));
    }
}

/// Dropping the row that holds a path removes exactly that path from the
/// induced map.
proof fn lemma_map_of_remove(s: Seq<(Seq<char>, AuthScheme)>, i: int, p: Seq<char>)
    requires
        unique_paths(s),
        0 <= i < s.len(),
        s[i].0 == p,
    ensures
        map_of(s.remove(i)) == map_of(s).remove(p),
    decreases s.len(),
{
    let t = s.remove(i);
    if i == s.len() - 1 {
        assert(t =~= s.drop_last());
        assert(forall|j: int| 0 <= j < s.drop_last().len() ==> (#[trigger] s.drop_last()[j]).0
            != p);
        lemma_map_of_contains(s.drop_last(), p);
        assert(!map_of(s.drop_last()).contains_key(p));
        assert(map_of(s.drop_last()).insert(p, s.last().1).remove(p) =~= map_of(s.drop_last()));
    } else {
        assert(t.last() == s.last());
        assert(t.drop_last() =~= s.drop_last().remove(i));
        assert(s.drop_last()[i] == s[i]);
        assert(forall|x: int, y: int|
            0 <= x < y < s.drop_last().len() ==> (#[trigger] s.drop_last()[x]).0 != (
            #[trigger] s.drop_last()[y]).0);
        lemma_map_of_remove(s.drop_last(), i, p);
        assert(map_of(t) == map_of(s.drop_last()).remove(p).insert(s.last().0, s.last().1));
        assert(s.last().0 != p);
        assert(map_of(s.drop_last()).remove(p).insert(s.last().0, s.last().1) =~= map_of(
            s.drop_last(),
        ).insert(s.last().0, s.last().1).remove(p));
    }
}

/// Removing a path no row holds leaves the induced map unchanged.
proof fn lemma_map_of_remove_absent(s: Seq<(Seq<char>, AuthScheme)>, p: Seq<char>)
    requires
        forall|j: int| 0 <= j < s.len() ==> (#[trigger] s[j]).0 != p,
    ensures
        map_of(s).remove(p) == map_of(s),
{
    lemma_map_of_contains(s, p);
    assert(map_of(s).remove(p) =~= map_of(s));
}

/// Law: sharing a path and then asking for its link yields exactly
/// `/shared/` followed by the path's identifier, whatever was shared before.
pub proof fn lemma_share_then_link(m: Map<Seq<char>, AuthScheme>, p: Seq<char>, a: AuthScheme)
    ensures
        link_lookup(m.insert(p, a), p) == Some(share_link_of(p)),
        share_link_of(p) == "/shared/"@ + share_id_of(p),
{
}

/// Law: after a share of a path, an unshare of it reports that an entry
/// existed, and a link lookup after that unshare finds nothing.
pub proof fn lemma_unshare_after_share(m: Map<Seq<char>, AuthScheme>, p: Seq<char>, a: AuthScheme)
    ensures
        m.insert(p, a).contains_key(p),
        link_lookup(m.insert(p, a).remove(p), p) is None,
{
}

} // verus!
