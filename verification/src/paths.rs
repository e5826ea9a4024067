//! Path arithmetic shared by the listing normalizer and the operation facade:
//! extracting the final segment of a slash-separated path, prefix stripping
//! for the share endpoint, and the root normalization applied before listing.
use vstd::prelude::*;
use vstd::string::StrSliceExecFns;
use vstd::string::StringExecFns;

verus! {

/// The characters after the last `/` of `s`, or all of `s` when it holds no
/// `/`. This is what splitting on `/` and keeping the last piece yields, so
/// the segment after a trailing slash is empty.
pub open spec fn last_segment(s: Seq<char>) -> Seq<char>
    decreases s.len(),
{
    if s.len() == 0 {
        s
    } else if s.last() == '/' {
        Seq::empty()
    } else {
        last_segment(s.drop_last()).push(s.last())
    }
}

proof fn lemma_last_segment_is_suffix(s: Seq<char>, start: int)
    requires
        0 <= start <= s.len(),
        forall|j: int| start <= j < s.len() ==> s[j] != '/',
        start == 0 || s[start - 1] == '/',
    ensures
        last_segment(s) == s.subrange(start, s.len() as int),
    decreases s.len(),
{
    if start == s.len() {
        if start == 0 {
            assert(last_segment(s) =~= s.subrange(0, 0));
        } else {
            assert(s.last() == '/');
            assert(last_segment(s) =~= s.subrange(start, s.len() as int));
        }
    } else {
        assert(s.last() != '/');
        lemma_last_segment_is_suffix(s.drop_last(), start);
        assert(last_segment(s) =~= s.subrange(start, s.len() as int));
    }
}

/// Rooting a path with a leading slash never changes its final segment.
pub proof fn lemma_last_segment_after_root(s: Seq<char>)
    ensures
        last_segment("/"@ + s) == last_segment(s),
    decreases s.len(),
{
    reveal_strlit("/");
    let t = "/"@ + s;
    if s.len() == 0 {
        assert(t =~= "/"@);
        assert(t.last() == '/');
        assert(last_segment(s) =~= Seq::<char>::empty());
    } else {
        assert(t.last() == s.last());
        assert(t.drop_last() =~= "/"@ + s.drop_last());
        lemma_last_segment_after_root(s.drop_last());
    }
}

/// The final `/`-separated segment of `path`.
pub fn last_segment_of(path: &str) -> (r: String)
    ensures
        r@ == last_segment(path@),
{
    let n = path.unicode_len();
    let mut start: usize = 0;
    let mut i: usize = 0;
    while i < n
        invariant
            n == path@.len(),
            0 <= start <= i <= n,
            forall|j: int| start <= j < i ==> path@[j] != '/',
            start == 0 || path@[start - 1] == '/',
        decreases n - i,
    {
        if path.get_char(i) == '/' {
            start = i + 1;
        }
        i += 1;
    }
    proof {
        lemma_last_segment_is_suffix(path@, start as int);
    }
    let seg = path.substring_char(start, n);
    seg.to_owned()
}

/// `p` is an initial run of `s`.
pub open spec fn has_prefix(s: Seq<char>, p: Seq<char>) -> bool {
    p.len() <= s.len() && s.subrange(0, p.len() as int) == p
}

/// What remains of `s` after `prefix`, when `s` begins with it.
pub fn strip_prefix_of(s: &str, prefix: &str) -> (r: Option<String>)
    ensures
        match r {
            Some(rest) => has_prefix(s@, prefix@) && rest@ == s@.skip(prefix@.len() as int),
            None => !has_prefix(s@, prefix@),
        },
{
    let n = prefix.unicode_len();
    let m = s.unicode_len();
    if m < n {
        return None;
    }
    let mut i: usize = 0;
    while i < n
        invariant
            n == prefix@.len(),
            m == s@.len(),
            n <= m,
            0 <= i <= n,
            forall|j: int| 0 <= j < i ==> s@[j] == prefix@[j],
        decreases n - i,
    {
        if s.get_char(i) != prefix.get_char(i) {
            proof {
                if has_prefix(s@, prefix@) {
                    assert(s@.subrange(0, prefix@.len() as int)[i as int] == s@[i as int]);
                }
            }
            return None;
        }
        i += 1;
    }
    proof {
        assert(s@.subrange(0, prefix@.len() as int) =~= prefix@);
    }
    let rest = s.substring_char(n, m);
    proof {
        assert(s@.subrange(n as int, m as int) =~= s@.skip(n as int));
    }
    Some(rest.to_owned())
}

/// The storage path an uploaded file lands at: the directory, a slash, the
/// file name.
pub fn upload_path(dir: &str, filename: &str) -> (r: String)
    ensures
        r@ == dir@ + "/"@ + filename@,
{
    let mut r = dir.to_owned();
    r.append("/");
    r.append(filename);
    r
}

/// Listing treats an empty path as the filesystem root; every other path
/// (including `/` itself) is taken as given.
pub open spec fn normalize_root(s: Seq<char>) -> Seq<char> {
    if s.len() == 0 {
        "/"@
    } else {
        s
    }
}

/// The path actually listed for a caller-supplied one.
pub fn normalize_list_path(path: &str) -> (r: String)
    ensures
        r@ == normalize_root(path@),
{
    if path.is_empty() {
        "/".to_owned()
    } else {
        path.to_owned()
    }
}

} // verus!
