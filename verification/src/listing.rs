//! Listing normalization: raw storage entries become uniform `FileInfo`
//! rows. A directory entry's size is the child count from a secondary
//! listing of it, and a failure of that secondary listing is tolerated (the
//! size falls back to zero); a failure to fetch a file entry's metadata
//! aborts the whole listing. That asymmetry is deliberate: one unreadable
//! sub-directory must not blank out an otherwise valid listing, while a
//! file whose metadata cannot be fetched leaves no honest size to report.
use vstd::prelude::*;
use crate::FileInfo;
use crate::FileInfoView;
use crate::paths::last_segment;
use crate::paths::last_segment_of;
use vstd::string::StringExecFns;

verus! {

/// What the storage gateway reported about one raw directory entry. Entry
/// paths arrive unrooted (no leading slash), as the gateway lists them.
pub enum EntryLookup {
    /// A sub-directory; `children` is its immediate child count from the
    /// secondary listing, or `None` when that listing failed.
    Dir { path: String, children: Option<u64> },
    /// A file; `len` is the outcome of its metadata fetch, an error message
    /// when that fetch failed.
    File { path: String, len: Result<u64, String> },
}

/// Mathematical image of an `EntryLookup`.
pub ghost enum EntryLookupView {
    Dir { path: Seq<char>, children: Option<u64> },
    File { path: Seq<char>, len: Result<u64, Seq<char>> },
}

impl View for EntryLookup {
    type V = EntryLookupView;

    open spec fn view(&self) -> EntryLookupView {
        match self {
            EntryLookup::Dir { path, children } => EntryLookupView::Dir {
                path: path@,
                children: *children,
            },
            EntryLookup::File { path, len } => EntryLookupView::File {
                path: path@,
                len: match len {
                    Result::Ok(n) => Result::Ok(*n),
                    Result::Err(m) => Result::Err(m@),
                },
            },
        }
    }
}

/// The views of a sequence of entries.
pub open spec fn entry_views(s: Seq<EntryLookup>) -> Seq<EntryLookupView> {
    s.map_values(|e: EntryLookup| e@)
}

/// The views of a sequence of rows.
pub open spec fn info_views(s: Seq<FileInfo>) -> Seq<FileInfoView> {
    s.map_values(|f: FileInfo| f@)
}

/// An entry whose metadata fetch failed: the one kind of entry that aborts a
/// listing.
pub open spec fn is_failed_file(e: EntryLookupView) -> bool {
    match e {
        EntryLookupView::File { len: Result::Err(_), .. } => true,
        _ => false,
    }
}

/// The row a successful listing reports for one entry: named after the final
/// path segment, rooted with a leading slash, sized by bytes for a file and
/// by child count for a directory (zero when the secondary listing failed),
/// timestamps unavailable and so zero.
pub open spec fn entry_info(e: EntryLookupView) -> FileInfoView {
    match e {
        EntryLookupView::Dir { path, children } => FileInfoView {
            name: last_segment(path),
            path: "/"@ + path,
            size: match children {
                Option::Some(n) => n,
                Option::None => 0,
            },
            created: 0,
            modified: 0,
            is_directory: true,
            permissions: "rw"@,
        },
        EntryLookupView::File { path, len } => FileInfoView {
            name: last_segment(path),
            path: "/"@ + path,
            size: match len {
                Result::Ok(n) => n,
                Result::Err(_) => 0,
            },
            created: 0,
            modified: 0,
            is_directory: false,
            permissions: "rw"@,
        },
    }
}

/// The message reported when a file entry's metadata fetch fails.
pub open spec fn metadata_error(path: Seq<char>, cause: Seq<char>) -> Seq<char> {
    "Failed to get metadata for "@ + path + ": "@ + cause
}

/// The listing aggregation policy, entry by entry in storage order: the
/// first file whose metadata fetch failed aborts with its message; otherwise
/// every entry yields its row.
pub open spec fn listing_result(entries: Seq<EntryLookupView>) -> Result<Seq<FileInfoView>, Seq<char>>
    decreases entries.len(),
{
    if entries.len() == 0 {
        Result::Ok(Seq::empty())
    } else {
        match entries.first() {
            EntryLookupView::File { path, len: Result::Err(m) } => Result::Err(
                metadata_error(path, m),
            ),
            e => match listing_result(entries.drop_first()) {
                Result::Ok(rest) => Result::Ok(seq![entry_info(e)] + rest),
                Result::Err(msg) => Result::Err(msg),
            },
        }
    }
}

/// Aggregate the gateway's per-entry results into the listing the caller
/// sees, or the error that aborts it.
pub fn build_listing(entries: Vec<EntryLookup>) -> (r: Result<Vec<FileInfo>, String>)
    ensures
        listing_result(entry_views(entries@)) == (match r {
            Result::Ok(infos) => Result::<Seq<FileInfoView>, Seq<char>>::Ok(info_views(infos@)),
            Result::Err(msg) => Result::<Seq<FileInfoView>, Seq<char>>::Err(msg@),
        }),
{
    let ghost all = entry_views(entries@);
    let mut files: Vec<FileInfo> = Vec::new();
    proof {
        assert(all.skip(0) =~= all);
        assert(info_views(files@) =~= Seq::<FileInfoView>::empty());
    }
    let n = entries.len();
    let mut k: usize = 0;
    while k < n
        invariant
            all == entry_views(entries@),
            n == entries@.len(),
            0 <= k <= n,
            info_views(files@).len() == k,
            listing_result(all) == (match listing_result(all.skip(k as int)) {
                Result::Ok(rest) => Result::<Seq<FileInfoView>, Seq<char>>::Ok(
                    info_views(files@) + rest,
                ),
                Result::Err(msg) => Result::<Seq<FileInfoView>, Seq<char>>::Err(msg),
            }),
        decreases n - k,
    {
        proof {
            assert(all[k as int] == entries@[k as int]@);
            assert(all.skip(k as int).first() == all[k as int]);
            assert(all.skip(k as int).drop_first() =~= all.skip(k as int + 1));
        }
        let info = match &entries[k] {
            EntryLookup::Dir { path, children } => {
                let name = last_segment_of(path.as_str());
                let mut rooted = "/".to_owned();
                rooted.append(path.as_str());
                let size = match children {
                    Option::Some(c) => *c,
                    Option::None => 0,
                };
                FileInfo {
                    name,
                    path: rooted,
                    size,
                    created: 0,
                    modified: 0,
                    is_directory: true,
                    permissions: "rw".to_owned(),
                }
            },
            EntryLookup::File { path, len } => {
                let size = match len {
                    Result::Ok(l) => *l,
                    Result::Err(cause) => {
                        let mut msg = "Failed to get metadata for ".to_owned();
                        msg.append(path.as_str());
                        msg.append(": ");
                        msg.append(cause.as_str());
                        return Result::Err(msg);
                    },
                };
                let name = last_segment_of(path.as_str());
                let mut rooted = "/".to_owned();
                rooted.append(path.as_str());
                FileInfo {
                    name,
                    path: rooted,
                    size,
                    created: 0,
                    modified: 0,
                    is_directory: false,
                    permissions: "rw".to_owned(),
                }
            },
        };
        proof {
            assert(info@ == entry_info(all[k as int]));
        }
        let ghost prev = files@;
        files.push(info);
        proof {
            let sk = all.skip(k as int);
            let sk1 = all.skip(k as int + 1);
            assert(listing_result(sk) == (match listing_result(sk1) {
                Result::Ok(rest) => Result::<Seq<FileInfoView>, Seq<char>>::Ok(
                    seq![entry_info(all[k as int])] + rest,
                ),
                Result::Err(m) => Result::<Seq<FileInfoView>, Seq<char>>::Err(m),
            }));
            assert(info_views(files@) =~= info_views(prev).push(info@));
            if listing_result(sk1) is Ok {
                let rest = listing_result(sk1)->Ok_0;
                assert(info_views(prev) + (seq![info@] + rest) =~= info_views(prev).push(info@)
                    + rest);
            }
        }
        k += 1;
    }
    proof {
        assert(all.skip(n as int) =~= Seq::<EntryLookupView>::empty());
        assert(info_views(files@) + Seq::<FileInfoView>::empty() =~= info_views(files@));
    }
    Result::Ok(files)
}

/// Every row a listing reports satisfies the `FileInfo` invariant: its path
/// is rooted and its name is the path's final segment.
pub proof fn lemma_entry_info_wf(e: EntryLookupView)
    ensures
        entry_info(e).wf(),
{
    reveal_strlit("/");
    match e {
        EntryLookupView::Dir { path, .. } => {
            crate::paths::lemma_last_segment_after_root(path);
            assert(("/"@ + path)[0] == '/');
        },
        EntryLookupView::File { path, .. } => {
            crate::paths::lemma_last_segment_after_root(path);
            assert(("/"@ + path)[0] == '/');
        },
    }
}

/// Law: a listing in which no file entry's metadata fetch failed succeeds,
/// whatever the sub-directory lookups did, and reports one row per entry; in
/// particular a sub-directory whose secondary listing failed still gets its
/// row, with size zero.
pub proof fn lemma_listing_tolerates_dir_failures(entries: Seq<EntryLookupView>)
    requires
        forall|i: int| 0 <= i < entries.len() ==> !is_failed_file(#[trigger] entries[i]),
    ensures
        listing_result(entries) == Result::<Seq<FileInfoView>, Seq<char>>::Ok(
            Seq::new(entries.len(), |i: int| entry_info(entries[i])),
        ),
        forall|i: int| 0 <= i < entries.len() ==> ((#[trigger] entries[i]) matches
            EntryLookupView::Dir { children: Option::None, .. } ==> entry_info(entries[i]).size
            == 0 && entry_info(entries[i]).is_directory),
    decreases entries.len(),
{
    if entries.len() == 0 {
        assert(listing_result(entries) == Result::<Seq<FileInfoView>, Seq<char>>::Ok(
            Seq::empty(),
        ));
        assert(Seq::new(entries.len(), |i: int| entry_info(entries[i])) =~= Seq::<
            FileInfoView,
        >::empty());
    } else {
        let t = entries.drop_first();
        assert(forall|i: int| 0 <= i < t.len() ==> #[trigger] t[i] == entries[i + 1]);
        lemma_listing_tolerates_dir_failures(t);
        assert(!is_failed_file(entries[0]));
        assert(entries.first() == entries[0]);
        assert(seq![entry_info(entries.first())] + Seq::new(t.len(), |i: int| entry_info(t[i]))
            =~= Seq::new(entries.len(), |i: int| entry_info(entries[i])));
    }
}

} // verus!
