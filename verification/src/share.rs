//! Share identifiers and the resolution policy. A shared path is exposed
//! under `/shared/<id>`, where `<id>` is a deterministic content hash of the
//! path; resolution scans the registry in order, recomputing each entry's
//! identifier, and gates the match by its access policy. Hash collisions
//! between two shared paths are not disambiguated: the first match in
//! registry order wins.
use vstd::prelude::*;
use crate::AuthScheme;

verus! {

/// The identifier derived from a path: the digest of the path's bytes,
/// rendered in fixed-width hexadecimal. Deterministic, so it names the
/// digest's value rather than spelling the algorithm out.
pub uninterp spec fn share_id_of(path: Seq<char>) -> Seq<char>;

/// Relies on `md5::compute` and the `LowerHex` rendering of `md5::Digest`:
/// the digest is a function of the input bytes alone, and prints as exactly
/// two hexadecimal characters per digest byte, 32 in all.
#[verifier::external_body]
pub(crate) fn compute_share_id(path: &str) -> (r: String)
    ensures
        r@ == share_id_of(path@),
        r@.len() == 32,
{
    format!("{:x}", md5::compute(path.as_bytes()))
}

/// The link under which a shared path is served.
pub open spec fn share_link_of(path: Seq<char>) -> Seq<char> {
    "/shared/"@ + share_id_of(path)
}

/// Why a share resolution failed.
#[derive(Debug, Clone, Copy, PartialEq, Eq, Structural)]
pub enum ShareError {
    /// The inbound request path was missing or did not name a share.
    InvalidRequest,
    /// No registry entry's identifier matches the requested one.
    NotFound,
    /// The matching entry is `Private`: always denied through the share
    /// endpoint, whoever asks.
    AccessDenied,
}

impl ShareError {
    /// The message the service reports for this failure.
    pub fn message(&self) -> (r: String)
        ensures
            r@ == match *self {
                ShareError::InvalidRequest => "Invalid shared file path"@,
                ShareError::NotFound => "File not found or not shared"@,
                ShareError::AccessDenied => "Access denied: Private file"@,
            },
    {
        match self {
            ShareError::InvalidRequest => "Invalid shared file path".to_owned(),
            ShareError::NotFound => "File not found or not shared".to_owned(),
            ShareError::AccessDenied => "Access denied: Private file".to_owned(),
        }
    }
}

/// The first registry entry, in registry order, whose derived identifier is
/// `id`.
pub open spec fn first_match(
    entries: Seq<(Seq<char>, AuthScheme)>,
    id: Seq<char>,
) -> Option<(Seq<char>, AuthScheme)>
    decreases entries.len(),
{
    if entries.len() == 0 {
        None
    } else if share_id_of(entries.first().0) == id {
        Some(entries.first())
    } else {
        first_match(entries.drop_first(), id)
    }
}

/// What resolving an inbound request path against the registry yields: a
/// missing or unprefixed path is an invalid request; an identifier no entry
/// matches is not found; a `Private` match is denied; a `Public` match
/// yields the entry's original path, which the caller then reads.
pub open spec fn resolve_result(
    entries: Seq<(Seq<char>, AuthScheme)>,
    request_path: Option<Seq<char>>,
) -> Result<Seq<char>, ShareError> {
    match request_path {
        Option::None => Result::Err(ShareError::InvalidRequest),
        Option::Some(req) => if !crate::paths::has_prefix(req, "/shared/"@) {
            Result::Err(ShareError::InvalidRequest)
        } else {
            match first_match(entries, req.skip("/shared/"@.len() as int)) {
                Option::None => Result::Err(ShareError::NotFound),
                Option::Some(e) => match e.1 {
                    AuthScheme::Public => Result::Ok(e.0),
                    AuthScheme::Private => Result::Err(ShareError::AccessDenied),
                },
            }
        },
    }
}

/// No entry matches `id` exactly when every entry's identifier differs from
/// it.
pub proof fn lemma_first_match_none(entries: Seq<(Seq<char>, AuthScheme)>, id: Seq<char>)
    ensures
        first_match(entries, id) is None <==> (forall|i: int|
            0 <= i < entries.len() ==> share_id_of(#[trigger] entries[i].0) != id),
    decreases entries.len(),
{
    if entries.len() > 0 {
        let t = entries.drop_first();
        lemma_first_match_none(t, id);
        if share_id_of(entries.first().0) == id {
            assert(entries[0] == entries.first());
            assert(!(forall|i: int|
                0 <= i < entries.len() ==> share_id_of(#[trigger] entries[i].0) != id));
        } else if first_match(t, id) is None {
            assert forall|i: int|
                0 <= i < entries.len() implies share_id_of(#[trigger] entries[i].0) != id by {
                if i > 0 {
                    assert(t[i - 1] == entries[i]);
                }
            }
        } else {
            let j = choose|j: int| !(0 <= j < t.len() ==> share_id_of(#[trigger] t[j].0) != id);
            assert(t[j] == entries[j + 1]);
            assert(share_id_of(entries[j + 1].0) == id);
        }
    }
}

/// Law: resolving the link of a path whose identifier the registry first
/// matches with a `Public` entry for that same path yields exactly that
/// path, which the share endpoint then reads. (When a distinct, earlier
/// shared path collides on the identifier, the first match wins instead.)
pub proof fn lemma_resolve_public(entries: Seq<(Seq<char>, AuthScheme)>, p: Seq<char>)
    ensures
        first_match(entries, share_id_of(p)) == Some((p, AuthScheme::Public))
            ==> resolve_result(entries, Some(share_link_of(p)))
                == Result::<Seq<char>, ShareError>::Ok(p),
{
    lemma_resolve_of_link(entries, p);
}

/// Law: resolving the link of a path whose identifier the registry first
/// matches with a `Private` entry fails with access denied; content is never
/// returned for it.
pub proof fn lemma_resolve_private(entries: Seq<(Seq<char>, AuthScheme)>, p: Seq<char>)
    ensures
        first_match(entries, share_id_of(p)) == Some((p, AuthScheme::Private))
            ==> resolve_result(entries, Some(share_link_of(p)))
                == Result::<Seq<char>, ShareError>::Err(ShareError::AccessDenied),
{
    lemma_resolve_of_link(entries, p);
}

/// Law: a well-formed share request whose identifier no registry entry
/// matches fails with not-found.
pub proof fn lemma_resolve_unknown_id(entries: Seq<(Seq<char>, AuthScheme)>, id: Seq<char>)
    ensures
        first_match(entries, id) is None ==> resolve_result(entries, Some("/shared/"@ + id))
            == Result::<Seq<char>, ShareError>::Err(ShareError::NotFound),
{
    lemma_link_parses(id);
}

/// A share link always parses back to the identifier it was built from.
proof fn lemma_link_parses(id: Seq<char>)
    ensures
        crate::paths::has_prefix("/shared/"@ + id, "/shared/"@),
        ("/shared/"@ + id).skip("/shared/"@.len() as int) == id,
{
    let req = "/shared/"@ + id;
    assert(req.subrange(0, "/shared/"@.len() as int) =~= "/shared/"@);
    assert(req.skip("/shared/"@.len() as int) =~= id);
}

proof fn lemma_resolve_of_link(entries: Seq<(Seq<char>, AuthScheme)>, p: Seq<char>)
    ensures
        resolve_result(entries, Some(share_link_of(p))) == match first_match(
            entries,
            share_id_of(p),
        ) {
            Option::None => Result::<Seq<char>, ShareError>::Err(ShareError::NotFound),
            Option::Some(e) => match e.1 {
                AuthScheme::Public => Result::<Seq<char>, ShareError>::Ok(e.0),
                AuthScheme::Private => Result::<Seq<char>, ShareError>::Err(
                    ShareError::AccessDenied,
                ),
            },
        },
{
    lemma_link_parses(share_id_of(p));
}

} // verus!
