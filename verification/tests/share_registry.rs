use explorer::state::FileExplorerState;
use explorer::share::ShareError;
use explorer::AuthScheme;

fn expected_link(path: &str) -> String {
    format!("/shared/{:x}", md5::compute(path.as_bytes()))
}

#[test]
fn share_then_get_share_link_returns_link() {
    let mut st = FileExplorerState::new();
    let link = st.share_file("/docs/a.txt".to_string(), AuthScheme::Public);
    assert_eq!(link, expected_link("/docs/a.txt"));
    assert_eq!(st.get_share_link("/docs/a.txt".to_string()), Some(link));
}

#[test]
fn share_link_is_fixed_width_hex() {
    let mut st = FileExplorerState::new();
    let link = st.share_file("/x".to_string(), AuthScheme::Public);
    let id = link.strip_prefix("/shared/").expect("link must be prefixed");
    assert_eq!(id.len(), 32);
    assert!(id.chars().all(|c| c.is_ascii_hexdigit()));
}

#[test]
fn unshare_after_share_forgets_link() {
    let mut st = FileExplorerState::new();
    st.share_file("/docs/a.txt".to_string(), AuthScheme::Private);
    assert!(st.unshare_file("/docs/a.txt".to_string()));
    assert_eq!(st.get_share_link("/docs/a.txt".to_string()), None);
    assert!(!st.unshare_file("/docs/a.txt".to_string()));
}

#[test]
fn unshare_of_never_shared_path_is_false() {
    let mut st = FileExplorerState::new();
    assert!(!st.unshare_file("/nothing".to_string()));
    assert_eq!(st.get_share_link("/nothing".to_string()), None);
}

#[test]
fn resolve_public_share_yields_stored_bytes() {
    // The registry resolves the link to the original path; reading that path
    // from storage is the caller's one remaining step, played here by a map.
    let store: Vec<(String, Vec<u8>)> =
        vec![("/docs/a.txt".to_string(), b"hello bytes".to_vec())];
    let mut st = FileExplorerState::new();
    let link = st.share_file("/docs/a.txt".to_string(), AuthScheme::Public);
    let resolved = st.resolve_shared_file(Some(link.as_str())).expect("public share resolves");
    assert_eq!(resolved, "/docs/a.txt");
    let bytes = store
        .iter()
        .find(|(p, _)| *p == resolved)
        .map(|(_, c)| c.clone())
        .expect("resolved path is readable");
    assert_eq!(bytes, b"hello bytes".to_vec());
}

#[test]
fn resolve_private_share_is_denied() {
    let mut st = FileExplorerState::new();
    let link = st.share_file("/secret.txt".to_string(), AuthScheme::Private);
    let r = st.resolve_shared_file(Some(link.as_str()));
    assert_eq!(r, Err(ShareError::AccessDenied));
    assert_eq!(
        ShareError::AccessDenied.message(),
        "Access denied: Private file"
    );
}

#[test]
fn resolve_unknown_identifier_is_not_found() {
    let mut st = FileExplorerState::new();
    st.share_file("/other.txt".to_string(), AuthScheme::Public);
    let r = st.resolve_shared_file(Some("/shared/00000000000000000000000000000000"));
    assert_eq!(r, Err(ShareError::NotFound));
    assert_eq!(
        ShareError::NotFound.message(),
        "File not found or not shared"
    );
}

#[test]
fn resolve_missing_or_malformed_request_is_invalid() {
    let st = FileExplorerState::new();
    assert_eq!(st.resolve_shared_file(None), Err(ShareError::InvalidRequest));
    assert_eq!(
        st.resolve_shared_file(Some("/files/a.txt")),
        Err(ShareError::InvalidRequest)
    );
    assert_eq!(
        ShareError::InvalidRequest.message(),
        "Invalid shared file path"
    );
}

#[test]
fn reshare_overwrites_policy_without_duplicating() {
    let mut st = FileExplorerState::new();
    let link = st.share_file("/doc".to_string(), AuthScheme::Public);
    let link2 = st.share_file("/doc".to_string(), AuthScheme::Private);
    assert_eq!(link, link2);
    assert_eq!(
        st.resolve_shared_file(Some(link.as_str())),
        Err(ShareError::AccessDenied)
    );
    // One row, not two: a single unshare empties the registry for the path.
    assert!(st.unshare_file("/doc".to_string()));
    assert!(!st.unshare_file("/doc".to_string()));
}

#[test]
fn current_directory_starts_at_root_and_echoes_sets() {
    let mut st = FileExplorerState::new();
    assert_eq!(st.get_current_directory(), "/");
    let echoed = st.set_current_directory("/drive/docs".to_string());
    assert_eq!(echoed, "/drive/docs");
    assert_eq!(st.get_current_directory(), "/drive/docs");
}
