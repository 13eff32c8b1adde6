use std::collections::HashMap;

use raddy::compress::{compress, Algo};
use raddy::fs::{
    resolve_canonicalized, resolve_index, resolve_index_probed, resolve_probed, resolve_request, serve_file,
    serve_request, serve_resolved, ResolveAction, ServeAction,
};
use raddy::path::{contains_parent_segment, join_path, split_segments, strip_leading_slashes, within};

/// A file system model: canonical form of each existing path, and whether it
/// is a directory.
struct FakeFs {
    entries: HashMap<String, (String, bool)>,
}

impl FakeFs {
    fn new(entries: &[(&str, &str, bool)]) -> FakeFs {
        FakeFs {
            entries: entries
                .iter()
                .map(|(p, c, d)| (p.to_string(), (c.to_string(), *d)))
                .collect(),
        }
    }

    fn canonicalize(&self, p: &str) -> Option<String> {
        self.entries.get(p).map(|(c, _)| c.clone())
    }

    fn is_dir(&self, p: &str) -> bool {
        self.entries.values().any(|(c, d)| c == p && *d)
    }
}

/// Run the resolution steps against a model file system.
fn resolve(fs: &FakeFs, root: &str, request_path: &str) -> Option<String> {
    let mut action = resolve_request(root, request_path);
    loop {
        action = match action {
            ResolveAction::Finish(r) => return r,
            ResolveAction::Canonicalize { root, candidate } => {
                resolve_canonicalized(fs.canonicalize(&root), fs.canonicalize(&candidate))
            }
            ResolveAction::ProbeDirectory { canonical_root, canonical } => {
                let is_dir = fs.is_dir(&canonical);
                resolve_probed(canonical_root, canonical, is_dir)
            }
            ResolveAction::CanonicalizeIndex { canonical_root, index } => {
                resolve_index(&canonical_root, fs.canonicalize(&index))
            }
            ResolveAction::ProbeIndex { index } => {
                let is_dir = fs.is_dir(&index);
                resolve_index_probed(index, is_dir)
            }
        }
    }
}

#[test]
fn traversal_is_rejected() {
    assert!(matches!(resolve_request("/tmp", "/../../etc/passwd"), ResolveAction::Finish(None)));
    assert!(matches!(resolve_request("/tmp", "/a/../b"), ResolveAction::Finish(None)));
    assert!(matches!(resolve_request("/tmp", "/.."), ResolveAction::Finish(None)));
}

#[test]
fn missing_and_valid_paths() {
    let fs = FakeFs::new(&[("/srv", "/srv", true), ("/srv/", "/srv", true)]);
    // A non-existent path under an existing root resolves to None.
    assert_eq!(resolve(&fs, "/srv", "/definitely_missing_raddy_file"), None);
    // The root itself is a directory with no index.html → None.
    assert_eq!(resolve(&fs, "/srv", "/"), None);
}

#[test]
fn files_and_directory_indexes_resolve() {
    let fs = FakeFs::new(&[
        ("/srv", "/srv", true),
        ("/srv/static/hello.txt", "/srv/static/hello.txt", false),
        ("/srv/static/", "/srv/static", true),
        ("/srv/static", "/srv/static", true),
        ("/srv/static/index.html", "/srv/static/index.html", false),
    ]);
    assert_eq!(resolve(&fs, "/srv", "/static/hello.txt"), Some("/srv/static/hello.txt".to_string()));
    assert_eq!(resolve(&fs, "/srv", "//static/hello.txt"), Some("/srv/static/hello.txt".to_string()));
    assert_eq!(resolve(&fs, "/srv", "/static/"), Some("/srv/static/index.html".to_string()));
    assert_eq!(resolve(&fs, "/srv", "/static"), Some("/srv/static/index.html".to_string()));
    assert_eq!(resolve(&fs, "/srv", "/static/nope.txt"), None);
    assert_eq!(resolve(&fs, "/srv", "/static/../../etc/passwd"), None);
}

#[test]
fn an_index_that_is_a_directory_does_not_resolve() {
    let fs = FakeFs::new(&[
        ("/srv", "/srv", true),
        ("/srv/site", "/srv/site", true),
        ("/srv/site/index.html", "/srv/site/index.html", true),
    ]);
    assert!(matches!(
        resolve_index("/srv", Some("/srv/site/index.html".to_string())),
        ResolveAction::ProbeIndex { .. }
    ));
    assert!(matches!(
        resolve_index_probed("/srv/site/index.html".to_string(), true),
        ResolveAction::Finish(None)
    ));
    assert_eq!(resolve(&fs, "/srv", "/site"), None);
}

#[test]
fn symlinks_out_of_the_root_are_refused() {
    let fs = FakeFs::new(&[
        ("/srv", "/srv", true),
        ("/srv/link", "/etc/passwd", false),
        ("/srv/sibling", "/srvx/file", false),
        ("/srv/dir", "/srv/dir", true),
        ("/srv/dir/index.html", "/etc/index.html", false),
    ]);
    assert_eq!(resolve(&fs, "/srv", "/link"), None);
    // `/srvx` is not under `/srv`: comparison is by components, not text.
    assert_eq!(resolve(&fs, "/srv", "/sibling"), None);
    assert_eq!(resolve(&fs, "/srv", "/dir"), None);
}

#[test]
fn path_text_helpers() {
    assert_eq!(split_segments("/a//b/"), vec!["", "a", "", "b", ""]);
    assert_eq!(split_segments(""), vec![""]);
    assert!(contains_parent_segment("a/.."));
    assert!(!contains_parent_segment("a/...b/..c"));
    assert_eq!(strip_leading_slashes("///a/b"), "a/b");
    assert_eq!(strip_leading_slashes("a"), "a");
    assert_eq!(join_path("/srv", "a"), "/srv/a");
    assert_eq!(join_path("/srv/", "a"), "/srv/a");
    assert_eq!(join_path("", "a"), "a");
    assert_eq!(join_path("/srv", ""), "/srv/");
    assert_eq!(join_path("/srv", "/etc"), "/etc");
    assert!(within("/srv/a", "/srv"));
    assert!(within("/srv", "/srv/"));
    assert!(within("/srv/./a", "/srv/"));
    assert!(!within("/srvx", "/srv"));
    assert!(!within("srv/a", "/srv"));
    assert!(within("./a/b", "./a"));
    assert!(!within("a/b", "./a"));
    assert!(within("/anything", "/"));
}

#[test]
fn only_get_and_head_are_served() {
    assert!(matches!(serve_request("GET"), ServeAction::Resolve { head: false }));
    assert!(matches!(serve_request("HEAD"), ServeAction::Resolve { head: true }));
    assert!(matches!(serve_request("POST"), ServeAction::RespondError { status: 405 }));
    assert!(matches!(serve_request("get"), ServeAction::RespondError { status: 405 }));
}

#[test]
fn unresolved_or_unreadable_is_404() {
    assert!(matches!(serve_resolved(false, None), ServeAction::RespondError { status: 404 }));
    match serve_resolved(true, Some("/srv/a".to_string())) {
        ServeAction::ReadFile { head, path } => {
            assert!(head);
            assert_eq!(path, "/srv/a");
        }
        _ => panic!("expected a file read"),
    }
    assert!(matches!(serve_file(false, "/srv/a", None, None), ServeAction::RespondError { status: 404 }));
}

#[test]
fn file_responses() {
    let body = b"hello compressible compressible compressible".to_vec();
    match serve_file(false, "/srv/hello.txt", Some(body.clone()), None) {
        ServeAction::Respond(resp) => {
            assert_eq!(resp.status, 200);
            assert_eq!(resp.content_type, "text/plain");
            assert_eq!(resp.content_encoding, None);
            assert_eq!(resp.content_length, body.len());
            assert_eq!(resp.body, body);
            assert!(!resp.end_of_stream);
        }
        _ => panic!("expected a response"),
    }
    match serve_file(false, "/srv/hello.txt", Some(body.clone()), Some(Algo::Gzip)) {
        ServeAction::Respond(resp) => {
            assert_eq!(resp.content_encoding, Some(Algo::Gzip));
            assert_eq!(resp.body, compress(Algo::Gzip, &body));
            assert_ne!(resp.body, body);
            assert_eq!(resp.content_length, resp.body.len());
        }
        _ => panic!("expected a response"),
    }
    match serve_file(true, "/srv/index.html", Some(body.clone()), None) {
        ServeAction::Respond(resp) => {
            assert_eq!(resp.content_type, "text/html");
            assert!(resp.end_of_stream);
        }
        _ => panic!("expected a response"),
    }
    match serve_file(false, "/srv/blob", Some(Vec::new()), None) {
        ServeAction::Respond(resp) => {
            assert_eq!(resp.content_type, "application/octet-stream");
            assert_eq!(resp.content_length, 0);
            assert!(resp.end_of_stream);
        }
        _ => panic!("expected a response"),
    }
}
