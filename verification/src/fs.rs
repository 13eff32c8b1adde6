//! Static file serving for the `file_server` directive.
//!
//! Serving alternates file-system work with decisions, so the decisions stand
//! here as steps: each takes what the previous step asked for and answers
//! with the next thing to do. The caller performs the file-system work
//! (canonicalizing paths, probing for directories, reading files) and the
//! response I/O.
//!
//! A request path resolves under the site root, guarded against directory
//! traversal: a path with a `..` segment is refused outright, and a path whose
//! canonical form leaves the canonical root is refused too. A directory
//! resolves to its `index.html`, unless that is itself a directory: only a
//! file is served.
use vstd::prelude::*;

use crate::compress::{compress, compressed, Algo};
use crate::path::{
    contains_parent_segment, dot_dot_at, has_parent_segment, join, join_path,
    law_join, law_parent_segment_is_dot_dot_between_slashes, lemma_leading_slashes,
    path_starts_with, strip_leading_slashes, trim_leading_slashes, within,
};

verus! {

/// The name of the file a directory resolves to.
pub open spec fn index_name() -> Seq<char> {
    "index.html"@
}

/// The next thing to do while resolving a request path.
pub enum ResolveAction {
    /// Resolution is over: the path to serve, or none.
    Finish(Option<String>),
    /// Canonicalize `root` and `candidate`, then call [`resolve_canonicalized`]
    /// with the results (`None` for a path that does not canonicalize).
    Canonicalize { root: String, candidate: String },
    /// Learn whether `canonical` is a directory, then call [`resolve_probed`].
    ProbeDirectory { canonical_root: String, canonical: String },
    /// Canonicalize `index`, then call [`resolve_index`].
    CanonicalizeIndex { canonical_root: String, index: String },
    /// Learn whether the canonical `index` is a directory, then call
    /// [`resolve_index_probed`].
    ProbeIndex { index: String },
}

/// The mathematical value of a [`ResolveAction`].
pub enum ResolveStep {
    Finish(Option<Seq<char>>),
    Canonicalize { root: Seq<char>, candidate: Seq<char> },
    ProbeDirectory { canonical_root: Seq<char>, canonical: Seq<char> },
    CanonicalizeIndex { canonical_root: Seq<char>, index: Seq<char> },
    ProbeIndex { index: Seq<char> },
}

pub open spec fn opt_text(o: Option<String>) -> Option<Seq<char>> {
    match o {
        Some(s) => Some(s@),
        None => None,
    }
}

impl View for ResolveAction {
    type V = ResolveStep;

    open spec fn view(&self) -> ResolveStep {
        match self {
            ResolveAction::Finish(r) => ResolveStep::Finish(opt_text(*r)),
            ResolveAction::Canonicalize { root, candidate } => ResolveStep::Canonicalize {
                root: root@,
                candidate: candidate@,
            },
            ResolveAction::ProbeDirectory { canonical_root, canonical } =>
                ResolveStep::ProbeDirectory { canonical_root: canonical_root@, canonical: canonical@ },
            ResolveAction::CanonicalizeIndex { canonical_root, index } =>
                ResolveStep::CanonicalizeIndex { canonical_root: canonical_root@, index: index@ },
            ResolveAction::ProbeIndex { index } => ResolveStep::ProbeIndex { index: index@ },
        }
    }
}

/// The first step for `request_path` under `root`.
pub open spec fn step_request(root: Seq<char>, request_path: Seq<char>) -> ResolveStep {
    if has_parent_segment(request_path) {
        ResolveStep::Finish(None)
    } else {
        ResolveStep::Canonicalize {
            root,
            candidate: join(root, trim_leading_slashes(request_path)),
        }
    }
}

/// The step after canonicalizing the root and the candidate.
pub open spec fn step_canonicalized(
    canonical_root: Option<Seq<char>>,
    canonical: Option<Seq<char>>,
) -> ResolveStep {
    match (canonical_root, canonical) {
        (Some(cr), Some(c)) => if path_starts_with(c, cr) {
            ResolveStep::ProbeDirectory { canonical_root: cr, canonical: c }
        } else {
            ResolveStep::Finish(None)
        },
        _ => ResolveStep::Finish(None),
    }
}

/// The step after probing whether the candidate is a directory.
pub open spec fn step_probed(canonical_root: Seq<char>, canonical: Seq<char>, is_dir: bool) -> ResolveStep {
    if is_dir {
        ResolveStep::CanonicalizeIndex { canonical_root, index: join(canonical, index_name()) }
    } else {
        ResolveStep::Finish(Some(canonical))
    }
}

/// The step after canonicalizing a directory's index.
pub open spec fn step_index(canonical_root: Seq<char>, index: Option<Seq<char>>) -> ResolveStep {
    match index {
        Some(i) => if path_starts_with(i, canonical_root) {
            ResolveStep::ProbeIndex { index: i }
        } else {
            ResolveStep::Finish(None)
        },
        None => ResolveStep::Finish(None),
    }
}

/// The step after probing whether a directory's canonical index is itself a
/// directory: only a file is served.
pub open spec fn step_index_probed(index: Seq<char>, is_dir: bool) -> ResolveStep {
    if is_dir {
        ResolveStep::Finish(None)
    } else {
        ResolveStep::Finish(Some(index))
    }
}

/// First step: the candidate path under `root` for `request_path`, unless a
/// segment of the request path is `..`.
pub fn resolve_request(root: &str, request_path: &str) -> (r: ResolveAction)
    ensures
        r@ == step_request(root@, request_path@),
{
    if contains_parent_segment(request_path) {
        return ResolveAction::Finish(None);
    }
    let rel = strip_leading_slashes(request_path);
    let candidate = join_path(root, rel.as_str());
    ResolveAction::Canonicalize { root: root.to_owned(), candidate }
}

/// The first step refuses a request path exactly when two dots stand in it
/// as a whole segment; any other request path is looked up under the root
/// as given: the root text, then one `/` unless the root is empty or already
/// ends with one, then the request path without its `k` leading slashes.
/// So `public` and `/style.css` give the candidate `public/style.css`, and
/// `/srv` and `/` give `/srv/`.
pub proof fn law_request_step(root: Seq<char>, request_path: Seq<char>, k: int)
    requires
        0 <= k <= request_path.len(),
        forall|j: int| 0 <= j < k ==> #[trigger] request_path[j] == '/',
        k == request_path.len() || request_path[k] != '/',
    ensures
        (exists|i: int| #[trigger] dot_dot_at(request_path, i)) ==> step_request(
            root,
            request_path,
        ) == ResolveStep::Finish(None),
        (forall|i: int| !#[trigger] dot_dot_at(request_path, i)) ==> step_request(
            root,
            request_path,
        ) == (ResolveStep::Canonicalize {
            root,
            candidate: root + (if root.len() > 0 && root.last() != '/' {
                seq!['/']
            } else {
                Seq::empty()
            }) + request_path.skip(k),
        }),
{
    law_parent_segment_is_dot_dot_between_slashes(request_path);
    lemma_leading_slashes(request_path, k);
    let rel = request_path.skip(k);
    if rel.len() > 0 {
        assert(rel[0] == request_path[k]);
    }
    law_join(root, rel);
    if root.len() > 0 && root.last() != '/' {
        assert(join(root, rel) == root + seq!['/'] + rel);
    } else {
        assert(root + Seq::<char>::empty() + rel =~= root + rel);
    }
}

/// Second step: given the canonical root and canonical candidate, refuse a
/// candidate outside the root; otherwise ask whether it is a directory.
pub fn resolve_canonicalized(canonical_root: Option<String>, canonical: Option<String>) -> (r:
    ResolveAction)
    ensures
        r@ == step_canonicalized(opt_text(canonical_root), opt_text(canonical)),
{
    match (canonical_root, canonical) {
        (Some(cr), Some(c)) => {
            if within(c.as_str(), cr.as_str()) {
                ResolveAction::ProbeDirectory { canonical_root: cr, canonical: c }
            } else {
                ResolveAction::Finish(None)
            }
        },
        _ => ResolveAction::Finish(None),
    }
}

/// Third step: a file resolves to itself; a directory to its `index.html`,
/// which is canonicalized next.
pub fn resolve_probed(canonical_root: String, canonical: String, is_dir: bool) -> (r:
    ResolveAction)
    ensures
        r@ == step_probed(canonical_root@, canonical@, is_dir),
{
    if is_dir {
        let index = join_path(canonical.as_str(), "index.html");
        ResolveAction::CanonicalizeIndex { canonical_root, index }
    } else {
        ResolveAction::Finish(Some(canonical))
    }
}

/// Fourth step for a directory: its canonical index, kept only when it lies
/// under the canonical root; whether it is a file is asked next.
pub fn resolve_index(canonical_root: &str, index: Option<String>) -> (r: ResolveAction)
    ensures
        r@ == step_index(canonical_root@, opt_text(index)),
{
    match index {
        Some(i) => {
            if within(i.as_str(), canonical_root) {
                ResolveAction::ProbeIndex { index: i }
            } else {
                ResolveAction::Finish(None)
            }
        },
        None => ResolveAction::Finish(None),
    }
}

/// Last step for a directory: its index is served only when it is not itself
/// a directory.
pub fn resolve_index_probed(index: String, is_dir: bool) -> (r: ResolveAction)
    ensures
        r@ == step_index_probed(index@, is_dir),
{
    if is_dir {
        ResolveAction::Finish(None)
    } else {
        ResolveAction::Finish(Some(index))
    }
}

/// Where following the steps from `step` leads, on a file system whose
/// canonicalization is `canon` (`None` for a path that does not exist) and
/// whose directories are those where `is_dir` holds, within `fuel` steps.
pub open spec fn follow(
    step: ResolveStep,
    canon: spec_fn(Seq<char>) -> Option<Seq<char>>,
    is_dir: spec_fn(Seq<char>) -> bool,
    fuel: nat,
) -> Option<Seq<char>>
    decreases fuel,
{
    if fuel == 0 {
        None
    } else {
        match step {
            ResolveStep::Finish(r) => r,
            ResolveStep::Canonicalize { root, candidate } => follow(
                step_canonicalized(canon(root), canon(candidate)),
                canon,
                is_dir,
                (fuel - 1) as nat,
            ),
            ResolveStep::ProbeDirectory { canonical_root, canonical } => follow(
                step_probed(canonical_root, canonical, is_dir(canonical)),
                canon,
                is_dir,
                (fuel - 1) as nat,
            ),
            ResolveStep::CanonicalizeIndex { canonical_root, index } => follow(
                step_index(canonical_root, canon(index)),
                canon,
                is_dir,
                (fuel - 1) as nat,
            ),
            ResolveStep::ProbeIndex { index } => follow(
                step_index_probed(index, is_dir(index)),
                canon,
                is_dir,
                (fuel - 1) as nat,
            ),
        }
    }
}

/// What resolving `request_path` under `root` gives on a file system whose
/// canonicalization is `canon` and whose directories are those where
/// `is_dir` holds: refuse a `..` segment, canonicalize the root and the
/// candidate under it, refuse a candidate outside the root, and serve a file
/// as itself and a directory as its `index.html` (if that lies under the
/// root and is not itself a directory).
pub open spec fn resolution(
    root: Seq<char>,
    request_path: Seq<char>,
    canon: spec_fn(Seq<char>) -> Option<Seq<char>>,
    is_dir: spec_fn(Seq<char>) -> bool,
) -> Option<Seq<char>> {
    if has_parent_segment(request_path) {
        None
    } else {
        let candidate = join(root, trim_leading_slashes(request_path));
        match (canon(root), canon(candidate)) {
            (Some(cr), Some(c)) => if !path_starts_with(c, cr) {
                None
            } else if is_dir(c) {
                match canon(join(c, index_name())) {
                    Some(i) => if path_starts_with(i, cr) && !is_dir(i) {
                        Some(i)
                    } else {
                        None
                    },
                    None => None,
                }
            } else {
                Some(c)
            },
            _ => None,
        }
    }
}

/// The steps resolve as [`resolution`] says: starting from
/// [`resolve_request`] and answering each step with the file system's
/// answer, resolution ends within five steps with [`resolution`]'s result.
pub proof fn law_steps_follow_resolution(
    root: Seq<char>,
    request_path: Seq<char>,
    canon: spec_fn(Seq<char>) -> Option<Seq<char>>,
    is_dir: spec_fn(Seq<char>) -> bool,
)
    ensures
        follow(step_request(root, request_path), canon, is_dir, 5) == resolution(
            root,
            request_path,
            canon,
            is_dir,
        ),
{
    reveal_with_fuel(follow, 6);
}

/// Resolution never escapes the root: whatever the file system, a request
/// path that resolves resolves to a path whose components begin with those
/// of the canonical root.
pub proof fn law_resolution_stays_under_root(
    root: Seq<char>,
    request_path: Seq<char>,
    canon: spec_fn(Seq<char>) -> Option<Seq<char>>,
    is_dir: spec_fn(Seq<char>) -> bool,
)
    ensures
        resolution(root, request_path, canon, is_dir) matches Some(p) ==> (canon(root) matches Some(
            cr,
        ) && path_starts_with(p, cr)),
{
}

/// A request path with a `..` segment never resolves, whatever the file
/// system holds.
pub proof fn law_parent_segment_never_resolves(
    root: Seq<char>,
    request_path: Seq<char>,
    canon: spec_fn(Seq<char>) -> Option<Seq<char>>,
    is_dir: spec_fn(Seq<char>) -> bool,
)
    requires
        has_parent_segment(request_path),
    ensures
        resolution(root, request_path, canon, is_dir) is None,
{
}

/// The MIME type `mime_guess` guesses for a path from its extension, with
/// `application/octet-stream` when it knows none.
pub uninterp spec fn guessed_mime(path: Seq<char>) -> Seq<char>;

/// `mime_guess::from_path(path).first_or_octet_stream()`, as text. The guess
/// depends on the path's extension alone.
#[verifier::external_body]
fn mime_type_for_path(path: &str) -> (r: String)
    ensures
        r@ == guessed_mime(path@),
{
    mime_guess::from_path(path).first_or_octet_stream().as_ref().to_owned()
}

/// A `200` response for a served file.
pub struct FileResponse {
    pub status: u16,
    /// The `Content-Type` value.
    pub content_type: String,
    /// The `Content-Encoding`, when the body is compressed.
    pub content_encoding: Option<Algo>,
    /// The `Content-Length` value: the length of `body`.
    pub content_length: usize,
    pub body: Vec<u8>,
    /// Whether the response ends with its header (a `HEAD` request, or an
    /// empty body); otherwise `body` follows and ends the stream.
    pub end_of_stream: bool,
}

/// The next thing to do while serving a request.
pub enum ServeAction {
    /// Answer with an error status.
    RespondError { status: u16 },
    /// Resolve the request path (see [`resolve_request`]), then call
    /// [`serve_resolved`]. `head` records whether the request is a `HEAD`.
    Resolve { head: bool },
    /// Read the file at `path`, then call [`serve_file`].
    ReadFile { head: bool, path: String },
    /// Send this response.
    Respond(FileResponse),
}

pub open spec fn get_method() -> Seq<char> {
    "GET"@
}

pub open spec fn head_method() -> Seq<char> {
    "HEAD"@
}

/// Whether `s` is the text `lit`.
fn is_text(s: &str, lit: &str) -> (r: bool)
    ensures
        r == (s@ == lit@),
{
    let s2 = s.to_owned();
    let l2 = lit.to_owned();
    s2.eq(&l2)
}

/// First step: only `GET` and `HEAD` are served; any other method is
/// answered `405`.
pub fn serve_request(method: &str) -> (r: ServeAction)
    ensures
        if method@ == get_method() {
            r matches ServeAction::Resolve { head } && !head
        } else if method@ == head_method() {
            r matches ServeAction::Resolve { head } && head
        } else {
            r matches ServeAction::RespondError { status } && status == 405
        },
{
    if is_text(method, "GET") {
        ServeAction::Resolve { head: false }
    } else if is_text(method, "HEAD") {
        ServeAction::Resolve { head: true }
    } else {
        ServeAction::RespondError { status: 405 }
    }
}

/// Second step: a request path that resolves to nothing is answered `404`;
/// otherwise the resolved file is read.
pub fn serve_resolved(head: bool, resolved: Option<String>) -> (r: ServeAction)
    ensures
        match resolved {
            None => r matches ServeAction::RespondError { status } && status == 404,
            Some(p) => r matches ServeAction::ReadFile { head: h, path } && h == head && path@
                == p@,
        },
{
    match resolved {
        None => ServeAction::RespondError { status: 404 },
        Some(path) => ServeAction::ReadFile { head, path },
    }
}

/// The body sent for `bytes` when the response encoding is `algo`: the
/// bytes compressed with it (see [`compressed`]), or the bytes themselves
/// when no encoding was chosen.
pub open spec fn body_for(algo: Option<Algo>, bytes: Seq<u8>, body: Seq<u8>) -> bool {
    match algo {
        Some(a) => compressed(a, bytes, body),
        None => body == bytes,
    }
}

/// Last step: a file that could not be read is answered `404`; otherwise the
/// response carries the guessed MIME type, the chosen encoding and the
/// length of the (possibly compressed) body, and ends with its header for a
/// `HEAD` request or an empty body.
pub fn serve_file(head: bool, path: &str, contents: Option<Vec<u8>>, algo: Option<Algo>) -> (r:
    ServeAction)
    ensures
        match contents {
            None => r matches ServeAction::RespondError { status } && status == 404,
            Some(bytes) => r matches ServeAction::Respond(resp) && {
                &&& resp.status == 200
                &&& resp.content_type@ == guessed_mime(path@)
                &&& resp.content_encoding == algo
                &&& body_for(algo, bytes@, resp.body@)
                &&& resp.content_length == resp.body@.len()
                &&& resp.end_of_stream == (head || resp.body@.len() == 0)
            },
        },
{
    let bytes = match contents {
        None => return ServeAction::RespondError { status: 404 },
        Some(bytes) => bytes,
    };
    let mime = mime_type_for_path(path);
    let body = match algo {
        Some(a) => compress(a, bytes.as_slice()),
        None => bytes,
    };
    let len = body.len();
    ServeAction::Respond(
        FileResponse {
            status: 200,
            content_type: mime,
            content_encoding: algo,
            content_length: len,
            body,
            end_of_stream: head || len == 0,
        },
    )
}

} // verus!
