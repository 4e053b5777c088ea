//! The rpm registry: which requests on a hosted repository are answered, how,
//! and what they do to storage in which order.

use vstd::prelude::*;

use crate::rpm_package::{self, PackageError, RpmHeader};
use crate::rpm_record::{self, Pkg, PkgRecord};
use crate::text;

verus! {

/// The key of a package.
pub open spec fn package_path(repo: Seq<char>, path: Seq<char>) -> Seq<char> {
    "rpm/"@ + repo + "/"@ + path
}

/// The key of a package's sidecar.
pub open spec fn sidecar_path(repo: Seq<char>, path: Seq<char>) -> Seq<char> {
    "rpm/"@ + repo + "/.nora-meta/"@ + path + ".json"@
}

/// The name of a repository: a single visible segment in ASCII.
pub open spec fn repo_ok(repo: Seq<char>) -> bool {
    repo.len() > 0 && vstd::utf8::is_ascii_chars(repo) && !text::has(repo, "/"@)
        && !"."@.is_prefix_of(repo)
}

/// Some segment of the path is empty or hidden.
pub open spec fn has_bad_segment(path: Seq<char>) -> bool {
    exists|i: int|
        0 <= i < text::pieces(path, '/').len() && (#[trigger] text::pieces(path, '/')[i].len() == 0
            || "."@.is_prefix_of(text::pieces(path, '/')[i]))
}

/// What is wrong with the repository or the path of a package operation.
pub open spec fn path_error(repo: Seq<char>, path: Seq<char>) -> Option<Seq<char>> {
    if !repo_ok(repo) {
        Some("Invalid repository name"@)
    } else if !vstd::utf8::is_ascii_chars(path) || text::has(path, ".."@) || text::has(
        path,
        "\0"@,
    ) || "/"@.is_prefix_of(path) {
        Some("Invalid path"@)
    } else if !text::ends_ci(path, ".rpm"@) {
        Some("Only .rpm files can be published"@)
    } else if has_bad_segment(path) {
        Some("Invalid path"@)
    } else if "repodata/"@.is_prefix_of(path) {
        Some("repodata/ is server-generated"@)
    } else {
        None
    }
}

/// The media type of a path.
pub open spec fn media_type(path: Seq<char>) -> Seq<char> {
    if ".rpm"@.is_suffix_of(path) {
        "application/x-rpm"@
    } else if ".xml"@.is_suffix_of(path) {
        "application/xml"@
    } else if ".xml.gz"@.is_suffix_of(path) {
        "application/gzip"@
    } else {
        "application/octet-stream"@
    }
}

/// The path is a package's, whose content never changes.
pub open spec fn is_package(path: Seq<char>) -> bool {
    text::ends_ci(path, ".rpm"@) || text::ends_ci(path, ".drpm"@)
}

/// The key of a package.
pub fn package_key(repo: &str, path: &str) -> (r: String)
    ensures
        r@ == package_path(repo@, path@),
{
    text::concat4("rpm/", repo, "/", path)
}

/// The key of a package's sidecar.
pub fn sidecar_key(repo: &str, path: &str) -> (r: String)
    ensures
        r@ == sidecar_path(repo@, path@),
{
    let mut r = text::concat4("rpm/", repo, "/.nora-meta/", path);
    r.append(".json");
    r
}

/// The name of a repository is a single visible segment in ASCII.
pub fn valid_repo(repo: &str) -> (r: bool)
    ensures
        r == repo_ok(repo@),
{
    repo.unicode_len() > 0 && repo.is_ascii() && !text::contains(repo, "/") && !text::starts_with(
        repo,
        ".",
    )
}

fn bad_segment(path: &str) -> (r: bool)
    ensures
        r == has_bad_segment(path@),
{
    let parts = text::split(path, '/');
    let ghost all = text::pieces(path@, '/');
    let mut i: usize = 0;
    while i < parts.len()
        invariant
            i <= parts@.len(),
            all == text::pieces(path@, '/'),
            text::texts(parts@) == all,
            forall|k: int|
                0 <= k < i ==> !(#[trigger] all[k].len() == 0 || "."@.is_prefix_of(all[k])),
        decreases parts@.len() - i,
    {
        let part = parts[i].as_str();
        assert(text::texts(parts@)[i as int] == part@);
        if part.unicode_len() == 0 || text::starts_with(part, ".") {
            assert(all[i as int].len() == 0 || "."@.is_prefix_of(all[i as int]));
            return true;
        }
        i = i + 1;
    }
    assert(text::texts(parts@).len() == parts@.len());
    false
}

/// Validates the repository and the path of a package operation: a repository
/// of one segment, an `.rpm` path without hidden, empty or server-generated
/// parts.
pub fn validate_package_path(repo: &str, path: &str) -> (r: Result<(), &'static str>)
    ensures
        match r {
            Ok(_) => path_error(repo@, path@) is None,
            Err(e) => path_error(repo@, path@) == Some(e@),
        },
{
    if !valid_repo(repo) {
        return Err("Invalid repository name");
    }
    if !path.is_ascii() || text::contains(path, "..") || text::contains(path, "\0")
        || text::starts_with(path, "/") {
        return Err("Invalid path");
    }
    if !text::ends_with_ci(path, ".rpm") {
        return Err("Only .rpm files can be published");
    }
    if bad_segment(path) {
        return Err("Invalid path");
    }
    if text::starts_with(path, "repodata/") {
        return Err("repodata/ is server-generated");
    }
    Ok(())
}

/// The media type of a path.
pub fn content_type(path: &str) -> (r: &'static str)
    ensures
        r@ == media_type(path@),
{
    if text::ends_with(path, ".rpm") {
        "application/x-rpm"
    } else if text::ends_with(path, ".xml") {
        "application/xml"
    } else if text::ends_with(path, ".xml.gz") {
        "application/gzip"
    } else {
        "application/octet-stream"
    }
}

/// The first piece of a text starts as the text does.
proof fn lemma_first_piece(s: Seq<char>, c: char)
    requires
        s.len() > 0,
        s[0] != c,
    ensures
        text::pieces(s, c).len() > 0,
        text::pieces(s, c)[0].len() > 0,
        text::pieces(s, c)[0][0] == s[0],
    decreases s.len(),
{
    let front = s.drop_last();
    if s.len() == 1 {
        assert(front =~= Seq::<char>::empty());
        assert(text::pieces(front, c) =~= seq![Seq::<char>::empty()]);
    } else {
        assert(front[0] == s[0]);
        lemma_first_piece(front, c);
    }
}

/// A package that may be uploaded or deleted is never taken for a sidecar or
/// for a metadata file of its repository.
pub proof fn packages_stay_out_of_reserved_places(repo: Seq<char>, path: Seq<char>)
    requires
        path_error(repo, path) is None,
    ensures
        !(("rpm/"@ + repo + "/.nora-meta/"@).is_prefix_of(package_path(repo, path))),
        !(("rpm/"@ + repo + "/repodata/"@).is_prefix_of(package_path(repo, path))),
{
    reveal_strlit("rpm/");
    reveal_strlit("/");
    reveal_strlit(".");
    reveal_strlit("/.nora-meta/");
    reveal_strlit("/repodata/");
    reveal_strlit("repodata/");
    let key = package_path(repo, path);
    let n: int = 4 + repo.len() as int;
    assert(key.skip(n + 1) =~= path);
    if ("rpm/"@ + repo + "/.nora-meta/"@).is_prefix_of(key) {
        let p = "rpm/"@ + repo + "/.nora-meta/"@;
        assert(key.subrange(0, p.len() as int)[n + 1] == p[n + 1]);
        assert(path[0] == key[n + 1]);
        assert(path[0] == '.');
        lemma_first_piece(path, '/');
        let first = text::pieces(path, '/')[0];
        assert("."@ =~= first.subrange(0, 1));
        assert(has_bad_segment(path));
    }
    if ("rpm/"@ + repo + "/repodata/"@).is_prefix_of(key) {
        let p = "rpm/"@ + repo + "/repodata/"@;
        let head = key.subrange(0, p.len() as int);
        assert forall|i: int| 0 <= i < 9 implies path[i] == "repodata/"@[i] by {
            assert(head[n + 1 + i] == p[n + 1 + i]);
            assert(key[n + 1 + i] == path[i]);
        }
        assert(path.subrange(0, 9) =~= "repodata/"@);
    }
}

/// How a request is answered.
#[derive(Debug)]
pub enum Reply {
    /// Not found.
    NotFound,
    /// Not found, with a text.
    Missing(&'static str),
    /// The repository is a proxy and takes no changes.
    ProxiedConflict,
    /// Bad request.
    BadRequest,
    /// Bad request, with a text.
    Rejected(String),
    /// Outside the namespace that the caller may change.
    Forbidden,
    /// The body is too large.
    TooLarge(String),
    /// The package in storage cannot be indexed.
    Unprocessable(String),
    /// Internal error.
    ServerError,
    /// Internal error, with a text.
    Failed(&'static str),
    /// The package was stored.
    Created,
    /// The package was deleted.
    NoContent,
}

/// What a [`Reply`] holds.
pub enum Answer {
    NotFound,
    Missing(Seq<char>),
    ProxiedConflict,
    BadRequest,
    Rejected(Seq<char>),
    Forbidden,
    TooLarge(Seq<char>),
    Unprocessable(Seq<char>),
    ServerError,
    Failed(Seq<char>),
    Created,
    NoContent,
}

impl View for Reply {
    type V = Answer;

    open spec fn view(&self) -> Answer {
        match self {
            Reply::NotFound => Answer::NotFound,
            Reply::Missing(s) => Answer::Missing(s@),
            Reply::ProxiedConflict => Answer::ProxiedConflict,
            Reply::BadRequest => Answer::BadRequest,
            Reply::Rejected(s) => Answer::Rejected(s@),
            Reply::Forbidden => Answer::Forbidden,
            Reply::TooLarge(s) => Answer::TooLarge(s@),
            Reply::Unprocessable(s) => Answer::Unprocessable(s@),
            Reply::ServerError => Answer::ServerError,
            Reply::Failed(s) => Answer::Failed(s@),
            Reply::Created => Answer::Created,
            Reply::NoContent => Answer::NoContent,
        }
    }
}

/// Who asks for what kind of change, and whether it is allowed.
#[derive(Debug, Clone, Copy, PartialEq, Eq, Structural)]
pub struct Access {
    /// The rpm registry is enabled.
    pub enabled: bool,
    /// The repository is configured as a proxy.
    pub proxied: bool,
    /// The repository is within the caller's namespace.
    pub in_scope: bool,
}

/// Why a change to a package is refused, in this order: the registry is
/// disabled, the repository is a proxy, the path is wrong, the caller may not.
pub open spec fn change_refusal(access: Access, repo: Seq<char>, path: Seq<char>) -> Option<
    Answer,
> {
    if !access.enabled {
        Some(Answer::NotFound)
    } else if access.proxied {
        Some(Answer::ProxiedConflict)
    } else {
        match path_error(repo, path) {
            Some(e) => Some(Answer::Rejected(e)),
            None => if !access.in_scope {
                Some(Answer::Forbidden)
            } else {
                None
            },
        }
    }
}

/// What is said of a body above the limit.
pub open spec fn too_large(max: u64) -> Seq<char> {
    "File too large. Max size: "@ + text::decimal(max as nat) + " bytes"@
}

/// Why an upload is refused before its body is read.
pub open spec fn upload_refusal(
    access: Access,
    repo: Seq<char>,
    path: Seq<char>,
    size: int,
    max: u64,
) -> Option<Answer> {
    match change_refusal(access, repo, path) {
        Some(a) => Some(a),
        None => if size > max {
            Some(Answer::TooLarge(too_large(max)))
        } else {
            None
        },
    }
}

/// What a package was refused for, as text.
pub open spec fn package_error_text(e: PackageError) -> Seq<char> {
    match e {
        PackageError::OutOfBounds => "header index out of bounds"@,
        PackageError::Invalid(s) => s@,
    }
}

/// Refuses a change to a package, or lets it pass.
pub fn refuse_change(access: Access, repo: &str, path: &str) -> (r: Option<Reply>)
    ensures
        match r {
            Some(reply) => change_refusal(access, repo@, path@) == Some(reply@),
            None => change_refusal(access, repo@, path@) is None,
        },
{
    if !access.enabled {
        return Some(Reply::NotFound);
    }
    if access.proxied {
        return Some(Reply::ProxiedConflict);
    }
    match validate_package_path(repo, path) {
        Ok(_) => {},
        Err(e) => {
            return Some(Reply::Rejected(e.to_owned()));
        },
    }
    if !access.in_scope {
        return Some(Reply::Forbidden);
    }
    None
}

/// Refuses an upload, or lets it pass to the reading of its body.
pub fn refuse_upload(access: Access, repo: &str, path: &str, size: u64, max: u64) -> (r: Option<
    Reply,
>)
    ensures
        match r {
            Some(reply) => upload_refusal(access, repo@, path@, size as int, max) == Some(reply@),
            None => upload_refusal(access, repo@, path@, size as int, max) is None,
        },
{
    if let Some(reply) = refuse_change(access, repo, path) {
        return Some(reply);
    }
    if size > max {
        let n = text::decimal_text(max);
        return Some(
            Reply::TooLarge(text::concat3("File too large. Max size: ", n.as_str(), " bytes")),
        );
    }
    None
}

/// What a package was refused for.
pub fn error_text(e: &PackageError) -> (r: String)
    ensures
        r@ == package_error_text(*e),
{
    match e {
        PackageError::OutOfBounds => "header index out of bounds".to_owned(),
        PackageError::Invalid(s) => s.clone(),
    }
}

/// What an upload comes to once its header has been read: the record, or the
/// refusal.
pub open spec fn upload_outcome(
    header: Result<RpmHeader, PackageError>,
    body: Seq<u8>,
    path: Seq<char>,
    file_time: u64,
    limit: int,
) -> Result<Pkg, Answer> {
    match header {
        Err(e) => Err(Answer::Rejected("Not a valid RPM: "@ + package_error_text(e))),
        Ok(h) => match rpm_record::record_error(h@) {
            Some(e) => Err(Answer::Rejected("RPM header missing required tags: "@ + e)),
            None => Ok(rpm_record::record_of(h@, body, path, file_time, limit)),
        },
    }
}

/// Makes the record of an uploaded package from what was read of its header.
pub fn record_upload(
    header: Result<RpmHeader, PackageError>,
    body: &[u8],
    path: &str,
    file_time: u64,
    changelog_limit: usize,
) -> (r: Result<PkgRecord, Reply>)
    ensures
        match r {
            Ok(record) => upload_outcome(header, body@, path@, file_time, changelog_limit as int)
                == Ok::<Pkg, Answer>(record@),
            Err(reply) => upload_outcome(header, body@, path@, file_time, changelog_limit as int)
                == Err::<Pkg, Answer>(reply@),
        },
{
    match header {
        Err(e) => Err(
            Reply::Rejected(text::concat2("Not a valid RPM: ", error_text(&e).as_str())),
        ),
        Ok(h) => match rpm_record::extract_record(&h, body, path, file_time, changelog_limit) {
            Ok(record) => Ok(record),
            Err(e) => Err(
                Reply::Rejected(
                    text::concat2("RPM header missing required tags: ", e.as_str()),
                ),
            ),
        },
    }
}

/// The text that a refused parse gives.
pub open spec fn parse_refusal(body: Seq<u8>) -> Option<Seq<char>> {
    if !rpm_package::in_bounds(body) {
        Some("header index out of bounds"@)
    } else {
        rpm_package::parse_error(body)
    }
}

/// What an upload comes to, from the bytes of its body alone.
pub open spec fn upload_result(body: Seq<u8>, path: Seq<char>, file_time: u64, limit: int) -> Result<
    Pkg,
    Answer,
> {
    match parse_refusal(body) {
        Some(e) => Err(Answer::Rejected("Not a valid RPM: "@ + e)),
        None => match rpm_record::record_error(rpm_package::header_in(body)) {
            Some(e) => Err(Answer::Rejected("RPM header missing required tags: "@ + e)),
            None => Ok(
                rpm_record::record_of(
                    rpm_package::header_in(body),
                    body,
                    path,
                    file_time,
                    limit,
                ),
            ),
        },
    }
}

/// What an upload comes to: why it is refused, in this order, by access, path,
/// size, content or key, or else the record of the package to store.
pub open spec fn upload_decision(
    access: Access,
    repo: Seq<char>,
    path: Seq<char>,
    body: Seq<u8>,
    max: u64,
    file_time: u64,
    limit: int,
    key_ok: bool,
) -> Result<Pkg, Answer> {
    match upload_refusal(access, repo, path, body.len() as int, max) {
        Some(a) => Err(a),
        None => match upload_result(body, path, file_time, limit) {
            Err(a) => Err(a),
            Ok(record) => if key_ok {
                Ok(record)
            } else {
                Err(Answer::BadRequest)
            },
        },
    }
}

/// Decides an upload: the refusal, or the record of the package to store.
/// `key_ok` says whether storage takes the package's key.
pub fn accept_upload(
    access: Access,
    repo: &str,
    path: &str,
    body: &[u8],
    max_size: u64,
    file_time: u64,
    changelog_limit: usize,
    key_ok: bool,
) -> (r: Result<PkgRecord, Reply>)
    ensures
        match r {
            Ok(record) => upload_decision(
                access,
                repo@,
                path@,
                body@,
                max_size,
                file_time,
                changelog_limit as int,
                key_ok,
            ) == Ok::<Pkg, Answer>(record@),
            Err(reply) => upload_decision(
                access,
                repo@,
                path@,
                body@,
                max_size,
                file_time,
                changelog_limit as int,
                key_ok,
            ) == Err::<Pkg, Answer>(reply@),
        },
{
    if let Some(reply) = refuse_upload(access, repo, path, body.len() as u64, max_size) {
        return Err(reply);
    }
    let header = rpm_package::parse_package(body);
    match record_upload(header, body, path, file_time, changelog_limit) {
        Err(reply) => Err(reply),
        Ok(record) => if key_ok {
            Ok(record)
        } else {
            Err(Reply::BadRequest)
        },
    }
}

/// Why a deletion is refused.
pub open spec fn deletion_refusal(
    access: Access,
    repo: Seq<char>,
    path: Seq<char>,
    key_ok: bool,
) -> Option<Answer> {
    match change_refusal(access, repo, path) {
        Some(a) => Some(a),
        None => if key_ok {
            None
        } else {
            Some(Answer::BadRequest)
        },
    }
}

/// Refuses a deletion, or lets it pass. `key_ok` says whether storage takes the
/// package's key.
pub fn refuse_deletion(access: Access, repo: &str, path: &str, key_ok: bool) -> (r: Option<Reply>)
    ensures
        match r {
            Some(reply) => deletion_refusal(access, repo@, path@, key_ok) == Some(reply@),
            None => deletion_refusal(access, repo@, path@, key_ok) is None,
        },
{
    if let Some(reply) = refuse_change(access, repo, path) {
        return Some(reply);
    }
    if !key_ok {
        return Some(Reply::BadRequest);
    }
    None
}

/// The name by which a package is logged: name, version, release and
/// architecture.
pub open spec fn nevra_of(p: Pkg) -> Seq<char> {
    p.name + "-"@ + p.version + "-"@ + p.release + "."@ + p.arch
}

/// The name by which a package is logged.
pub fn nevra(record: &PkgRecord) -> (r: String)
    ensures
        r@ == nevra_of(record@),
{
    let mut r = text::concat4(record.name.as_str(), "-", record.version.as_str(), "-");
    r.append(record.release.as_str());
    r.append(".");
    r.append(record.arch.as_str());
    r
}

/// A step of an upload or a deletion, under the repository's lock.
#[derive(Debug)]
pub enum ChangeStep {
    /// Store the package.
    StorePackage,
    /// Store its sidecar.
    StoreSidecar,
    /// Rebuild the metadata after an upload.
    RebuildStored,
    /// Delete the package.
    DeletePackage,
    /// Delete its sidecar.
    DeleteSidecar,
    /// Rebuild the metadata after a deletion.
    RebuildDeleted,
    /// Answer.
    Done(Reply),
}

/// How a step went.
#[derive(Debug, Clone, Copy, PartialEq, Eq, Structural)]
pub enum StepOutcome {
    Done,
    /// There was nothing to delete.
    NotFound,
    Failed,
}

/// What a [`ChangeStep`] holds.
pub enum Step {
    StorePackage,
    StoreSidecar,
    RebuildStored,
    DeletePackage,
    DeleteSidecar,
    RebuildDeleted,
    Done(Answer),
}

impl View for ChangeStep {
    type V = Step;

    open spec fn view(&self) -> Step {
        match self {
            ChangeStep::StorePackage => Step::StorePackage,
            ChangeStep::StoreSidecar => Step::StoreSidecar,
            ChangeStep::RebuildStored => Step::RebuildStored,
            ChangeStep::DeletePackage => Step::DeletePackage,
            ChangeStep::DeleteSidecar => Step::DeleteSidecar,
            ChangeStep::RebuildDeleted => Step::RebuildDeleted,
            ChangeStep::Done(r) => Step::Done(r@),
        }
    }
}

/// What follows a step. A package is stored before its sidecar and deleted
/// before it; a sidecar that cannot be deleted does not stop the rebuild.
pub open spec fn step_after(step: Step, outcome: StepOutcome) -> Step {
    let ok = outcome == StepOutcome::Done;
    match step {
        Step::StorePackage => if ok {
            Step::StoreSidecar
        } else {
            Step::Done(Answer::ServerError)
        },
        Step::StoreSidecar => if ok {
            Step::RebuildStored
        } else {
            Step::Done(Answer::ServerError)
        },
        Step::RebuildStored => if ok {
            Step::Done(Answer::Created)
        } else {
            Step::Done(Answer::Failed("Package stored but repodata regeneration failed"@))
        },
        Step::DeletePackage => match outcome {
            StepOutcome::Done => Step::DeleteSidecar,
            StepOutcome::NotFound => Step::Done(Answer::NotFound),
            StepOutcome::Failed => Step::Done(Answer::ServerError),
        },
        Step::DeleteSidecar => Step::RebuildDeleted,
        Step::RebuildDeleted => if ok {
            Step::Done(Answer::NoContent)
        } else {
            Step::Done(Answer::Failed("Package deleted but repodata regeneration failed"@))
        },
        Step::Done(a) => Step::Done(a),
    }
}

/// What follows a step of an upload or a deletion.
pub fn next_step(step: ChangeStep, outcome: StepOutcome) -> (r: ChangeStep)
    ensures
        r@ == step_after(step@, outcome),
{
    let ok = match outcome {
        StepOutcome::Done => true,
        _ => false,
    };
    match step {
        ChangeStep::StorePackage => if ok {
            ChangeStep::StoreSidecar
        } else {
            ChangeStep::Done(Reply::ServerError)
        },
        ChangeStep::StoreSidecar => if ok {
            ChangeStep::RebuildStored
        } else {
            ChangeStep::Done(Reply::ServerError)
        },
        ChangeStep::RebuildStored => if ok {
            ChangeStep::Done(Reply::Created)
        } else {
            ChangeStep::Done(Reply::Failed("Package stored but repodata regeneration failed"))
        },
        ChangeStep::DeletePackage => match outcome {
            StepOutcome::Done => ChangeStep::DeleteSidecar,
            StepOutcome::NotFound => ChangeStep::Done(Reply::NotFound),
            StepOutcome::Failed => ChangeStep::Done(Reply::ServerError),
        },
        ChangeStep::DeleteSidecar => ChangeStep::RebuildDeleted,
        ChangeStep::RebuildDeleted => if ok {
            ChangeStep::Done(Reply::NoContent)
        } else {
            ChangeStep::Done(Reply::Failed("Package deleted but repodata regeneration failed"))
        },
        ChangeStep::Done(reply) => ChangeStep::Done(reply),
    }
}

/// The step after some outcomes.
pub open spec fn steps(from: Step, outcomes: Seq<StepOutcome>) -> Step
    decreases outcomes.len(),
{
    if outcomes.len() == 0 {
        from
    } else {
        step_after(steps(from, outcomes.drop_last()), outcomes.last())
    }
}

/// An upload is answered as created only once package, sidecar and metadata
/// were written, in this order.
pub proof fn created_means_all_written(outcomes: Seq<StepOutcome>)
    requires
        steps(Step::StorePackage, outcomes) == Step::Done(Answer::Created),
    ensures
        outcomes.len() >= 3,
        outcomes[0] == StepOutcome::Done,
        outcomes[1] == StepOutcome::Done,
        outcomes[2] == StepOutcome::Done,
{
    lemma_upload_steps(outcomes);
}

proof fn lemma_upload_steps(outcomes: Seq<StepOutcome>)
    ensures
        match steps(Step::StorePackage, outcomes) {
            Step::StorePackage => outcomes.len() == 0,
            Step::StoreSidecar => outcomes.len() == 1 && outcomes[0] == StepOutcome::Done,
            Step::RebuildStored => outcomes.len() == 2 && outcomes[0] == StepOutcome::Done
                && outcomes[1] == StepOutcome::Done,
            Step::Done(a) => outcomes.len() >= 1 && (a == Answer::Created ==> outcomes.len() >= 3
                && outcomes[0] == StepOutcome::Done && outcomes[1] == StepOutcome::Done && outcomes[2]
                == StepOutcome::Done),
            _ => false,
        },
    decreases outcomes.len(),
{
    if outcomes.len() > 0 {
        let front = outcomes.drop_last();
        lemma_upload_steps(front);
        assert(forall|i: int| 0 <= i < front.len() ==> front[i] == outcomes[i]);
    }
}

/// Where a download is served from.
#[derive(Debug)]
pub enum DownloadRoute {
    /// The answer is known at once.
    Answer(Reply),
    /// The upstream of a proxied repository.
    Upstream {
        key: String,
        url: String,
        /// The content never changes.
        immutable: bool,
        content_type: &'static str,
    },
    /// The public key that the metadata is signed with.
    SigningKey,
    /// Storage.
    Stored {
        key: String,
        content_type: &'static str,
        /// Part of the content may be asked for.
        ranged: bool,
        /// Clients have to revalidate the content.
        no_cache: bool,
    },
}

/// What a [`DownloadRoute`] holds.
pub enum Route {
    Answer(Answer),
    Upstream {
        key: Seq<char>,
        url: Seq<char>,
        immutable: bool,
        content_type: Seq<char>,
    },
    SigningKey,
    Stored { key: Seq<char>, content_type: Seq<char>, ranged: bool, no_cache: bool },
}

impl View for DownloadRoute {
    type V = Route;

    open spec fn view(&self) -> Route {
        match self {
            DownloadRoute::Answer(r) => Route::Answer(r@),
            DownloadRoute::Upstream { key, url, immutable, content_type } => Route::Upstream {
                key: key@,
                url: url@,
                immutable: *immutable,
                content_type: content_type@,
            },
            DownloadRoute::SigningKey => Route::SigningKey,
            DownloadRoute::Stored { key, content_type, ranged, no_cache } => Route::Stored {
                key: key@,
                content_type: content_type@,
                ranged: *ranged,
                no_cache: *no_cache,
            },
        }
    }
}

/// Where a download is served from. `upstream` is the base URL of a proxied
/// repository, `key_ok` says whether storage takes the key, `signed` whether
/// there is a signing key.
pub open spec fn route_of(
    enabled: bool,
    upstream: Option<Seq<char>>,
    repo: Seq<char>,
    path: Seq<char>,
    key_ok: bool,
    signed: bool,
) -> Route {
    let key = package_path(repo, path);
    let refused = !key_ok || ".nora-meta"@.is_prefix_of(path);
    if !enabled {
        Route::Answer(Answer::NotFound)
    } else if upstream is Some {
        if refused {
            Route::Answer(Answer::BadRequest)
        } else {
            Route::Upstream {
                key,
                url: text::trimmed_end(upstream->0, '/') + "/"@ + path,
                immutable: is_package(path),
                content_type: media_type(path),
            }
        }
    } else if path == "repodata/repomd.xml.key"@ {
        if signed {
            Route::SigningKey
        } else {
            Route::Answer(Answer::NotFound)
        }
    } else if refused {
        Route::Answer(Answer::BadRequest)
    } else {
        Route::Stored {
            key,
            content_type: media_type(path),
            ranged: is_package(path),
            no_cache: path == "repodata/repomd.xml"@,
        }
    }
}

/// Decides where a download is served from.
pub fn route_download(
    enabled: bool,
    upstream: Option<&str>,
    repo: &str,
    path: &str,
    key_ok: bool,
    signed: bool,
) -> (r: DownloadRoute)
    ensures
        r@ == route_of(
            enabled,
            match upstream {
                Some(u) => Some(u@),
                None => None,
            },
            repo@,
            path@,
            key_ok,
            signed,
        ),
{
    if !enabled {
        return DownloadRoute::Answer(Reply::NotFound);
    }
    let refused = !key_ok || text::starts_with(path, ".nora-meta");
    let package = text::ends_with_ci(path, ".rpm") || text::ends_with_ci(path, ".drpm");
    if let Some(base) = upstream {
        if refused {
            return DownloadRoute::Answer(Reply::BadRequest);
        }
        return DownloadRoute::Upstream {
            key: package_key(repo, path),
            url: text::concat3(text::trim_end(base, '/'), "/", path),
            immutable: package,
            content_type: content_type(path),
        };
    }
    if text::same(path, "repodata/repomd.xml.key") {
        return if signed {
            DownloadRoute::SigningKey
        } else {
            DownloadRoute::Answer(Reply::NotFound)
        };
    }
    if refused {
        return DownloadRoute::Answer(Reply::BadRequest);
    }
    DownloadRoute::Stored {
        key: package_key(repo, path),
        content_type: content_type(path),
        ranged: package,
        no_cache: text::same(path, "repodata/repomd.xml"),
    }
}

/// How a read from storage is answered where it gives no content.
pub fn read_failure(outcome: StepOutcome) -> (r: Option<Reply>)
    ensures
        match outcome {
            StepOutcome::Done => r is None,
            StepOutcome::NotFound => r matches Some(reply) && reply@ == Answer::NotFound,
            StepOutcome::Failed => r matches Some(reply) && reply@ == Answer::ServerError,
        },
{
    match outcome {
        StepOutcome::Done => None,
        StepOutcome::NotFound => Some(Reply::NotFound),
        StepOutcome::Failed => Some(Reply::ServerError),
    }
}

/// Answers an existence check: the size and media type, or the refusal.
pub fn check_exists(enabled: bool, path: &str, key_ok: bool, size: Option<u64>) -> (r: Result<
    (u64, &'static str),
    Reply,
>)
    ensures
        if !enabled {
            r matches Err(reply) && reply@ == Answer::NotFound
        } else if !key_ok || ".nora-meta"@.is_prefix_of(path@) {
            r matches Err(reply) && reply@ == Answer::BadRequest
        } else {
            match size {
                Some(n) => r matches Ok((m, t)) && m == n && t@ == media_type(path@),
                None => r matches Err(reply) && reply@ == Answer::NotFound,
            }
        },
{
    if !enabled {
        return Err(Reply::NotFound);
    }
    if !key_ok || text::starts_with(path, ".nora-meta") {
        return Err(Reply::BadRequest);
    }
    match size {
        Some(n) => Ok((n, content_type(path))),
        None => Err(Reply::NotFound),
    }
}

/// A disabled registry answers every request as not found.
pub proof fn disabled_registry_is_not_found(
    access: Access,
    repo: Seq<char>,
    path: Seq<char>,
    size: int,
    max: u64,
    upstream: Option<Seq<char>>,
    key_ok: bool,
    signed: bool,
)
    requires
        !access.enabled,
    ensures
        upload_refusal(access, repo, path, size, max) == Some(Answer::NotFound),
        change_refusal(access, repo, path) == Some(Answer::NotFound),
        deletion_refusal(access, repo, path, key_ok) == Some(Answer::NotFound),
        route_of(false, upstream, repo, path, key_ok, signed) == Route::Answer(Answer::NotFound),
{
}

/// A proxied repository takes no changes.
pub proof fn proxies_take_no_changes(
    access: Access,
    repo: Seq<char>,
    path: Seq<char>,
    size: int,
    max: u64,
    key_ok: bool,
)
    requires
        access.enabled,
        access.proxied,
    ensures
        upload_refusal(access, repo, path, size, max) == Some(Answer::ProxiedConflict),
        deletion_refusal(access, repo, path, key_ok) == Some(Answer::ProxiedConflict),
{
}

/// A change outside the caller's namespace is always refused.
pub proof fn changes_stay_in_scope(
    access: Access,
    repo: Seq<char>,
    path: Seq<char>,
    size: int,
    max: u64,
    key_ok: bool,
)
    requires
        !access.in_scope,
    ensures
        upload_refusal(access, repo, path, size, max) is Some,
        deletion_refusal(access, repo, path, key_ok) is Some,
{
}

/// Sidecars are never served, from storage or from upstream.
pub proof fn sidecars_are_not_served(
    upstream: Option<Seq<char>>,
    repo: Seq<char>,
    path: Seq<char>,
    key_ok: bool,
    signed: bool,
)
    requires
        ".nora-meta"@.is_prefix_of(path),
    ensures
        route_of(true, upstream, repo, path, key_ok, signed) == Route::Answer(Answer::BadRequest),
{
    reveal_strlit(".nora-meta");
    reveal_strlit("repodata/repomd.xml.key");
    assert(path.subrange(0, 10)[0] == '.');
    assert("repodata/repomd.xml.key"@[0] == 'r');
}

/// A path that may be uploaded to is served from storage, by parts if asked for.
pub proof fn packages_are_served_from_storage(repo: Seq<char>, path: Seq<char>, signed: bool)
    requires
        path_error(repo, path) is None,
    ensures
        route_of(true, None, repo, path, true, signed) == (Route::Stored {
            key: package_path(repo, path),
            content_type: media_type(path),
            ranged: true,
            no_cache: false,
        }),
{
    reveal_strlit(".");
    reveal_strlit(".nora-meta");
    reveal_strlit("repodata/");
    reveal_strlit("repodata/repomd.xml");
    reveal_strlit("repodata/repomd.xml.key");
    assert("repodata/repomd.xml"@.subrange(0, 9) =~= "repodata/"@);
    assert("repodata/repomd.xml.key"@.subrange(0, 9) =~= "repodata/"@);
    if ".nora-meta"@.is_prefix_of(path) {
        assert(path.subrange(0, 10)[0] == '.');
        lemma_first_piece(path, '/');
        let first = text::pieces(path, '/')[0];
        assert("."@ =~= first.subrange(0, 1));
        assert(has_bad_segment(path));
    }
}

/// A deletion is answered as done only once the package was deleted and the
/// metadata rebuilt.
pub proof fn no_content_means_deleted(outcomes: Seq<StepOutcome>)
    requires
        steps(Step::DeletePackage, outcomes) == Step::Done(Answer::NoContent),
    ensures
        outcomes.len() >= 3,
        outcomes[0] == StepOutcome::Done,
        outcomes[2] == StepOutcome::Done,
{
    lemma_delete_steps(outcomes);
}

proof fn lemma_delete_steps(outcomes: Seq<StepOutcome>)
    ensures
        match steps(Step::DeletePackage, outcomes) {
            Step::DeletePackage => outcomes.len() == 0,
            Step::DeleteSidecar => outcomes.len() == 1 && outcomes[0] == StepOutcome::Done,
            Step::RebuildDeleted => outcomes.len() == 2 && outcomes[0] == StepOutcome::Done,
            Step::Done(a) => outcomes.len() >= 1 && (a == Answer::NoContent ==> outcomes.len() >= 3
                && outcomes[0] == StepOutcome::Done && outcomes[2] == StepOutcome::Done),
            _ => false,
        },
    decreases outcomes.len(),
{
    if outcomes.len() > 0 {
        let front = outcomes.drop_last();
        lemma_delete_steps(front);
        assert(forall|i: int| 0 <= i < front.len() ==> front[i] == outcomes[i]);
    }
}

/// Where the keys of a repository lie.
pub open spec fn repo_prefix(repo: Seq<char>) -> Seq<char> {
    "rpm/"@ + repo + "/"@
}

/// A package and its sidecar lie in their repository.
pub proof fn packages_lie_in_their_repository(repo: Seq<char>, path: Seq<char>)
    ensures
        repo_prefix(repo).is_prefix_of(package_path(repo, path)),
        repo_prefix(repo).is_prefix_of(sidecar_path(repo, path)),
{
    reveal_strlit("/");
    reveal_strlit("/.nora-meta/");
    let n = repo_prefix(repo).len() as int;
    assert(package_path(repo, path).subrange(0, n) =~= repo_prefix(repo));
    assert(sidecar_path(repo, path).subrange(0, n) =~= repo_prefix(repo));
}

/// Repositories are apart: no key lies in two of them.
pub proof fn repositories_are_apart(a: Seq<char>, b: Seq<char>, key: Seq<char>)
    requires
        repo_ok(a),
        repo_ok(b),
        repo_prefix(a).is_prefix_of(key),
        repo_prefix(b).is_prefix_of(key),
    ensures
        a == b,
{
    if a.len() <= b.len() {
        lemma_shorter_repo(a, b, key);
    } else {
        lemma_shorter_repo(b, a, key);
    }
}

proof fn lemma_shorter_repo(a: Seq<char>, b: Seq<char>, key: Seq<char>)
    requires
        a.len() <= b.len(),
        repo_ok(b),
        repo_prefix(a).is_prefix_of(key),
        repo_prefix(b).is_prefix_of(key),
    ensures
        a == b,
{
    reveal_strlit("rpm/");
    reveal_strlit("/");
    let n = a.len() as int;
    let p = repo_prefix(a);
    let q = repo_prefix(b);
    assert forall|i: int| 0 <= i < p.len() implies p[i] == key[i] by {
        assert(key.subrange(0, p.len() as int)[i] == key[i]);
    }
    assert forall|i: int| 0 <= i < q.len() implies q[i] == key[i] by {
        assert(key.subrange(0, q.len() as int)[i] == key[i]);
    }
    if n < b.len() {
        assert(p[4 + n] == '/');
        assert(q[4 + n] == b[n]);
        assert(b.subrange(n, n + 1) =~= "/"@);
        assert(text::occurs_at(b, "/"@, n));
    }
    assert forall|i: int| 0 <= i < n implies a[i] == b[i] by {
        assert(p[4 + i] == a[i]);
        assert(q[4 + i] == b[i]);
    }
    assert(a =~= b);
}

} // verus!
