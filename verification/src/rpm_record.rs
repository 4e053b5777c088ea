//! The record of a hosted rpm package: what the repository metadata says of it.
//! It is made once, at upload, and kept as a sidecar of the package.

use vstd::prelude::*;

use crate::digest;
use crate::order;
use crate::rpm_package::{
    self, Change, Dependency, Header, PackagedFile, RpmChange, RpmDependency, RpmFile, RpmHeader,
};
use crate::text;

verus! {

/// A dependency in the repository metadata.
#[derive(Debug, Clone)]
pub struct DepRecord {
    pub name: String,
    /// `EQ`, `LT`, `GT`, `LE` or `GE`; none where any version will do.
    pub flags: Option<String>,
    pub epoch: Option<String>,
    pub ver: Option<String>,
    pub rel: Option<String>,
    /// The dependency is needed before installation.
    pub pre: bool,
}

/// A file in the repository metadata.
#[derive(Debug, Clone)]
pub struct FileRecord {
    pub path: String,
    /// Empty for a regular file, `dir`, or `ghost`.
    pub kind: String,
}

/// A changelog entry in the repository metadata.
#[derive(Debug, Clone)]
pub struct ChangelogRecord {
    pub author: String,
    pub date: u64,
    pub text: String,
}

/// Everything that the repository metadata says of one package.
#[derive(Debug, Clone)]
pub struct PkgRecord {
    pub name: String,
    pub epoch: u32,
    pub version: String,
    pub release: String,
    pub arch: String,
    pub summary: String,
    pub description: String,
    pub packager: String,
    pub url: String,
    pub license: String,
    pub vendor: String,
    pub group: String,
    pub buildhost: String,
    pub sourcerpm: String,
    pub build_time: u64,
    pub file_time: u64,
    pub size_package: u64,
    pub size_installed: u64,
    pub header_start: u64,
    pub header_end: u64,
    /// Location relative to the repository root: the upload path.
    pub href: String,
    /// SHA-256 of the whole package file.
    pub pkgid: String,
    pub provides: Vec<DepRecord>,
    pub requires: Vec<DepRecord>,
    pub conflicts: Vec<DepRecord>,
    pub obsoletes: Vec<DepRecord>,
    pub files: Vec<FileRecord>,
    pub changelogs: Vec<ChangelogRecord>,
}

/// What a [`DepRecord`] holds.
pub struct Dep {
    pub name: Seq<char>,
    pub flags: Option<Seq<char>>,
    pub epoch: Option<Seq<char>>,
    pub ver: Option<Seq<char>>,
    pub rel: Option<Seq<char>>,
    pub pre: bool,
}

/// What a [`FileRecord`] holds.
pub struct FileLine {
    pub path: Seq<char>,
    pub kind: Seq<char>,
}

/// What a [`PkgRecord`] holds.
pub struct Pkg {
    pub name: Seq<char>,
    pub epoch: u32,
    pub version: Seq<char>,
    pub release: Seq<char>,
    pub arch: Seq<char>,
    pub summary: Seq<char>,
    pub description: Seq<char>,
    pub packager: Seq<char>,
    pub url: Seq<char>,
    pub license: Seq<char>,
    pub vendor: Seq<char>,
    pub group: Seq<char>,
    pub buildhost: Seq<char>,
    pub sourcerpm: Seq<char>,
    pub build_time: u64,
    pub file_time: u64,
    pub size_package: u64,
    pub size_installed: u64,
    pub header_start: u64,
    pub header_end: u64,
    pub href: Seq<char>,
    pub pkgid: Seq<char>,
    pub provides: Seq<Dep>,
    pub requires: Seq<Dep>,
    pub conflicts: Seq<Dep>,
    pub obsoletes: Seq<Dep>,
    pub files: Seq<FileLine>,
    pub changelogs: Seq<Change>,
}

impl View for DepRecord {
    type V = Dep;

    open spec fn view(&self) -> Dep {
        Dep {
            name: self.name@,
            flags: rpm_package::text_of(self.flags),
            epoch: rpm_package::text_of(self.epoch),
            ver: rpm_package::text_of(self.ver),
            rel: rpm_package::text_of(self.rel),
            pre: self.pre,
        }
    }
}

impl View for FileRecord {
    type V = FileLine;

    open spec fn view(&self) -> FileLine {
        FileLine { path: self.path@, kind: self.kind@ }
    }
}

impl View for ChangelogRecord {
    type V = Change;

    open spec fn view(&self) -> Change {
        Change { author: self.author@, date: self.date, text: self.text@ }
    }
}

/// What a list of dependencies holds.
pub open spec fn deps_of(v: Seq<DepRecord>) -> Seq<Dep> {
    v.map_values(|d: DepRecord| d@)
}

/// What a list of files holds.
pub open spec fn lines_of(v: Seq<FileRecord>) -> Seq<FileLine> {
    v.map_values(|f: FileRecord| f@)
}

/// What a changelog holds.
pub open spec fn log_of(v: Seq<ChangelogRecord>) -> Seq<Change> {
    v.map_values(|c: ChangelogRecord| c@)
}

impl View for PkgRecord {
    type V = Pkg;

    open spec fn view(&self) -> Pkg {
        Pkg {
            name: self.name@,
            epoch: self.epoch,
            version: self.version@,
            release: self.release@,
            arch: self.arch@,
            summary: self.summary@,
            description: self.description@,
            packager: self.packager@,
            url: self.url@,
            license: self.license@,
            vendor: self.vendor@,
            group: self.group@,
            buildhost: self.buildhost@,
            sourcerpm: self.sourcerpm@,
            build_time: self.build_time,
            file_time: self.file_time,
            size_package: self.size_package,
            size_installed: self.size_installed,
            header_start: self.header_start,
            header_end: self.header_end,
            href: self.href@,
            pkgid: self.pkgid@,
            provides: deps_of(self.provides@),
            requires: deps_of(self.requires@),
            conflicts: deps_of(self.conflicts@),
            obsoletes: deps_of(self.obsoletes@),
            files: lines_of(self.files@),
            changelogs: log_of(self.changelogs@),
        }
    }
}

/// Dependency flag: below the version.
pub const LESS: u32 = 2;

/// Dependency flag: above the version.
pub const GREATER: u32 = 4;

/// Dependency flag: the version itself.
pub const EQUAL: u32 = 8;

/// Both: at most the version.
pub const AT_MOST: u32 = 10;

/// Both: at least the version.
pub const AT_LEAST: u32 = 12;

/// The three flags that compare versions.
pub const SENSE: u32 = 14;

/// Dependency flags that ask for the dependency before installation: the
/// legacy prerequisite, and those of the scriptlets run before and after.
pub const BEFORE: u32 = 1600;

/// File flag: the package owns the file but does not hold it.
pub const GHOST: u32 = 64;

/// How the flags compare versions, as the repository metadata writes it.
pub open spec fn sense_text(flags: u32) -> Option<Seq<char>> {
    let sense = flags & SENSE;
    if sense == EQUAL {
        Some("EQ"@)
    } else if sense == LESS {
        Some("LT"@)
    } else if sense == GREATER {
        Some("GT"@)
    } else if sense == AT_MOST {
        Some("LE"@)
    } else if sense == AT_LEAST {
        Some("GE"@)
    } else {
        None
    }
}

/// All characters are ASCII digits.
pub open spec fn all_digits(s: Seq<char>) -> bool {
    forall|i: int| 0 <= i < s.len() ==> '0' <= #[trigger] s[i] && s[i] <= '9'
}

/// The epoch of a version string, and what follows it: the digits before the
/// first colon, or `0` where there are none.
pub open spec fn epoch_split(evr: Seq<char>) -> (Seq<char>, Seq<char>) {
    match text::halves(evr, ":"@) {
        Some((e, rest)) => if e.len() > 0 && all_digits(e) {
            (e, rest)
        } else {
            ("0"@, evr)
        },
        None => ("0"@, evr),
    }
}

/// `[epoch:]version[-release]` in its parts; the last dash ends the version.
pub open spec fn evr_parts(evr: Seq<char>) -> (Seq<char>, Seq<char>, Option<Seq<char>>) {
    let (epoch, rest) = epoch_split(evr);
    match text::last_of(rest, '-') {
        Some(i) => (epoch, rest.subrange(0, i), Some(rest.subrange(i + 1, rest.len() as int))),
        None => (epoch, rest, None),
    }
}

/// The record of a dependency. Epoch, version and release are given where the
/// flags compare versions.
pub open spec fn dep_record(d: Dependency) -> Dep {
    let (epoch, ver, rel) = evr_parts(d.version);
    let versioned = sense_text(d.flags) is Some;
    Dep {
        name: d.name,
        flags: sense_text(d.flags),
        epoch: if versioned {
            Some(epoch)
        } else {
            None
        },
        ver: if versioned {
            Some(ver)
        } else {
            None
        },
        rel: if versioned {
            rel
        } else {
            None
        },
        pre: d.flags & BEFORE != 0,
    }
}

/// Two records say the same: name, flags, version and release agree.
pub open spec fn same_dep(a: Dep, b: Dep) -> bool {
    a.name == b.name && a.flags == b.flags && a.ver == b.ver && a.rel == b.rel
}

/// A record that says the same is among the records.
pub open spec fn recorded(out: Seq<Dep>, d: Dep) -> bool {
    exists|i: int| 0 <= i < out.len() && same_dep(#[trigger] out[i], d)
}

/// The dependency is one that `rpm` has within itself.
pub open spec fn is_rpmlib(d: Dependency) -> bool {
    "rpmlib("@.is_prefix_of(d.name)
}

/// The records of the dependencies, each once, without those that `rpm` has
/// within itself where they are to be dropped.
pub open spec fn dep_list(deps: Seq<Dependency>, drop_rpmlib: bool) -> Seq<Dep>
    decreases deps.len(),
{
    if deps.len() == 0 {
        Seq::empty()
    } else {
        let before = dep_list(deps.drop_last(), drop_rpmlib);
        let rec = dep_record(deps.last());
        if (drop_rpmlib && is_rpmlib(deps.last())) || recorded(before, rec) {
            before
        } else {
            before.push(rec)
        }
    }
}

/// The kind of a file, as the repository metadata writes it.
pub open spec fn file_kind(f: PackagedFile) -> Seq<char> {
    if f.flags & GHOST == GHOST {
        "ghost"@
    } else if f.is_dir {
        "dir"@
    } else {
        ""@
    }
}

/// The records of the files.
pub open spec fn file_lines(files: Seq<PackagedFile>) -> Seq<FileLine> {
    files.map_values(|f: PackagedFile| FileLine { path: f.path, kind: file_kind(f) })
}

/// One entry is not later than the other.
pub open spec fn not_later() -> spec_fn(Change, Change) -> bool {
    |a: Change, b: Change| a.date <= b.date
}

/// The last `limit` of the entries in order of time.
pub open spec fn recent_changes(log: Seq<Change>, limit: int) -> Seq<Change> {
    let sorted = order::sorted_by(log, not_later());
    if sorted.len() > limit {
        sorted.skip(sorted.len() - limit)
    } else {
        sorted
    }
}

/// The text, empty where there is none.
pub open spec fn or_empty(s: Option<Seq<char>>) -> Seq<char> {
    match s {
        Some(t) => t,
        None => ""@,
    }
}

/// The list, empty where there is none.
pub open spec fn or_none<T>(s: Option<Seq<T>>) -> Seq<T> {
    match s {
        Some(t) => t,
        None => Seq::empty(),
    }
}

/// The number, zero where there is none.
pub open spec fn or_zero(n: Option<u64>) -> u64 {
    match n {
        Some(x) => x,
        None => 0,
    }
}

/// Why a header makes no record: the first of the values that it has to have
/// and lacks.
pub open spec fn record_error(h: Header) -> Option<Seq<char>> {
    match (h.files, h.name, h.version, h.release) {
        (Err(e), _, _, _) => Some(e),
        (Ok(_), Err(e), _, _) => Some(e),
        (Ok(_), Ok(_), Err(e), _) => Some(e),
        (Ok(_), Ok(_), Ok(_), Err(e)) => Some(e),
        _ => None,
    }
}

/// The record of a package.
pub open spec fn record_of(
    h: Header,
    body: Seq<u8>,
    href: Seq<char>,
    file_time: u64,
    changelog_limit: int,
) -> Pkg {
    Pkg {
        name: h.name->Ok_0,
        epoch: match h.epoch {
            Some(e) => e,
            None => 0,
        },
        version: h.version->Ok_0,
        release: h.release->Ok_0,
        arch: match h.arch {
            Some(a) => a,
            None => "noarch"@,
        },
        summary: or_empty(h.summary),
        description: or_empty(h.description),
        packager: or_empty(h.packager),
        url: or_empty(h.url),
        license: or_empty(h.license),
        vendor: or_empty(h.vendor),
        group: or_empty(h.group),
        buildhost: or_empty(h.buildhost),
        sourcerpm: or_empty(h.sourcerpm),
        build_time: or_zero(h.build_time),
        file_time,
        size_package: body.len() as u64,
        size_installed: or_zero(h.installed_size),
        header_start: h.header_range.0,
        header_end: h.header_range.1,
        href,
        pkgid: digest::sha256_text(body),
        provides: dep_list(or_none(h.provides), false),
        requires: dep_list(or_none(h.requires), true),
        conflicts: dep_list(or_none(h.conflicts), false),
        obsoletes: dep_list(or_none(h.obsoletes), false),
        files: file_lines(h.files->Ok_0),
        changelogs: recent_changes(or_none(h.changelog), changelog_limit),
    }
}

/// How dependency flags compare versions: `EQ`, `LT`, `GT`, `LE` or `GE`; none
/// where they do not, or do so in a way without a name.
pub fn flags_str(flags: u32) -> (r: Option<String>)
    ensures
        rpm_package::text_of(r) == sense_text(flags),
{
    let sense: u32 = flags & SENSE;
    if sense == EQUAL {
        Some("EQ".to_owned())
    } else if sense == LESS {
        Some("LT".to_owned())
    } else if sense == GREATER {
        Some("GT".to_owned())
    } else if sense == AT_MOST {
        Some("LE".to_owned())
    } else if sense == AT_LEAST {
        Some("GE".to_owned())
    } else {
        None
    }
}

fn only_digits(s: &str) -> (r: bool)
    ensures
        r == all_digits(s@),
{
    let a = text::to_chars(s);
    let mut i: usize = 0;
    while i < a.len()
        invariant
            i <= a@.len(),
            a@ == s@,
            forall|k: int| 0 <= k < i ==> '0' <= #[trigger] a@[k] && a@[k] <= '9',
        decreases a@.len() - i,
    {
        if !('0' <= a[i] && a[i] <= '9') {
            return false;
        }
        i = i + 1;
    }
    true
}

/// Splits `[epoch:]version[-release]`. The epoch is `0` where none is given.
pub fn parse_evr(evr: &str) -> (r: (String, String, Option<String>))
    ensures
        (r.0@, r.1@, rpm_package::text_of(r.2)) == evr_parts(evr@),
{
    let (epoch, rest) = match text::split_once(evr, ":") {
        Some((e, tail)) => if e.unicode_len() > 0 && only_digits(e) {
            (e, tail)
        } else {
            ("0", evr)
        },
        None => ("0", evr),
    };
    match text::rfind(rest, '-') {
        Some(i) => {
            let n: usize = rest.unicode_len();
            (
                epoch.to_owned(),
                rest.substring_char(0, i).to_owned(),
                Some(rest.substring_char(i + 1, n).to_owned()),
            )
        },
        None => (epoch.to_owned(), rest.to_owned(), None),
    }
}

/// Two optional texts are the same.
fn same_option(a: &Option<String>, b: &Option<String>) -> (r: bool)
    ensures
        r == (rpm_package::text_of(*a) == rpm_package::text_of(*b)),
{
    match (a, b) {
        (Some(x), Some(y)) => text::same(x.as_str(), y.as_str()),
        (None, None) => true,
        _ => false,
    }
}

fn is_recorded(out: &Vec<DepRecord>, rec: &DepRecord) -> (r: bool)
    ensures
        r == recorded(deps_of(out@), rec@),
{
    let ghost all = deps_of(out@);
    let mut i: usize = 0;
    while i < out.len()
        invariant
            i <= out@.len(),
            all == deps_of(out@),
            forall|k: int| 0 <= k < i ==> !same_dep(#[trigger] all[k], rec@),
        decreases out@.len() - i,
    {
        let o = &out[i];
        assert(all[i as int] == o@);
        if text::same(o.name.as_str(), rec.name.as_str()) && same_option(&o.flags, &rec.flags)
            && same_option(&o.ver, &rec.ver) && same_option(&o.rel, &rec.rel) {
            return true;
        }
        i = i + 1;
    }
    false
}

fn make_dep(d: &RpmDependency) -> (r: DepRecord)
    ensures
        r@ == dep_record(d@),
{
    let flags = flags_str(d.flags);
    let pre = d.flags & BEFORE != 0;
    if flags.is_some() {
        let (epoch, ver, rel) = parse_evr(d.version.as_str());
        DepRecord { name: d.name.clone(), flags, epoch: Some(epoch), ver: Some(ver), rel, pre }
    } else {
        DepRecord { name: d.name.clone(), flags, epoch: None, ver: None, rel: None, pre }
    }
}

/// The records of the dependencies. Of those that agree in name, flags, version
/// and release, whatever their epoch and whether they are needed beforehand, the
/// first is recorded. `drop_rpmlib` leaves out the capabilities that `rpm` has
/// within itself.
pub fn dep_records(deps: &Vec<RpmDependency>, drop_rpmlib: bool) -> (r: Vec<DepRecord>)
    ensures
        deps_of(r@) == dep_list(rpm_package::dependencies_of(deps@), drop_rpmlib),
{
    let ghost all = rpm_package::dependencies_of(deps@);
    let mut out: Vec<DepRecord> = Vec::new();
    let mut i: usize = 0;
    proof {
        assert(deps_of(out@) =~= dep_list(all.take(0), drop_rpmlib));
    }
    while i < deps.len()
        invariant
            i <= deps@.len(),
            all == rpm_package::dependencies_of(deps@),
            deps_of(out@) == dep_list(all.take(i as int), drop_rpmlib),
        decreases deps@.len() - i,
    {
        let ghost before = out@;
        proof {
            assert(all.take(i + 1).drop_last() =~= all.take(i as int));
            assert(all.take(i + 1).last() == deps@[i as int]@);
        }
        let d = &deps[i];
        if !(drop_rpmlib && text::starts_with(d.name.as_str(), "rpmlib(")) {
            let rec = make_dep(d);
            if !is_recorded(&out, &rec) {
                out.push(rec);
                proof {
                    assert(deps_of(out@) =~= deps_of(before).push(rec@));
                }
            }
        }
        i = i + 1;
    }
    proof {
        assert(all.take(i as int) =~= all);
    }
    out
}

fn some_dep_records(deps: &Option<Vec<RpmDependency>>, drop_rpmlib: bool) -> (r: Vec<DepRecord>)
    ensures
        deps_of(r@) == dep_list(or_none(rpm_package::some_dependencies(*deps)), drop_rpmlib),
{
    match deps {
        Some(d) => dep_records(d, drop_rpmlib),
        None => {
            let r: Vec<DepRecord> = Vec::new();
            proof {
                assert(deps_of(r@) =~= Seq::<Dep>::empty());
            }
            r
        },
    }
}

fn file_records(files: &Vec<RpmFile>) -> (r: Vec<FileRecord>)
    ensures
        lines_of(r@) == file_lines(rpm_package::files_of(files@)),
{
    let mut r: Vec<FileRecord> = Vec::new();
    let mut i: usize = 0;
    while i < files.len()
        invariant
            i <= files@.len(),
            r@.len() == i,
            forall|k: int|
                0 <= k < i ==> (#[trigger] r@[k])@ == (FileLine {
                    path: files@[k].path@,
                    kind: file_kind(files@[k]@),
                }),
        decreases files@.len() - i,
    {
        let f = &files[i];
        let kind = if f.flags & GHOST == GHOST {
            "ghost"
        } else if f.is_dir {
            "dir"
        } else {
            ""
        };
        r.push(FileRecord { path: f.path.clone(), kind: kind.to_owned() });
        i = i + 1;
    }
    proof {
        assert(lines_of(r@) =~= file_lines(rpm_package::files_of(files@)));
    }
    r
}

/// The last `limit` of the entries in order of time.
fn recent_records(log: &Vec<RpmChange>, limit: usize) -> (r: Vec<ChangelogRecord>)
    ensures
        log_of(r@) == recent_changes(rpm_package::changes_of(log@), limit as int),
{
    let n: usize = log.len();
    let ghost all = rpm_package::changes_of(log@);
    let ghost rel = |i: int, j: int| not_later()(all[i], all[j]);
    let le = |i: usize, j: usize| -> (r: bool)
        requires
            i < n,
            j < n,
            n == log@.len(),
        ensures
            r == (log@[i as int].date <= log@[j as int].date),
        { log[i].date <= log[j].date };
    let sorted = order::order_of(n, le, Ghost(rel));
    let ghost s = order::sorted_by(all, not_later());
    proof {
        let f = |i: int| all[i];
        order::lemma_sorted_map(order::positions(n as nat), f, not_later(), rel);
        assert(order::positions(n as nat).map_values(f) =~= all);
        assert(order::ints(sorted@).map_values(f) == s);
        assert forall|k: int| 0 <= k < n implies #[trigger] s[k] == all[sorted@[k] as int] by {
            assert(order::ints(sorted@)[k] == sorted@[k]);
        }
    }
    let start: usize = if n > limit {
        n - limit
    } else {
        0
    };
    let mut r: Vec<ChangelogRecord> = Vec::new();
    let mut i: usize = start;
    while i < n
        invariant
            start <= i <= n,
            n == log@.len(),
            n == sorted@.len(),
            n == s.len(),
            all == rpm_package::changes_of(log@),
            forall|k: int| 0 <= k < n ==> #[trigger] sorted@[k] < n,
            forall|k: int| 0 <= k < n ==> #[trigger] s[k] == all[sorted@[k] as int],
            r@.len() == i - start,
            forall|k: int| 0 <= k < r@.len() ==> (#[trigger] r@[k])@ == s[start + k],
        decreases n - i,
    {
        let c = &log[sorted[i]];
        proof {
            assert(s[i as int] == c@);
        }
        r.push(ChangelogRecord { author: c.author.clone(), date: c.date, text: c.text.clone() });
        i = i + 1;
    }
    proof {
        assert(log_of(r@) =~= recent_changes(all, limit as int));
    }
    r
}

fn text_or_empty(s: &Option<String>) -> (r: String)
    ensures
        r@ == or_empty(rpm_package::text_of(*s)),
{
    match s {
        Some(t) => t.clone(),
        None => "".to_owned(),
    }
}

fn number_or_zero(n: Option<u64>) -> (r: u64)
    ensures
        r == or_zero(n),
{
    match n {
        Some(x) => x,
        None => 0,
    }
}

/// Makes the record of a package from its header and its bytes. The header has
/// to have its files, a name, a version and a release; of these the error of
/// the first that is missing is given. The changelog is cut to its latest
/// entries.
pub fn extract_record(
    header: &RpmHeader,
    body: &[u8],
    href: &str,
    file_time: u64,
    changelog_limit: usize,
) -> (r: Result<PkgRecord, String>)
    ensures
        match r {
            Ok(record) => record_error(header@) is None && record@ == record_of(
                header@,
                body@,
                href@,
                file_time,
                changelog_limit as int,
            ),
            Err(e) => record_error(header@) == Some(e@),
        },
{
    let files = match &header.files {
        Ok(f) => file_records(f),
        Err(e) => {
            return Err(e.clone());
        },
    };
    let changelogs = match &header.changelog {
        Some(log) => recent_records(log, changelog_limit),
        None => {
            let r: Vec<ChangelogRecord> = Vec::new();
            proof {
                assert(log_of(r@) =~= recent_changes(Seq::<Change>::empty(), changelog_limit as int));
            }
            r
        },
    };
    let name = match &header.name {
        Ok(s) => s.clone(),
        Err(e) => {
            return Err(e.clone());
        },
    };
    let version = match &header.version {
        Ok(s) => s.clone(),
        Err(e) => {
            return Err(e.clone());
        },
    };
    let release = match &header.release {
        Ok(s) => s.clone(),
        Err(e) => {
            return Err(e.clone());
        },
    };
    let arch = match &header.arch {
        Some(a) => a.clone(),
        None => "noarch".to_owned(),
    };
    let epoch: u32 = match header.epoch {
        Some(e) => e,
        None => 0,
    };
    Ok(
        PkgRecord {
            name,
            epoch,
            version,
            release,
            arch,
            summary: text_or_empty(&header.summary),
            description: text_or_empty(&header.description),
            packager: text_or_empty(&header.packager),
            url: text_or_empty(&header.url),
            license: text_or_empty(&header.license),
            vendor: text_or_empty(&header.vendor),
            group: text_or_empty(&header.group),
            buildhost: text_or_empty(&header.buildhost),
            sourcerpm: text_or_empty(&header.sourcerpm),
            build_time: number_or_zero(header.build_time),
            file_time,
            size_package: body.len() as u64,
            size_installed: number_or_zero(header.installed_size),
            header_start: header.header_range.0,
            header_end: header.header_range.1,
            href: href.to_owned(),
            pkgid: digest::sha256_hex(body),
            provides: some_dep_records(&header.provides, false),
            requires: some_dep_records(&header.requires, true),
            conflicts: some_dep_records(&header.conflicts, false),
            obsoletes: some_dep_records(&header.obsoletes, false),
            files,
            changelogs,
        },
    )
}


/// No two records of a list say the same.
pub proof fn dependencies_are_recorded_once(deps: Seq<Dependency>, drop_rpmlib: bool)
    ensures
        forall|i: int, j: int|
            0 <= i < j < dep_list(deps, drop_rpmlib).len() ==> !same_dep(
                #[trigger] dep_list(deps, drop_rpmlib)[i],
                #[trigger] dep_list(deps, drop_rpmlib)[j],
            ),
    decreases deps.len(),
{
    if deps.len() > 0 {
        dependencies_are_recorded_once(deps.drop_last(), drop_rpmlib);
        let before = dep_list(deps.drop_last(), drop_rpmlib);
        let all = dep_list(deps, drop_rpmlib);
        assert forall|i: int, j: int| 0 <= i < j < all.len() implies !same_dep(
            #[trigger] all[i],
            #[trigger] all[j],
        ) by {
            if j < before.len() {
                assert(all[i] == before[i] && all[j] == before[j]);
            } else {
                assert(all[i] == before[i]);
            }
        }
    }
}

/// A changelog is cut to the limit, and no entry that goes is later than one
/// that stays.
pub proof fn changelog_keeps_the_latest(log: Seq<Change>, limit: int, i: int, j: int)
    requires
        limit >= 0,
        0 <= i < log.len() - limit,
        0 <= j < limit,
    ensures
        recent_changes(log, limit).len() == limit,
        order::sorted_by(log, not_later())[i].date <= recent_changes(log, limit)[j].date,
{
    assert(order::is_preorder(not_later()));
    order::lemma_sorted_by(log, not_later());
    let s = order::sorted_by(log, not_later());
    assert(not_later()(s[i], s[s.len() - limit + j]));
}

} // verus!
