//! Reading the header of an rpm package.
//!
//! The header is read by the `rpm` crate; what it finds is taken over into an
//! [`RpmHeader`] of plain values. Each value depends on the bytes of the
//! package alone.

use vstd::prelude::*;

verus! {

/// `rpm::PackageMetadata`, the parsed lead and headers of a package.
#[verifier::external_type_specification]
#[verifier::external_body]
pub struct ExPackageMetadata(rpm::PackageMetadata);

/// The bytes that the metadata was parsed from.
pub uninterp spec fn package_bytes(md: rpm::PackageMetadata) -> Seq<u8>;

/// A dependency of a package.
#[derive(Debug)]
pub struct RpmDependency {
    pub name: String,
    /// The flag bits, as `rpm::DependencyFlags` has them.
    pub flags: u32,
    pub version: String,
}

/// What an [`RpmDependency`] holds.
pub struct Dependency {
    pub name: Seq<char>,
    pub flags: u32,
    pub version: Seq<char>,
}

impl View for RpmDependency {
    type V = Dependency;

    open spec fn view(&self) -> Dependency {
        Dependency { name: self.name@, flags: self.flags, version: self.version@ }
    }
}

/// A file of a package.
#[derive(Debug)]
pub struct RpmFile {
    pub path: String,
    /// The flag bits, as `rpm::FileFlags` has them.
    pub flags: u32,
    pub is_dir: bool,
}

/// What an [`RpmFile`] holds.
pub struct PackagedFile {
    pub path: Seq<char>,
    pub flags: u32,
    pub is_dir: bool,
}

impl View for RpmFile {
    type V = PackagedFile;

    open spec fn view(&self) -> PackagedFile {
        PackagedFile { path: self.path@, flags: self.flags, is_dir: self.is_dir }
    }
}

/// A changelog entry of a package.
#[derive(Debug)]
pub struct RpmChange {
    pub author: String,
    pub date: u64,
    pub text: String,
}

/// What an [`RpmChange`] holds.
pub struct Change {
    pub author: Seq<char>,
    pub date: u64,
    pub text: Seq<char>,
}

impl View for RpmChange {
    type V = Change;

    open spec fn view(&self) -> Change {
        Change { author: self.author@, date: self.date, text: self.text@ }
    }
}

/// What a list of dependencies holds.
pub open spec fn dependencies_of(v: Seq<RpmDependency>) -> Seq<Dependency> {
    v.map_values(|d: RpmDependency| d@)
}

/// What a list of files holds.
pub open spec fn files_of(v: Seq<RpmFile>) -> Seq<PackagedFile> {
    v.map_values(|f: RpmFile| f@)
}

/// What a list of changelog entries holds.
pub open spec fn changes_of(v: Seq<RpmChange>) -> Seq<Change> {
    v.map_values(|c: RpmChange| c@)
}

/// The text in an optional string.
pub open spec fn text_of(s: Option<String>) -> Option<Seq<char>> {
    match s {
        Some(t) => Some(t@),
        None => None,
    }
}

/// The text in a string, or in the error.
pub open spec fn text_or_error(r: Result<String, String>) -> Result<Seq<char>, Seq<char>> {
    match r {
        Ok(s) => Ok(s@),
        Err(e) => Err(e@),
    }
}

/// The files in a list, or the text of the error.
pub open spec fn files_or_error(r: Result<Vec<RpmFile>, String>) -> Result<
    Seq<PackagedFile>,
    Seq<char>,
> {
    match r {
        Ok(v) => Ok(files_of(v@)),
        Err(e) => Err(e@),
    }
}

/// The dependencies in an optional list.
pub open spec fn some_dependencies(v: Option<Vec<RpmDependency>>) -> Option<Seq<Dependency>> {
    match v {
        Some(d) => Some(dependencies_of(d@)),
        None => None,
    }
}

/// The entries in an optional list.
pub open spec fn some_changes(v: Option<Vec<RpmChange>>) -> Option<Seq<Change>> {
    match v {
        Some(c) => Some(changes_of(c@)),
        None => None,
    }
}

/// What the header of a package says. A value that a package may lack, or that
/// may be malformed, is optional.
#[derive(Debug)]
pub struct RpmHeader {
    pub files: Result<Vec<RpmFile>, String>,
    pub changelog: Option<Vec<RpmChange>>,
    pub name: Result<String, String>,
    pub version: Result<String, String>,
    pub release: Result<String, String>,
    pub arch: Option<String>,
    pub summary: Option<String>,
    pub description: Option<String>,
    pub packager: Option<String>,
    pub url: Option<String>,
    pub license: Option<String>,
    pub vendor: Option<String>,
    pub group: Option<String>,
    pub buildhost: Option<String>,
    pub sourcerpm: Option<String>,
    pub epoch: Option<u32>,
    pub build_time: Option<u64>,
    pub installed_size: Option<u64>,
    /// Where the header starts in the file, and where it ends.
    pub header_range: (u64, u64),
    pub provides: Option<Vec<RpmDependency>>,
    pub requires: Option<Vec<RpmDependency>>,
    pub conflicts: Option<Vec<RpmDependency>>,
    pub obsoletes: Option<Vec<RpmDependency>>,
}

/// What an [`RpmHeader`] holds.
pub struct Header {
    pub files: Result<Seq<PackagedFile>, Seq<char>>,
    pub changelog: Option<Seq<Change>>,
    pub name: Result<Seq<char>, Seq<char>>,
    pub version: Result<Seq<char>, Seq<char>>,
    pub release: Result<Seq<char>, Seq<char>>,
    pub arch: Option<Seq<char>>,
    pub summary: Option<Seq<char>>,
    pub description: Option<Seq<char>>,
    pub packager: Option<Seq<char>>,
    pub url: Option<Seq<char>>,
    pub license: Option<Seq<char>>,
    pub vendor: Option<Seq<char>>,
    pub group: Option<Seq<char>>,
    pub buildhost: Option<Seq<char>>,
    pub sourcerpm: Option<Seq<char>>,
    pub epoch: Option<u32>,
    pub build_time: Option<u64>,
    pub installed_size: Option<u64>,
    pub header_range: (u64, u64),
    pub provides: Option<Seq<Dependency>>,
    pub requires: Option<Seq<Dependency>>,
    pub conflicts: Option<Seq<Dependency>>,
    pub obsoletes: Option<Seq<Dependency>>,
}

impl View for RpmHeader {
    type V = Header;

    open spec fn view(&self) -> Header {
        Header {
            files: files_or_error(self.files),
            changelog: some_changes(self.changelog),
            name: text_or_error(self.name),
            version: text_or_error(self.version),
            release: text_or_error(self.release),
            arch: text_of(self.arch),
            summary: text_of(self.summary),
            description: text_of(self.description),
            packager: text_of(self.packager),
            url: text_of(self.url),
            license: text_of(self.license),
            vendor: text_of(self.vendor),
            group: text_of(self.group),
            buildhost: text_of(self.buildhost),
            sourcerpm: text_of(self.sourcerpm),
            epoch: self.epoch,
            build_time: self.build_time,
            installed_size: self.installed_size,
            header_range: self.header_range,
            provides: some_dependencies(self.provides),
            requires: some_dependencies(self.requires),
            conflicts: some_dependencies(self.conflicts),
            obsoletes: some_dependencies(self.obsoletes),
        }
    }
}

/// Four bytes as a number, the highest first.
pub open spec fn be32(d: Seq<u8>, i: int) -> int {
    d[i] * 16777216 + d[i + 1] * 65536 + d[i + 2] * 256 + d[i + 3]
}

/// A header index starts at `at`: its magic number and version are there.
pub open spec fn starts_index(d: Seq<u8>, at: int) -> bool {
    at + 16 <= d.len() && d[at] == 0x8e && d[at + 1] == 0xad && d[at + 3] == 1
}

/// How many entries the index at `at` has.
pub open spec fn index_entries(d: Seq<u8>, at: int) -> int {
    be32(d, at + 8)
}

/// The size of the data behind the index at `at`.
pub open spec fn data_size(d: Seq<u8>, at: int) -> int {
    be32(d, at + 12)
}

/// The size of the index at `at` with its data.
pub open spec fn section_size(d: Seq<u8>, at: int) -> int {
    16 + 16 * index_entries(d, at) + data_size(d, at)
}

/// The index at `at` is there with all its entries and data.
pub open spec fn is_complete(d: Seq<u8>, at: int) -> bool {
    starts_index(d, at) && at + section_size(d, at) <= d.len()
}

/// Where the entry stands, `k` counted from the first.
pub open spec fn entry_place(at: int, k: int) -> int {
    at + 16 + 16 * k
}

/// The type of the entry's items.
pub open spec fn entry_type(d: Seq<u8>, at: int, k: int) -> int {
    be32(d, entry_place(at, k) + 4)
}

/// Where in the data the entry points.
pub open spec fn entry_offset(d: Seq<u8>, at: int, k: int) -> int {
    be32(d, entry_place(at, k) + 8)
}

/// How many items the entry claims.
pub open spec fn entry_items(d: Seq<u8>, at: int, k: int) -> int {
    be32(d, entry_place(at, k) + 12)
}

/// The room that a list of the entry's items takes for each: numbers of two, four
/// or eight bytes, or strings. For items of other types no list is made.
pub open spec fn item_room(kind: int) -> int {
    if kind == 3 {
        2
    } else if kind == 4 {
        4
    } else if kind == 5 {
        8
    } else if kind == 8 || kind == 9 {
        16
    } else {
        0
    }
}

/// The entry points into the data. A machine of 32 bits can address a list of
/// the items that it claims; others can in any case.
pub open spec fn entry_ok(d: Seq<u8>, at: int, k: int) -> bool {
    &&& entry_offset(d, at, k) <= data_size(d, at)
    &&& entry_offset(d, at, k) < 0x8000_0000
    &&& usize::BITS == 32 ==> item_room(entry_type(d, at, k)) * entry_items(d, at, k)
        <= 0x7fff_ffff
}

/// The index at `at`, if one starts there, is in bounds: complete with entries
/// that are, or cut short where what it claims behind its first 16 bytes is a
/// size that `u32` and `isize` can hold.
pub open spec fn section_ok(d: Seq<u8>, at: int) -> bool {
    starts_index(d, at) ==> if is_complete(d, at) {
        at + section_size(d, at) < 0x1_0000_0000 && forall|k: int|
            0 <= k < index_entries(d, at) ==> #[trigger] entry_ok(d, at, k)
    } else {
        section_size(d, at) - 16 < 0x1_0000_0000 && section_size(d, at) - 16 <= isize::MAX
    }
}

/// Where the main header starts: behind the lead, the signature header and its
/// padding.
pub open spec fn main_header(d: Seq<u8>) -> int {
    96 + section_size(d, 96) + (8 - data_size(d, 96) % 8) % 8
}

/// The signature header and the main header are there, both complete.
pub open spec fn has_headers(d: Seq<u8>) -> bool {
    is_complete(d, 96) && is_complete(d, main_header(d))
}

/// No index of the package points outside its data, or claims more than can be
/// addressed.
pub open spec fn in_bounds(d: Seq<u8>) -> bool {
    section_ok(d, 96) && (is_complete(d, 96) ==> section_ok(d, main_header(d)))
}

/// What `rpm::PackageMetadata::parse` says against the bytes; nothing where it
/// parses them.
pub uninterp spec fn parse_error(data: Seq<u8>) -> Option<Seq<char>>;

/// `rpm::PackageMetadata::parse`: reads the lead and the headers of a package.
/// Whether it succeeds, and the error if not, depends on the bytes alone. It
/// indexes the data by the offsets of the entries, adds sizes up in 32 bits, and
/// sets lists aside for the items that an entry claims, so those have to be in
/// bounds. It reads both headers to their end before it succeeds.
#[verifier::external_body]
fn parse_metadata(data: &[u8]) -> (r: Result<rpm::PackageMetadata, String>)
    requires
        in_bounds(data@),
    ensures
        match r {
            Ok(md) => parse_error(data@) is None && package_bytes(md) == data@ && has_headers(
                data@,
            ),
            Err(e) => parse_error(data@) == Some(e@),
        },
{
    rpm::PackageMetadata::parse(&mut &data[..]).map_err(|e| e.to_string())
}

/// The package name in the package, or the error of `rpm` where it has none.
pub uninterp spec fn rpm_name(data: Seq<u8>) -> Result<Seq<char>, Seq<char>>;

/// `rpm::PackageMetadata::get_name`.
#[verifier::external_body]
fn read_name(md: &rpm::PackageMetadata) -> (r: Result<String, String>)
    ensures
        text_or_error(r) == rpm_name(package_bytes(*md)),
{
    md.get_name().map(|s| s.to_string()).map_err(|e| e.to_string())
}

/// The upstream version in the package, or the error of `rpm` where it has none.
pub uninterp spec fn rpm_version(data: Seq<u8>) -> Result<Seq<char>, Seq<char>>;

/// `rpm::PackageMetadata::get_version`.
#[verifier::external_body]
fn read_version(md: &rpm::PackageMetadata) -> (r: Result<String, String>)
    ensures
        text_or_error(r) == rpm_version(package_bytes(*md)),
{
    md.get_version().map(|s| s.to_string()).map_err(|e| e.to_string())
}

/// The release in the package, or the error of `rpm` where it has none.
pub uninterp spec fn rpm_release(data: Seq<u8>) -> Result<Seq<char>, Seq<char>>;

/// `rpm::PackageMetadata::get_release`.
#[verifier::external_body]
fn read_release(md: &rpm::PackageMetadata) -> (r: Result<String, String>)
    ensures
        text_or_error(r) == rpm_release(package_bytes(*md)),
{
    md.get_release().map(|s| s.to_string()).map_err(|e| e.to_string())
}

/// The architecture in the package, where it has one.
pub uninterp spec fn rpm_arch(data: Seq<u8>) -> Option<Seq<char>>;

/// `rpm::PackageMetadata::get_arch`.
#[verifier::external_body]
fn read_arch(md: &rpm::PackageMetadata) -> (r: Option<String>)
    ensures
        text_of(r) == rpm_arch(package_bytes(*md)),
{
    md.get_arch().ok().map(|s| s.to_string())
}

/// The summary in the package, where it has one.
pub uninterp spec fn rpm_summary(data: Seq<u8>) -> Option<Seq<char>>;

/// `rpm::PackageMetadata::get_summary`.
#[verifier::external_body]
fn read_summary(md: &rpm::PackageMetadata) -> (r: Option<String>)
    ensures
        text_of(r) == rpm_summary(package_bytes(*md)),
{
    md.get_summary().ok().map(|s| s.to_string())
}

/// The description in the package, where it has one.
pub uninterp spec fn rpm_description(data: Seq<u8>) -> Option<Seq<char>>;

/// `rpm::PackageMetadata::get_description`.
#[verifier::external_body]
fn read_description(md: &rpm::PackageMetadata) -> (r: Option<String>)
    ensures
        text_of(r) == rpm_description(package_bytes(*md)),
{
    md.get_description().ok().map(|s| s.to_string())
}

/// The packager in the package, where it has one.
pub uninterp spec fn rpm_packager(data: Seq<u8>) -> Option<Seq<char>>;

/// `rpm::PackageMetadata::get_packager`.
#[verifier::external_body]
fn read_packager(md: &rpm::PackageMetadata) -> (r: Option<String>)
    ensures
        text_of(r) == rpm_packager(package_bytes(*md)),
{
    md.get_packager().ok().map(|s| s.to_string())
}

/// The project's URL in the package, where it has one.
pub uninterp spec fn rpm_url(data: Seq<u8>) -> Option<Seq<char>>;

/// `rpm::PackageMetadata::get_url`.
#[verifier::external_body]
fn read_url(md: &rpm::PackageMetadata) -> (r: Option<String>)
    ensures
        text_of(r) == rpm_url(package_bytes(*md)),
{
    md.get_url().ok().map(|s| s.to_string())
}

/// The license in the package, where it has one.
pub uninterp spec fn rpm_license(data: Seq<u8>) -> Option<Seq<char>>;

/// `rpm::PackageMetadata::get_license`.
#[verifier::external_body]
fn read_license(md: &rpm::PackageMetadata) -> (r: Option<String>)
    ensures
        text_of(r) == rpm_license(package_bytes(*md)),
{
    md.get_license().ok().map(|s| s.to_string())
}

/// The vendor in the package, where it has one.
pub uninterp spec fn rpm_vendor(data: Seq<u8>) -> Option<Seq<char>>;

/// `rpm::PackageMetadata::get_vendor`.
#[verifier::external_body]
fn read_vendor(md: &rpm::PackageMetadata) -> (r: Option<String>)
    ensures
        text_of(r) == rpm_vendor(package_bytes(*md)),
{
    md.get_vendor().ok().map(|s| s.to_string())
}

/// The package group in the package, where it has one.
pub uninterp spec fn rpm_group(data: Seq<u8>) -> Option<Seq<char>>;

/// `rpm::PackageMetadata::get_group`.
#[verifier::external_body]
fn read_group(md: &rpm::PackageMetadata) -> (r: Option<String>)
    ensures
        text_of(r) == rpm_group(package_bytes(*md)),
{
    md.get_group().ok().map(|s| s.to_string())
}

/// The build host in the package, where it has one.
pub uninterp spec fn rpm_buildhost(data: Seq<u8>) -> Option<Seq<char>>;

/// `rpm::PackageMetadata::get_build_host`.
#[verifier::external_body]
fn read_buildhost(md: &rpm::PackageMetadata) -> (r: Option<String>)
    ensures
        text_of(r) == rpm_buildhost(package_bytes(*md)),
{
    md.get_build_host().ok().map(|s| s.to_string())
}

/// The source package's file name in the package, where it has one.
pub uninterp spec fn rpm_sourcerpm(data: Seq<u8>) -> Option<Seq<char>>;

/// `rpm::PackageMetadata::get_source_rpm`.
#[verifier::external_body]
fn read_sourcerpm(md: &rpm::PackageMetadata) -> (r: Option<String>)
    ensures
        text_of(r) == rpm_sourcerpm(package_bytes(*md)),
{
    md.get_source_rpm().ok().map(|s| s.to_string())
}

/// The epoch in the package, where it has one.
pub uninterp spec fn rpm_epoch(data: Seq<u8>) -> Option<u32>;

/// `rpm::PackageMetadata::get_epoch`.
#[verifier::external_body]
fn read_epoch(md: &rpm::PackageMetadata) -> (r: Option<u32>)
    ensures
        r == rpm_epoch(package_bytes(*md)),
{
    md.get_epoch().ok()
}

/// The build time in Unix seconds in the package, where it has one.
pub uninterp spec fn rpm_build_time(data: Seq<u8>) -> Option<u64>;

/// `rpm::PackageMetadata::get_build_time`.
#[verifier::external_body]
fn read_build_time(md: &rpm::PackageMetadata) -> (r: Option<u64>)
    ensures
        r == rpm_build_time(package_bytes(*md)),
{
    md.get_build_time().ok()
}

/// The installed size in bytes in the package, where it has one.
pub uninterp spec fn rpm_installed_size(data: Seq<u8>) -> Option<u64>;

/// `rpm::PackageMetadata::get_installed_size`.
#[verifier::external_body]
fn read_installed_size(md: &rpm::PackageMetadata) -> (r: Option<u64>)
    ensures
        r == rpm_installed_size(package_bytes(*md)),
{
    md.get_installed_size().ok()
}

/// Where the main header starts and ends in the package.
pub open spec fn header_range_in(d: Seq<u8>) -> (u64, u64) {
    (main_header(d) as u64, (main_header(d) + section_size(d, main_header(d))) as u64)
}

/// `rpm::PackageMetadata::get_package_segment_offsets`: the start of the main
/// header, and that of the payload, which is its end. It adds up the lead, the
/// signature header with its padding, and the main header.
#[verifier::external_body]
fn read_header_range(md: &rpm::PackageMetadata) -> (r: (u64, u64))
    requires
        in_bounds(package_bytes(*md)),
        has_headers(package_bytes(*md)),
    ensures
        r == header_range_in(package_bytes(*md)),
{
    let offsets = md.get_package_segment_offsets();
    (offsets.header, offsets.payload)
}

/// The package's list of what it provides, where it can be read.
pub uninterp spec fn rpm_provides(data: Seq<u8>) -> Option<Seq<Dependency>>;

/// `rpm::PackageMetadata::get_provides`, the flags of each as bits.
#[verifier::external_body]
fn read_provides(md: &rpm::PackageMetadata) -> (r: Option<Vec<RpmDependency>>)
    ensures
        some_dependencies(r) == rpm_provides(package_bytes(*md)),
{
    let deps = md.get_provides().ok()?;
    Some(
        deps.into_iter()
            .map(|d| RpmDependency { name: d.name, flags: d.flags.bits(), version: d.version })
            .collect(),
    )
}

/// The package's list of what it requires, where it can be read.
pub uninterp spec fn rpm_requires(data: Seq<u8>) -> Option<Seq<Dependency>>;

/// `rpm::PackageMetadata::get_requires`, the flags of each as bits.
#[verifier::external_body]
fn read_requires(md: &rpm::PackageMetadata) -> (r: Option<Vec<RpmDependency>>)
    ensures
        some_dependencies(r) == rpm_requires(package_bytes(*md)),
{
    let deps = md.get_requires().ok()?;
    Some(
        deps.into_iter()
            .map(|d| RpmDependency { name: d.name, flags: d.flags.bits(), version: d.version })
            .collect(),
    )
}

/// The package's list of what it conflicts with, where it can be read.
pub uninterp spec fn rpm_conflicts(data: Seq<u8>) -> Option<Seq<Dependency>>;

/// `rpm::PackageMetadata::get_conflicts`, the flags of each as bits.
#[verifier::external_body]
fn read_conflicts(md: &rpm::PackageMetadata) -> (r: Option<Vec<RpmDependency>>)
    ensures
        some_dependencies(r) == rpm_conflicts(package_bytes(*md)),
{
    let deps = md.get_conflicts().ok()?;
    Some(
        deps.into_iter()
            .map(|d| RpmDependency { name: d.name, flags: d.flags.bits(), version: d.version })
            .collect(),
    )
}

/// The package's list of what it obsoletes, where it can be read.
pub uninterp spec fn rpm_obsoletes(data: Seq<u8>) -> Option<Seq<Dependency>>;

/// `rpm::PackageMetadata::get_obsoletes`, the flags of each as bits.
#[verifier::external_body]
fn read_obsoletes(md: &rpm::PackageMetadata) -> (r: Option<Vec<RpmDependency>>)
    ensures
        some_dependencies(r) == rpm_obsoletes(package_bytes(*md)),
{
    let deps = md.get_obsoletes().ok()?;
    Some(
        deps.into_iter()
            .map(|d| RpmDependency { name: d.name, flags: d.flags.bits(), version: d.version })
            .collect(),
    )
}

/// The files of the package, or the error of `rpm` where they cannot be read.
pub uninterp spec fn rpm_files(data: Seq<u8>) -> Result<Seq<PackagedFile>, Seq<char>>;

/// `rpm::PackageMetadata::get_file_entries`: of each entry the path, the flags
/// as bits, and whether it is a directory.
#[verifier::external_body]
fn read_files(md: &rpm::PackageMetadata) -> (r: Result<Vec<RpmFile>, String>)
    ensures
        files_or_error(r) == rpm_files(package_bytes(*md)),
{
    let entries = md.get_file_entries().map_err(|e| e.to_string())?;
    Ok(
        entries.iter()
            .map(|f| RpmFile {
                path: f.path().to_string_lossy().into_owned(),
                flags: f.flags().bits(),
                is_dir: matches!(f.file_type(), rpm::FileType::Dir),
            })
            .collect(),
    )
}

/// The changelog of the package, where it can be read.
pub uninterp spec fn rpm_changelog(data: Seq<u8>) -> Option<Seq<Change>>;

/// `rpm::PackageMetadata::get_changelog_entries`.
#[verifier::external_body]
fn read_changelog(md: &rpm::PackageMetadata) -> (r: Option<Vec<RpmChange>>)
    ensures
        some_changes(r) == rpm_changelog(package_bytes(*md)),
{
    let entries = md.get_changelog_entries().ok()?;
    Some(
        entries.into_iter()
            .map(|c| RpmChange { author: c.name, date: c.timestamp, text: c.description })
            .collect(),
    )
}

/// What the header in the bytes says.
pub open spec fn header_in(data: Seq<u8>) -> Header {
    Header {
        files: rpm_files(data),
        changelog: rpm_changelog(data),
        name: rpm_name(data),
        version: rpm_version(data),
        release: rpm_release(data),
        arch: rpm_arch(data),
        summary: rpm_summary(data),
        description: rpm_description(data),
        packager: rpm_packager(data),
        url: rpm_url(data),
        license: rpm_license(data),
        vendor: rpm_vendor(data),
        group: rpm_group(data),
        buildhost: rpm_buildhost(data),
        sourcerpm: rpm_sourcerpm(data),
        epoch: rpm_epoch(data),
        build_time: rpm_build_time(data),
        installed_size: rpm_installed_size(data),
        header_range: header_range_in(data),
        provides: rpm_provides(data),
        requires: rpm_requires(data),
        conflicts: rpm_conflicts(data),
        obsoletes: rpm_obsoletes(data),
    }
}

/// Takes over what the parsed header says.
fn read_header(md: &rpm::PackageMetadata) -> (r: RpmHeader)
    requires
        in_bounds(package_bytes(*md)),
        has_headers(package_bytes(*md)),
    ensures
        r@ == header_in(package_bytes(*md)),
{
    RpmHeader {
        files: read_files(md),
        changelog: read_changelog(md),
        name: read_name(md),
        version: read_version(md),
        release: read_release(md),
        arch: read_arch(md),
        summary: read_summary(md),
        description: read_description(md),
        packager: read_packager(md),
        url: read_url(md),
        license: read_license(md),
        vendor: read_vendor(md),
        group: read_group(md),
        buildhost: read_buildhost(md),
        sourcerpm: read_sourcerpm(md),
        epoch: read_epoch(md),
        build_time: read_build_time(md),
        installed_size: read_installed_size(md),
        header_range: read_header_range(md),
        provides: read_provides(md),
        requires: read_requires(md),
        conflicts: read_conflicts(md),
        obsoletes: read_obsoletes(md),
    }
}

/// Why a package was refused.
#[derive(Debug)]
pub enum PackageError {
    /// An index of a header points outside its data, or claims more than can be
    /// addressed.
    OutOfBounds,
    /// What `rpm` says against the bytes.
    Invalid(String),
}

/// Reads the header of a package. Bytes with an index that is out of bounds are
/// refused unparsed.
pub fn parse_package(data: &[u8]) -> (r: Result<RpmHeader, PackageError>)
    ensures
        match r {
            Ok(header) => in_bounds(data@) && has_headers(data@) && parse_error(data@) is None
                && header@ == header_in(data@),
            Err(PackageError::OutOfBounds) => !in_bounds(data@),
            Err(PackageError::Invalid(e)) => in_bounds(data@) && parse_error(data@) == Some(e@),
        },
{
    if !index_in_bounds(data) {
        return Err(PackageError::OutOfBounds);
    }
    match parse_metadata(data) {
        Ok(md) => Ok(read_header(&md)),
        Err(e) => Err(PackageError::Invalid(e)),
    }
}

/// Four bytes as a number, the highest first.
fn read_be32(d: &[u8], i: usize) -> (r: u64)
    requires
        i + 4 <= d@.len(),
    ensures
        r == be32(d@, i as int),
        r < 0x1_0000_0000,
{
    let n: usize = d.len();
    assert(i + 4 <= n);
    d[i] as u64 * 16777216 + d[i + 1] as u64 * 65536 + d[i + 2] as u64 * 256 + d[i + 3] as u64
}

/// Checks entry `k` of the index at `at`.
fn check_entry(d: &[u8], at: usize, k: u64) -> (r: bool)
    requires
        starts_index(d@, at as int),
        is_complete(d@, at as int),
        at + section_size(d@, at as int) < 0x1_0000_0000,
        k < index_entries(d@, at as int),
    ensures
        r == entry_ok(d@, at as int, k as int),
{
    let n: usize = d.len();
    let place: usize = at + 16 + 16 * k as usize;
    let kind: u64 = read_be32(d, place + 4);
    let offset: u64 = read_be32(d, place + 8);
    let items: u64 = read_be32(d, place + 12);
    let data: u64 = read_be32(d, at + 12);
    if offset > data || offset >= 0x8000_0000 {
        return false;
    }
    let room: u64 = match kind {
        3 => 2,
        4 => 4,
        5 => 8,
        8 => 16,
        9 => 16,
        _ => 0,
    };
    proof {
        assert(0 <= room * items <= 16 * items) by (nonlinear_arith)
            requires
                room <= 16,
        ;
    }
    usize::BITS != 32 || room * items <= 0x7fff_ffff
}

/// Checks the section at `at`; gives its size where it is complete.
fn check_section(d: &[u8], at: usize) -> (r: Result<Option<usize>, ()>)
    ensures
        match r {
            Ok(Some(size)) => section_ok(d@, at as int) && is_complete(d@, at as int) && size
                == section_size(d@, at as int) && at + size <= d@.len(),
            Ok(None) => section_ok(d@, at as int) && !is_complete(d@, at as int),
            Err(_) => !section_ok(d@, at as int),
        },
{
    let n: usize = d.len();
    if at > n || n - at < 16 || d[at] != 0x8e || d[at + 1] != 0xad || d[at + 3] != 1 {
        return Ok(None);
    }
    let count: u64 = read_be32(d, at + 8);
    let data: u64 = read_be32(d, at + 12);
    let size: u64 = 16 + 16 * count + data;
    let start: u64 = at as u64;
    if size > (n - at) as u64 {
        if size - 16 >= 0x1_0000_0000 || size - 16 > isize::MAX as u64 {
            return Err(());
        }
        return Ok(None);
    }
    if start + size >= 0x1_0000_0000 {
        return Err(());
    }
    let mut k: u64 = 0;
    while k < count
        invariant
            k <= count,
            count == index_entries(d@, at as int),
            at + section_size(d@, at as int) < 0x1_0000_0000,
            starts_index(d@, at as int),
            is_complete(d@, at as int),
            forall|j: int| 0 <= j < k ==> #[trigger] entry_ok(d@, at as int, j),
        decreases count - k,
    {
        if !check_entry(d, at, k) {
            assert(!entry_ok(d@, at as int, k as int));
            return Err(());
        }
        k = k + 1;
    }
    Ok(Some(size as usize))
}

/// No index of the package points outside its data, or claims more than can be
/// addressed.
pub fn index_in_bounds(data: &[u8]) -> (r: bool)
    ensures
        r == in_bounds(data@),
{
    match check_section(data, 96) {
        Ok(Some(size)) => {
            let stored: u64 = read_be32(data, 108);
            let padding: u64 = (8 - stored % 8) % 8;
            let end: usize = 96 + size;
            let n: usize = data.len();
            if padding as usize > n - end {
                proof {
                    assert(main_header(data@) > n);
                    assert(!starts_index(data@, main_header(data@)));
                }
                return true;
            }
            match check_section(data, end + padding as usize) {
                Ok(_) => true,
                Err(_) => false,
            }
        },
        Ok(None) => true,
        Err(_) => false,
    }
}

} // verus!
