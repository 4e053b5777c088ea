//! How the header of a package becomes its record, and how the record is
//! written.

use vstd::prelude::*;

use crate::digest;
use crate::order;
use crate::path;
use crate::repodata::{self, Document};
use crate::rpm_package::{self, Change, Dependency, Header, PackagedFile};
use crate::rpm_record::{self, Dep, FileLine, Pkg};
use crate::text;
use crate::xml;

verus! {

/// Versions are compared as the three bits of the flags say; other combinations
/// compare nothing.
pub proof fn comparisons_go_by_their_bits(flags: u32)
    ensures
        flags & 14 == 8 ==> rpm_record::sense_text(flags) == Some("EQ"@),
        flags & 14 == 2 ==> rpm_record::sense_text(flags) == Some("LT"@),
        flags & 14 == 4 ==> rpm_record::sense_text(flags) == Some("GT"@),
        flags & 14 == 10 ==> rpm_record::sense_text(flags) == Some("LE"@),
        flags & 14 == 12 ==> rpm_record::sense_text(flags) == Some("GE"@),
        flags & 14 == 0 || flags & 14 == 6 || flags & 14 == 14 ==> rpm_record::sense_text(
            flags,
        ) is None,
        flags & 14 == 0 || flags & 14 == 2 || flags & 14 == 4 || flags & 14 == 6 || flags & 14 == 8
            || flags & 14 == 10 || flags & 14 == 12 || flags & 14 == 14,
{
    let s: u32 = flags & 14;
    assert(s == 0 || s == 2 || s == 4 || s == 6 || s == 8 || s == 10 || s == 12 || s == 14)
        by (bit_vector)
        requires
            s == flags & 14,
    ;
}

/// A digit in a text.
pub open spec fn is_digit(c: char) -> bool {
    '0' <= c && c <= '9'
}

proof fn lemma_digits(e: Seq<char>)
    ensures
        rpm_record::all_digits(e) <==> forall|i: int| 0 <= i < e.len() ==> is_digit(#[trigger] e[i]),
{
    if rpm_record::all_digits(e) {
        assert forall|i: int| 0 <= i < e.len() implies is_digit(#[trigger] e[i]) by {
            assert('0' <= e[i] && e[i] <= '9');
        }
    }
    if forall|i: int| 0 <= i < e.len() ==> is_digit(#[trigger] e[i]) {
        assert forall|i: int| 0 <= i < e.len() implies '0' <= #[trigger] e[i] && e[i] <= '9' by {
            assert(is_digit(e[i]));
        }
    }
}

proof fn lemma_epoch(e: Seq<char>, rest: Seq<char>)
    requires
        e.len() > 0,
        forall|i: int| 0 <= i < e.len() ==> is_digit(#[trigger] e[i]),
    ensures
        rpm_record::epoch_split(e + ":"@ + rest) == (e, rest),
{
    reveal_strlit(":");
    assert(!e.contains(':')) by {
        if e.contains(':') {
            let i = choose|i: int| 0 <= i < e.len() && e[i] == ':';
            assert(is_digit(e[i]));
        }
    }
    path::separators_come_apart(e, ":"@, rest);
    lemma_digits(e);
}

proof fn lemma_no_epoch(s: Seq<char>)
    requires
        !s.contains(':'),
    ensures
        rpm_record::epoch_split(s) == ("0"@, s),
{
    reveal_strlit(":");
    path::halves_stand_around_the_first(s, ":"@);
    if let Some((a, b)) = text::halves(s, ":"@) {
        assert(s[a.len() as int] == ':');
    }
}

proof fn lemma_release(v: Seq<char>, r: Seq<char>)
    requires
        !r.contains('-'),
    ensures
        text::last_of(v + "-"@ + r, '-') == Some(v.len() as int),
        (v + "-"@ + r).subrange(0, v.len() as int) == v,
        (v + "-"@ + r).subrange(v.len() as int + 1, (v + "-"@ + r).len() as int) == r,
{
    reveal_strlit("-");
    let s = v + "-"@ + r;
    assert(s =~= v.push('-') + r);
    path::lemma_last_separator(v, '-', r);
    assert(s.subrange(0, v.len() as int) =~= v);
    assert(s.subrange(v.len() as int + 1, s.len() as int) =~= r);
}

/// A version comes apart into the epoch before the first colon, where that is
/// made of digits, the version before the last dash, and the release behind it.
pub proof fn versions_come_apart(e: Seq<char>, v: Seq<char>, r: Seq<char>)
    requires
        e.len() > 0,
        forall|i: int| 0 <= i < e.len() ==> is_digit(#[trigger] e[i]),
        !r.contains('-'),
    ensures
        rpm_record::evr_parts(e + ":"@ + v + "-"@ + r) == (e, v, Some(r)),
        !v.contains('-') ==> rpm_record::evr_parts(e + ":"@ + v) == (e, v, None::<Seq<char>>),
        !(v + "-"@ + r).contains(':') ==> rpm_record::evr_parts(v + "-"@ + r) == (
            "0"@,
            v,
            Some(r),
        ),
        !v.contains('-') && !v.contains(':') ==> rpm_record::evr_parts(v) == (
            "0"@,
            v,
            None::<Seq<char>>,
        ),
{
    let rest = v + "-"@ + r;
    assert(e + ":"@ + v + "-"@ + r =~= e + ":"@ + rest);
    lemma_epoch(e, rest);
    lemma_epoch(e, v);
    lemma_release(v, r);
    if !rest.contains(':') {
        lemma_no_epoch(rest);
    }
    if !v.contains(':') {
        lemma_no_epoch(v);
    }
    if !v.contains('-') {
        path::lemma_no_last(v, '-');
    }
}

/// What stands before the first colon is no epoch unless it is made of digits.
pub proof fn epochs_are_made_of_digits(a: Seq<char>, rest: Seq<char>)
    requires
        !a.contains(':'),
        a.len() == 0 || exists|i: int| 0 <= i < a.len() && !is_digit(#[trigger] a[i]),
    ensures
        rpm_record::epoch_split(a + ":"@ + rest) == ("0"@, a + ":"@ + rest),
{
    reveal_strlit(":");
    path::separators_come_apart(a, ":"@, rest);
    lemma_digits(a);
}

/// The record of a dependency has its name; what it compares, with epoch, version
/// and release, only where the flags compare versions; and whether it is needed
/// before installation.
pub proof fn dependencies_are_recorded(d: Dependency)
    ensures
        ({
            let r = rpm_record::dep_record(d);
            let (epoch, ver, rel) = rpm_record::evr_parts(d.version);
            &&& r.name == d.name
            &&& r.flags == rpm_record::sense_text(d.flags)
            &&& r.pre == (d.flags & 1600 != 0)
            &&& rpm_record::sense_text(d.flags) is Some ==> r.epoch == Some(epoch) && r.ver == Some(
                ver,
            ) && r.rel == rel
            &&& rpm_record::sense_text(d.flags) is None ==> r.epoch is None && r.ver is None
                && r.rel is None
        }),
{
}

/// A dependency is recorded behind those before it, unless one of the same name,
/// comparison, version and release is already there, or it is one that `rpm` has
/// within itself and those are to be dropped.
pub proof fn dependencies_are_recorded_in_order(deps: Seq<Dependency>, d: Dependency, drop: bool)
    ensures
        rpm_record::dep_list(Seq::empty(), drop).len() == 0,
        ({
            let before = rpm_record::dep_list(deps, drop);
            let r = rpm_record::dep_record(d);
            let known = exists|i: int|
                0 <= i < before.len() && (#[trigger] before[i]).name == r.name && before[i].flags
                    == r.flags && before[i].ver == r.ver && before[i].rel == r.rel;
            rpm_record::dep_list(deps.push(d), drop) == if known || (drop
                && "rpmlib("@.is_prefix_of(d.name)) {
                before
            } else {
                before.push(r)
            }
        }),
{
    assert(deps.push(d).drop_last() =~= deps);
    let before = rpm_record::dep_list(deps, drop);
    let r = rpm_record::dep_record(d);
    if exists|i: int|
        0 <= i < before.len() && (#[trigger] before[i]).name == r.name && before[i].flags == r.flags
            && before[i].ver == r.ver && before[i].rel == r.rel {
        let i = choose|i: int|
            0 <= i < before.len() && (#[trigger] before[i]).name == r.name && before[i].flags
                == r.flags && before[i].ver == r.ver && before[i].rel == r.rel;
        assert(rpm_record::same_dep(before[i], r));
    }
    if rpm_record::recorded(before, r) {
        let i = choose|i: int| 0 <= i < before.len() && rpm_record::same_dep(#[trigger] before[i], r);
        assert(before[i].name == r.name);
    }
}

/// A file is a ghost where its flags have that bit, else a directory where it is
/// one, else of no special kind. Files keep their paths and their order.
pub proof fn files_are_recorded(files: Seq<PackagedFile>, i: int)
    requires
        0 <= i < files.len(),
    ensures
        rpm_record::file_lines(files).len() == files.len(),
        rpm_record::file_lines(files)[i].path == files[i].path,
        files[i].flags & 64 == 64 ==> rpm_record::file_lines(files)[i].kind == "ghost"@,
        files[i].flags & 64 != 64 && files[i].is_dir ==> rpm_record::file_lines(files)[i].kind
            == "dir"@,
        files[i].flags & 64 != 64 && !files[i].is_dir ==> rpm_record::file_lines(
            files,
        )[i].kind.len() == 0,
{
    reveal_strlit("");
}

/// Of the changelog the latest entries are kept, up to the limit, the oldest of
/// them first.
pub proof fn changes_are_kept_by_time(log: Seq<Change>, limit: int, i: int, j: int)
    requires
        limit >= 0,
    ensures
        rpm_record::recent_changes(log, limit).len() == (if log.len() > limit {
            limit
        } else {
            log.len() as int
        }),
        0 <= i < j < rpm_record::recent_changes(log, limit).len() ==> rpm_record::recent_changes(
            log,
            limit,
        )[i].date <= rpm_record::recent_changes(log, limit)[j].date,
        0 <= i < rpm_record::recent_changes(log, limit).len() ==> log.contains(
            rpm_record::recent_changes(log, limit)[i],
        ),
{
    let le = rpm_record::not_later();
    order::lemma_sorted_by(log, le);
    let sorted = order::sorted_by(log, le);
    let kept = rpm_record::recent_changes(log, limit);
    let k = if sorted.len() > limit {
        sorted.len() - limit
    } else {
        0
    };
    if 0 <= i < j < kept.len() {
        assert(kept[i] == sorted[i + k] && kept[j] == sorted[j + k]);
        assert(le(sorted[i + k], sorted[j + k]));
    }
    if 0 <= i < kept.len() {
        assert(kept[i] == sorted[i + k]);
        assert(sorted.contains(kept[i]));
        order::lemma_sorted_members(log, le, kept[i]);
    }
}

/// Each value of the record is the value of that name in the header; texts that
/// the header lacks are empty, numbers zero, lists empty, and the architecture
/// `noarch`.
pub proof fn records_take_over_the_header(
    h: Header,
    body: Seq<u8>,
    href: Seq<char>,
    file_time: u64,
    limit: int,
)
    ensures
        ({
            let r = rpm_record::record_of(h, body, href, file_time, limit);
            &&& h.name matches Ok(s) ==> r.name == s
            &&& h.version matches Ok(s) ==> r.version == s
            &&& h.release matches Ok(s) ==> r.release == s
            &&& h.epoch matches Some(n) ==> r.epoch == n
            &&& h.epoch is None ==> r.epoch == 0
            &&& h.arch matches Some(s) ==> r.arch == s
            &&& h.arch is None ==> r.arch == "noarch"@
            &&& h.summary matches Some(s) ==> r.summary == s
            &&& h.summary is None ==> r.summary == ""@
            &&& h.description matches Some(s) ==> r.description == s
            &&& h.description is None ==> r.description == ""@
            &&& h.packager matches Some(s) ==> r.packager == s
            &&& h.packager is None ==> r.packager == ""@
            &&& h.url matches Some(s) ==> r.url == s
            &&& h.url is None ==> r.url == ""@
            &&& h.license matches Some(s) ==> r.license == s
            &&& h.license is None ==> r.license == ""@
            &&& h.vendor matches Some(s) ==> r.vendor == s
            &&& h.vendor is None ==> r.vendor == ""@
            &&& h.group matches Some(s) ==> r.group == s
            &&& h.group is None ==> r.group == ""@
            &&& h.buildhost matches Some(s) ==> r.buildhost == s
            &&& h.buildhost is None ==> r.buildhost == ""@
            &&& h.sourcerpm matches Some(s) ==> r.sourcerpm == s
            &&& h.sourcerpm is None ==> r.sourcerpm == ""@
            &&& h.build_time matches Some(n) ==> r.build_time == n
            &&& h.build_time is None ==> r.build_time == 0
            &&& h.installed_size matches Some(n) ==> r.size_installed == n
            &&& h.installed_size is None ==> r.size_installed == 0
            &&& r.header_start == h.header_range.0
            &&& r.header_end == h.header_range.1
            &&& r.href == href
            &&& r.file_time == file_time
            &&& body.len() <= u64::MAX ==> r.size_package == body.len()
            &&& r.pkgid == digest::hex_text(digest::sha256(body))
        }),
{
}

/// Each list of the record is made of the list of that name in the header; only
/// from what a package requires is dropped what `rpm` has within itself.
pub proof fn records_take_over_the_lists(
    h: Header,
    body: Seq<u8>,
    href: Seq<char>,
    file_time: u64,
    limit: int,
)
    ensures
        ({
            let r = rpm_record::record_of(h, body, href, file_time, limit);
            &&& h.provides matches Some(d) ==> r.provides == rpm_record::dep_list(d, false)
            &&& h.provides is None ==> r.provides.len() == 0
            &&& h.requires matches Some(d) ==> r.requires == rpm_record::dep_list(d, true)
            &&& h.requires is None ==> r.requires.len() == 0
            &&& h.conflicts matches Some(d) ==> r.conflicts == rpm_record::dep_list(d, false)
            &&& h.conflicts is None ==> r.conflicts.len() == 0
            &&& h.obsoletes matches Some(d) ==> r.obsoletes == rpm_record::dep_list(d, false)
            &&& h.obsoletes is None ==> r.obsoletes.len() == 0
            &&& h.files matches Ok(f) ==> r.files == rpm_record::file_lines(f)
            &&& h.changelog matches Some(c) ==> r.changelogs == rpm_record::recent_changes(c, limit)
            &&& h.changelog is None && limit >= 0 ==> r.changelogs.len() == 0
        }),
{
    let none = Seq::<Change>::empty();
    order::lemma_sorted_by(none, rpm_record::not_later());
}

/// A header makes a record exactly where its files, name, version and release
/// can be read; else the first of these that cannot gives the error.
pub proof fn records_need_four_values(h: Header)
    ensures
        rpm_record::record_error(h) is None <==> h.files is Ok && h.name is Ok && h.version is Ok
            && h.release is Ok,
        h.files matches Err(e) ==> rpm_record::record_error(h) == Some(e),
        h.files is Ok && (h.name matches Err(e)) ==> rpm_record::record_error(h) == Some(
            h.name->Err_0,
        ),
        h.files is Ok && h.name is Ok && (h.version matches Err(e)) ==> rpm_record::record_error(h)
            == Some(h.version->Err_0),
        h.files is Ok && h.name is Ok && h.version is Ok && (h.release matches Err(e))
            ==> rpm_record::record_error(h) == Some(h.release->Err_0),
{
}

/// Each value of the header is what `rpm` reads for it.
pub proof fn headers_are_read_value_by_value(d: Seq<u8>)
    ensures
        ({
            let h = rpm_package::header_in(d);
            &&& h.name == rpm_package::rpm_name(d)
            &&& h.version == rpm_package::rpm_version(d)
            &&& h.release == rpm_package::rpm_release(d)
            &&& h.arch == rpm_package::rpm_arch(d)
            &&& h.summary == rpm_package::rpm_summary(d)
            &&& h.description == rpm_package::rpm_description(d)
            &&& h.packager == rpm_package::rpm_packager(d)
            &&& h.url == rpm_package::rpm_url(d)
            &&& h.license == rpm_package::rpm_license(d)
            &&& h.vendor == rpm_package::rpm_vendor(d)
            &&& h.group == rpm_package::rpm_group(d)
            &&& h.buildhost == rpm_package::rpm_buildhost(d)
            &&& h.sourcerpm == rpm_package::rpm_sourcerpm(d)
            &&& h.epoch == rpm_package::rpm_epoch(d)
            &&& h.build_time == rpm_package::rpm_build_time(d)
            &&& h.installed_size == rpm_package::rpm_installed_size(d)
            &&& h.provides == rpm_package::rpm_provides(d)
            &&& h.requires == rpm_package::rpm_requires(d)
            &&& h.conflicts == rpm_package::rpm_conflicts(d)
            &&& h.obsoletes == rpm_package::rpm_obsoletes(d)
            &&& h.files == rpm_package::rpm_files(d)
            &&& h.changelog == rpm_package::rpm_changelog(d)
        }),
{
}

/// The main header starts at the first multiple of eight behind the signature
/// header, and ends with its data.
pub proof fn headers_lie_at_multiples_of_eight(d: Seq<u8>)
    requires
        rpm_package::has_headers(d),
        d.len() < 0x1_0000_0000,
    ensures
        ({
            let (start, end) = rpm_package::header_range_in(d);
            let signature = 96 + 16 + 16 * rpm_package::be32(d, 104) + rpm_package::be32(d, 108);
            &&& signature <= start < signature + 8
            &&& start % 8 == 0
            &&& end == start + 16 + 16 * rpm_package::be32(d, start + 8) + rpm_package::be32(
                d,
                start + 12,
            )
            &&& end <= d.len()
        }),
{
    let n = rpm_package::be32(d, 104);
    let m = rpm_package::be32(d, 108);
    let s = 96 + rpm_package::section_size(d, 96);
    assert(s % 8 == m % 8) by (nonlinear_arith)
        requires
            s == 96 + 16 + 16 * n + m,
    ;
    let start = rpm_package::main_header(d);
    assert(0 <= start < 0x1_0000_0000);
    assert(n >= 0 && m >= 0);
}

/// Numbers in the header are read with the highest byte first.
pub proof fn numbers_are_read_highest_first(d: Seq<u8>, i: int)
    ensures
        rpm_package::be32(d, i) == ((d[i] * 256 + d[i + 1]) * 256 + d[i + 2]) * 256 + d[i + 3],
{
}

/// An escaped text is the escaped characters in a row.
pub proof fn escaping_goes_by_characters(a: Seq<char>, b: Seq<char>)
    ensures
        xml::escaped(a + b) == xml::escaped(a) + xml::escaped(b),
        xml::escaped(Seq::empty()).len() == 0,
    decreases b.len(),
{
    if b.len() == 0 {
        assert(a + b =~= a);
        assert(xml::escaped(a) + xml::escaped(b) =~= xml::escaped(a));
    } else {
        let s = a + b;
        escaping_goes_by_characters(a, b.drop_last());
        assert(s.drop_last() =~= a + b.drop_last());
        assert(s.last() == b.last());
        let x = xml::escaped(a);
        let y = xml::escaped(b.drop_last());
        let z = xml::escaped_char(b.last());
        assert(x + y + z =~= x + (y + z));
    }
}

/// `&`, `<`, `>` and `"` are written as entities; other characters that XML
/// allows stay; those that it does not go.
pub proof fn characters_are_escaped(c: char)
    ensures
        c == '&' ==> xml::escaped(seq![c]) == "&amp;"@,
        c == '<' ==> xml::escaped(seq![c]) == "&lt;"@,
        c == '>' ==> xml::escaped(seq![c]) == "&gt;"@,
        c == '"' ==> xml::escaped(seq![c]) == "&quot;"@,
        c != '&' && c != '<' && c != '>' && c != '"' ==> ({
            let n = c as u32;
            let allowed = n == 9 || n == 10 || n == 13 || (32 <= n <= 0xD7FF) || (0xE000 <= n
                <= 0xFFFD) || (0x10000 <= n <= 0x10FFFF);
            xml::escaped(seq![c]) == if allowed {
                seq![c]
            } else {
                Seq::<char>::empty()
            }
        }),
{
    let none = Seq::<char>::empty();
    assert(seq![c].drop_last() =~= none);
    assert(xml::escaped(seq![c]) == xml::escaped(none) + xml::escaped_char(c));
    assert(xml::escaped(none) =~= none);
    assert(none + xml::escaped_char(c) =~= xml::escaped_char(c));
}

/// An entry gives the name of the dependency, and `pre` where it is needed before
/// installation.
pub proof fn plain_entries_are_written(d: Dep)
    requires
        d.flags is None,
    ensures
        !d.pre ==> repodata::dep_entry(d) == "      <rpm:entry name=\""@ + xml::escaped(d.name)
            + "\""@ + "/>\n"@,
        d.pre ==> repodata::dep_entry(d) == "      <rpm:entry name=\""@ + xml::escaped(d.name)
            + "\""@ + " pre=\"1\""@ + "/>\n"@,
{
}

/// An entry of a dependency that compares versions also says how, with the epoch
/// (`0` where none is known), and with version and release as far as they are
/// known.
pub proof fn versioned_entries_are_written(d: Dep, f: Seq<char>, e: Seq<char>)
    requires
        d.flags == Some(f),
        e == (match d.epoch {
            Some(x) => x,
            None => "0"@,
        }),
    ensures
        ({
            let start = "      <rpm:entry name=\""@ + xml::escaped(d.name) + "\""@ + " flags=\""@
                + f + "\""@ + " epoch=\""@ + xml::escaped(e) + "\""@;
            let end = if d.pre {
                " pre=\"1\""@
            } else {
                Seq::<char>::empty()
            };
            match (d.ver, d.rel) {
                (Some(v), Some(r)) => repodata::dep_entry(d) == start + " ver=\""@ + xml::escaped(v)
                    + "\""@ + " rel=\""@ + xml::escaped(r) + "\""@ + end + "/>\n"@,
                (Some(v), None) => repodata::dep_entry(d) == start + " ver=\""@ + xml::escaped(v)
                    + "\""@ + end + "/>\n"@,
                (None, Some(r)) => repodata::dep_entry(d) == start + " rel=\""@ + xml::escaped(r)
                    + "\""@ + end + "/>\n"@,
                (None, None) => repodata::dep_entry(d) == start + end + "/>\n"@,
            }
        }),
{
    let none = Seq::<char>::empty();
    assert forall|x: Seq<char>| #[trigger] (x + none) == x by {
        assert(x + none =~= x);
    }
}

/// Entries stand in the order of the dependencies, one for each.
pub proof fn entries_stand_in_order(a: Seq<Dep>, d: Dep)
    ensures
        repodata::dep_entries(Seq::empty()).len() == 0,
        repodata::dep_entries(a.push(d)) == repodata::dep_entries(a) + repodata::dep_entry(d),
{
    assert(a.push(d).drop_last() =~= a);
}

/// In `primary` stand the files under `/etc/`, `/usr/lib/sendmail`, and those in a
/// directory whose name ends in `bin`; no others.
pub proof fn primary_lists_these_files(path: Seq<char>, rest: Seq<char>, a: Seq<char>)
    ensures
        repodata::is_primary("/etc/"@ + rest),
        repodata::is_primary("/usr/lib/sendmail"@),
        repodata::is_primary(a + "bin/"@ + rest),
        repodata::is_primary(path) ==> "/etc/"@.is_prefix_of(path) || path == "/usr/lib/sendmail"@
            || exists|x: Seq<char>, y: Seq<char>| path == #[trigger] (x + "bin/"@ + y),
{
    path::prefixes_come_off("/etc/"@, rest);
    path::lemma_stands_between(a, "bin/"@, rest);
    path::contained_texts_stand_between(path, "bin/"@);
}

/// Files stand in their order, each as an element with its escaped path, with its
/// kind where it has one; in `filelists` all of them, in `primary` those that
/// belong there.
pub proof fn files_are_written_in_order(indent: Seq<char>, files: Seq<FileLine>, f: FileLine)
    ensures
        ({
            let element = if f.kind.len() == 0 {
                indent + "<file>"@ + xml::escaped(f.path) + "</file>\n"@
            } else {
                indent + "<file type=\""@ + f.kind + "\">"@ + xml::escaped(f.path) + "</file>\n"@
            };
            &&& repodata::file_elements(indent, Seq::empty(), true).len() == 0
            &&& repodata::file_elements(indent, Seq::empty(), false).len() == 0
            &&& repodata::file_elements(indent, files.push(f), true) == repodata::file_elements(
                indent,
                files,
                true,
            ) + element
            &&& repodata::is_primary(f.path) ==> repodata::file_elements(
                indent,
                files.push(f),
                false,
            ) == repodata::file_elements(indent, files, false) + element
            &&& !repodata::is_primary(f.path) ==> repodata::file_elements(
                indent,
                files.push(f),
                false,
            ) == repodata::file_elements(indent, files, false)
        }),
{
    assert(files.push(f).drop_last() =~= files);
}

/// Changes stand in their order, each as an element with its escaped author, its
/// time, and its escaped text.
pub proof fn changes_are_written_in_order(log: Seq<Change>, c: Change)
    ensures
        repodata::change_elements(Seq::empty()).len() == 0,
        repodata::change_elements(log.push(c)) == repodata::change_elements(log) + (
        "  <changelog author=\""@ + xml::escaped(c.author) + "\" date=\""@ + text::decimal(
            c.date as nat,
        ) + "\">"@ + xml::escaped(c.text) + "</changelog>\n"@),
{
    assert(log.push(c).drop_last() =~= log);
}

/// The packages of `filelists` and `other` start with the digest, the name, the
/// architecture and the version.
pub open spec fn head(p: Pkg) -> Seq<char> {
    "<package pkgid=\""@ + p.pkgid + ("\" name=\""@ + xml::escaped(p.name) + "\""@) + (" arch=\""@
        + xml::escaped(p.arch) + "\">\n"@) + "  <version epoch=\""@ + text::decimal(p.epoch as nat)
        + ("\" ver=\""@ + xml::escaped(p.version) + "\""@) + (" rel=\""@ + xml::escaped(p.release)
        + "\"/>\n"@)
}

/// A package in `filelists` has all its files, and one in `other` its changelog,
/// behind the same start.
pub proof fn packages_list_files_and_changes(p: Pkg)
    ensures
        repodata::package_in(Document::Filelists, p) == head(p) + repodata::file_elements(
            "  "@,
            p.files,
            true,
        ) + "</package>\n"@,
        repodata::package_in(Document::Other, p) == head(p) + repodata::change_elements(
            p.changelogs,
        ) + "</package>\n"@,
        repodata::package_in(Document::Primary, p) == repodata::primary_package(p),
{
}

/// A document is its opening, with the number of packages, the packages in their
/// order, and its closing.
pub proof fn documents_are_written(pkgs: Seq<Pkg>, p: Pkg)
    ensures
        repodata::document(Document::Primary, pkgs)
            == "<?xml version=\"1.0\" encoding=\"UTF-8\"?>\n<metadata xmlns=\"http://linux.duke.edu/metadata/common\" xmlns:rpm=\"http://linux.duke.edu/metadata/rpm\" packages=\""@
            + text::decimal(pkgs.len()) + "\">\n"@ + repodata::packages_in(Document::Primary, pkgs)
            + "</metadata>\n"@,
        repodata::document(Document::Filelists, pkgs)
            == "<?xml version=\"1.0\" encoding=\"UTF-8\"?>\n<filelists xmlns=\"http://linux.duke.edu/metadata/filelists\" packages=\""@
            + text::decimal(pkgs.len()) + "\">\n"@ + repodata::packages_in(Document::Filelists, pkgs)
            + "</filelists>\n"@,
        repodata::document(Document::Other, pkgs)
            == "<?xml version=\"1.0\" encoding=\"UTF-8\"?>\n<otherdata xmlns=\"http://linux.duke.edu/metadata/other\" packages=\""@
            + text::decimal(pkgs.len()) + "\">\n"@ + repodata::packages_in(Document::Other, pkgs)
            + "</otherdata>\n"@,
{
}

/// Packages are written in their order, each once.
pub proof fn packages_are_written_in_order(doc: Document, pkgs: Seq<Pkg>, p: Pkg)
    ensures
        repodata::packages_in(doc, Seq::empty()).len() == 0,
        repodata::packages_in(doc, pkgs.push(p)) == repodata::packages_in(doc, pkgs)
            + repodata::package_in(doc, p),
{
    assert(pkgs.push(p).drop_last() =~= pkgs);
}

/// Bytes are written in hexadecimal, two digits each in lower case, in their
/// order.
pub proof fn bytes_are_written_in_hexadecimal(data: Seq<u8>, b: u8)
    ensures
        digest::hex_text(Seq::empty()).len() == 0,
        digest::hex_text(data.push(b)).len() == digest::hex_text(data).len() + 2,
        digest::hex_text(data.push(b)).take(digest::hex_text(data).len() as int)
            == digest::hex_text(data),
        ({
            let h = digest::hex_text(data.push(b));
            let high = digit_value(h[h.len() - 2]);
            let low = digit_value(h[h.len() - 1]);
            0 <= high < 16 && 0 <= low < 16 && 16 * high + low == b
        }),
{
    assert(data.push(b).drop_last() =~= data);
    let t = digest::hex_text(data);
    let h = digest::hex_text(data.push(b));
    assert(h.take(t.len() as int) =~= t);
    let hi = b as int / 16;
    let lo = b as int % 16;
    assert(h[h.len() - 2] == digest::hex_digit(hi));
    assert(h[h.len() - 1] == digest::hex_digit(lo));
    assert(0 <= hi < 16 && 0 <= lo < 16);
}

/// The value of a hexadecimal digit; none where it is none.
pub open spec fn digit_value(c: char) -> int {
    if 48 <= c as u32 <= 57 {
        c as int - 48
    } else if 97 <= c as u32 <= 102 {
        c as int - 87
    } else {
        -1
    }
}

} // verus!
