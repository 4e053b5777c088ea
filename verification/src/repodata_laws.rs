//! How packages are written into the metadata of an rpm repository, told by the
//! elements of the text.

use vstd::prelude::*;

use crate::repodata::{self, Document};
use crate::rpm_package::Change;
use crate::rpm_record::{Dep, FileLine, Pkg};
use crate::text;
use crate::xml;

verus! {

/// The first of the texts in a row.
pub open spec fn flat_to(parts: Seq<Seq<char>>, n: int) -> Seq<char>
    decreases n,
{
    if n <= 0 {
        Seq::empty()
    } else {
        flat_to(parts, n - 1) + parts[n - 1]
    }
}

/// The texts in a row.
pub open spec fn flat(parts: Seq<Seq<char>>) -> Seq<char> {
    flat_to(parts, parts.len() as int)
}

proof fn lemma_flat_around(parts: Seq<Seq<char>>, k: int, n: int)
    requires
        0 <= k < n <= parts.len(),
    ensures
        flat_to(parts, n) == flat_to(parts, k) + parts[k] + flat_to(parts.skip(k + 1), n - k - 1),
    decreases n,
{
    let rest = parts.skip(k + 1);
    let a = flat_to(parts, k) + parts[k];
    if n == k + 1 {
        assert(a + flat_to(rest, 0) =~= a);
    } else {
        lemma_flat_around(parts, k, n - 1);
        let b = flat_to(rest, n - k - 2);
        assert(rest[n - k - 2] == parts[n - 1]);
        assert(a + b + parts[n - 1] =~= a + (b + parts[n - 1]));
    }
}

pub proof fn lemma_flat_same(a: Seq<Seq<char>>, b: Seq<Seq<char>>, n: int)
    requires
        forall|i: int| 0 <= i < n ==> #[trigger] a[i] == b[i],
    ensures
        flat_to(a, n) == flat_to(b, n),
    decreases n,
{
    if n > 0 {
        lemma_flat_same(a, b, n - 1);
        assert(a[n - 1] == b[n - 1]);
    }
}

/// A section of dependencies: nothing where there are none, else the entries
/// between the opening and the closing of that name.
pub open spec fn section(name: Seq<char>, deps: Seq<Dep>) -> Seq<char> {
    if deps.len() == 0 {
        Seq::empty()
    } else {
        ("    <rpm:"@ + name + ">\n"@) + repodata::dep_entries(deps) + ("    </rpm:"@ + name
            + ">\n"@)
    }
}

proof fn lemma_section(name: Seq<char>, deps: Seq<Dep>)
    ensures
        repodata::dep_section(name, deps) == section(name, deps),
{
    let a = "    <rpm:"@ + name + ">\n"@ + repodata::dep_entries(deps);
    assert(a + "    </rpm:"@ + name + ">\n"@ =~= a + ("    </rpm:"@ + name + ">\n"@));
}

/// The parts of a package in `primary`, in their order.
#[verifier::opaque]
pub open spec fn primary_parts(p: Pkg) -> Seq<Seq<char>> {
    seq![
        "<package type=\"rpm\">\n"@,
        "  <name>"@ + xml::escaped(p.name) + "</name>\n"@,
        "  <arch>"@ + xml::escaped(p.arch) + "</arch>\n"@,
        "  <version epoch=\""@,
        text::decimal(p.epoch as nat),
        "\" ver=\""@ + xml::escaped(p.version) + "\""@,
        " rel=\""@ + xml::escaped(p.release) + "\"/>\n"@,
        "  <checksum type=\"sha256\" pkgid=\"YES\">"@,
        p.pkgid,
        "</checksum>\n"@,
        "  <summary>"@ + xml::escaped(p.summary) + "</summary>\n"@,
        "  <description>"@ + xml::escaped(p.description) + "</description>\n"@,
        "  <packager>"@ + xml::escaped(p.packager) + "</packager>\n"@,
        "  <url>"@ + xml::escaped(p.url) + "</url>\n"@,
        "  <time file=\""@,
        text::decimal(p.file_time as nat),
        "\" build=\""@,
        text::decimal(p.build_time as nat),
        "\"/>\n"@,
        "  <size package=\""@,
        text::decimal(p.size_package as nat),
        "\" installed=\""@,
        text::decimal(p.size_installed as nat),
        "\" archive=\""@,
        text::decimal(p.size_installed as nat),
        "\"/>\n"@,
        "  <location href=\""@ + xml::escaped(p.href) + "\"/>\n"@,
        "  <format>\n"@,
        "    <rpm:license>"@ + xml::escaped(p.license) + "</rpm:license>\n"@,
        "    <rpm:vendor>"@ + xml::escaped(p.vendor) + "</rpm:vendor>\n"@,
        "    <rpm:group>"@ + xml::escaped(p.group) + "</rpm:group>\n"@,
        "    <rpm:buildhost>"@ + xml::escaped(p.buildhost) + "</rpm:buildhost>\n"@,
        "    <rpm:sourcerpm>"@ + xml::escaped(p.sourcerpm) + "</rpm:sourcerpm>\n"@,
        "    <rpm:header-range start=\""@,
        text::decimal(p.header_start as nat),
        "\" end=\""@,
        text::decimal(p.header_end as nat),
        "\"/>\n"@,
        section("provides"@, p.provides),
        section("requires"@, p.requires),
        section("conflicts"@, p.conflicts),
        section("obsoletes"@, p.obsoletes),
        repodata::file_elements("    "@, p.files, false),
        "  </format>\n</package>\n"@,
    ]
}

spec fn same(a: Seq<char>, b: Seq<char>) -> bool {
    a == b
}

/// With one more text the row is so much longer.
proof fn lemma_next(parts: Seq<Seq<char>>, n: int, t: Seq<char>)
    requires
        n >= 0,
        same(flat_to(parts, n), t),
    ensures
        same(flat_to(parts, n + 1), t + parts[n]),
{
}

#[verifier::rlimit(50)]
#[verifier::spinoff_prover]
proof fn lemma_primary_parts(p: Pkg)
    ensures
        same(repodata::primary_package(p), flat(primary_parts(p))),
{
    let parts = primary_parts(p);
    let t = Seq::<char>::empty();
    lemma_next(parts, 0, t);
    let t = t + parts[0];
    lemma_next(parts, 1, t);
    let t = t + parts[1];
    lemma_next(parts, 2, t);
    let t = t + parts[2];
    lemma_next(parts, 3, t);
    let t = t + parts[3];
    lemma_next(parts, 4, t);
    let t = t + parts[4];
    lemma_next(parts, 5, t);
    let t = t + parts[5];
    lemma_next(parts, 6, t);
    let t = t + parts[6];
    lemma_next(parts, 7, t);
    let t = t + parts[7];
    lemma_next(parts, 8, t);
    let t = t + parts[8];
    lemma_next(parts, 9, t);
    let t = t + parts[9];
    lemma_next(parts, 10, t);
    let t = t + parts[10];
    lemma_next(parts, 11, t);
    let t = t + parts[11];
    lemma_next(parts, 12, t);
    let t = t + parts[12];
    lemma_next(parts, 13, t);
    let t = t + parts[13];
    lemma_next(parts, 14, t);
    let t = t + parts[14];
    lemma_next(parts, 15, t);
    let t = t + parts[15];
    lemma_next(parts, 16, t);
    let t = t + parts[16];
    lemma_next(parts, 17, t);
    let t = t + parts[17];
    lemma_next(parts, 18, t);
    let t = t + parts[18];
    lemma_next(parts, 19, t);
    let t = t + parts[19];
    lemma_next(parts, 20, t);
    let t = t + parts[20];
    lemma_next(parts, 21, t);
    let t = t + parts[21];
    lemma_next(parts, 22, t);
    let t = t + parts[22];
    lemma_next(parts, 23, t);
    let t = t + parts[23];
    lemma_next(parts, 24, t);
    let t = t + parts[24];
    lemma_next(parts, 25, t);
    let t = t + parts[25];
    lemma_next(parts, 26, t);
    let t = t + parts[26];
    lemma_next(parts, 27, t);
    let t = t + parts[27];
    lemma_next(parts, 28, t);
    let t = t + parts[28];
    lemma_next(parts, 29, t);
    let t = t + parts[29];
    lemma_next(parts, 30, t);
    let t = t + parts[30];
    lemma_next(parts, 31, t);
    let t = t + parts[31];
    lemma_next(parts, 32, t);
    let t = t + parts[32];
    lemma_next(parts, 33, t);
    let t = t + parts[33];
    lemma_next(parts, 34, t);
    let t = t + parts[34];
    lemma_next(parts, 35, t);
    let t = t + parts[35];
    lemma_next(parts, 36, t);
    let t = t + parts[36];
    lemma_next(parts, 37, t);
    let t = t + parts[37];
    lemma_next(parts, 38, t);
    let t = t + parts[38];
    lemma_next(parts, 39, t);
    let t = t + parts[39];
    lemma_next(parts, 40, t);
    let t = t + parts[40];
    lemma_next(parts, 41, t);
    let t = t + parts[41];
    lemma_next(parts, 42, t);
    let t = t + parts[42];
    lemma_next(parts, 43, t);
    let t = t + parts[43];
    reveal(primary_parts);
    reveal(repodata::primary_package);
    lemma_section("provides"@, p.provides);
    lemma_section("requires"@, p.requires);
    lemma_section("conflicts"@, p.conflicts);
    lemma_section("obsoletes"@, p.obsoletes);
    let head = "<package type=\"rpm\">\n"@;
    assert(Seq::<char>::empty() + head =~= head);
}

/// A package in `primary` is its elements, each once, in their order.
pub proof fn packages_are_written_part_by_part(p: Pkg)
    ensures
        repodata::primary_package(p) == flat(primary_parts(p)),
{
    lemma_primary_parts(p);
}

/// What stands before a part of a package.
#[verifier::opaque]
pub open spec fn before(p: Pkg, k: int) -> Seq<char> {
    flat_to(primary_parts(p), k)
}

/// What stands behind a part of a package.
#[verifier::opaque]
pub open spec fn behind(p: Pkg, k: int) -> Seq<char> {
    flat(primary_parts(p).skip(k + 1))
}

pub proof fn lemma_one_part(p: Pkg, q: Pkg, k: int, x: Seq<char>)
    requires
        0 <= k < primary_parts(p).len(),
        primary_parts(q) =~= primary_parts(p).update(k, x),
    ensures
        repodata::primary_package(q) == before(p, k) + x + behind(p, k),
{
    reveal(before);
    reveal(behind);
    packages_are_written_part_by_part(q);
    lemma_flat_around(primary_parts(q), k, primary_parts(q).len() as int);
    lemma_flat_same(primary_parts(q), primary_parts(p), k);
    assert(primary_parts(q).skip(k + 1) =~= primary_parts(p).skip(k + 1));
}

proof fn lemma_provides_part(p: Pkg, deps: Seq<Dep>)
    ensures
        repodata::primary_package((Pkg { provides: deps, ..p })) == before(p, 38) + section("provides"@, deps) + behind(p, 38),
{
    reveal(primary_parts);
    lemma_one_part(p, (Pkg { provides: deps, ..p }), 38, section("provides"@, deps));
}

proof fn lemma_requires_part(p: Pkg, deps: Seq<Dep>)
    ensures
        repodata::primary_package((Pkg { requires: deps, ..p })) == before(p, 39) + section("requires"@, deps) + behind(p, 39),
{
    reveal(primary_parts);
    lemma_one_part(p, (Pkg { requires: deps, ..p }), 39, section("requires"@, deps));
}

proof fn lemma_conflicts_part(p: Pkg, deps: Seq<Dep>)
    ensures
        repodata::primary_package((Pkg { conflicts: deps, ..p })) == before(p, 40) + section("conflicts"@, deps) + behind(p, 40),
{
    reveal(primary_parts);
    lemma_one_part(p, (Pkg { conflicts: deps, ..p }), 40, section("conflicts"@, deps));
}

proof fn lemma_obsoletes_part(p: Pkg, deps: Seq<Dep>)
    ensures
        repodata::primary_package((Pkg { obsoletes: deps, ..p })) == before(p, 41) + section("obsoletes"@, deps) + behind(p, 41),
{
    reveal(primary_parts);
    lemma_one_part(p, (Pkg { obsoletes: deps, ..p }), 41, section("obsoletes"@, deps));
}

/// Packages that differ only in one list of dependencies differ only in the
/// section of that name.
pub proof fn dependencies_stand_in_their_sections(p: Pkg, deps: Seq<Dep>)
    ensures
        repodata::primary_package((Pkg { provides: deps, ..p })) == before(p, 38) + section("provides"@, deps) + behind(p, 38),
        repodata::primary_package((Pkg { requires: deps, ..p })) == before(p, 39) + section("requires"@, deps) + behind(p, 39),
        repodata::primary_package((Pkg { conflicts: deps, ..p })) == before(p, 40) + section("conflicts"@, deps) + behind(p, 40),
        repodata::primary_package((Pkg { obsoletes: deps, ..p })) == before(p, 41) + section("obsoletes"@, deps) + behind(p, 41),
{
    lemma_provides_part(p, deps);
    lemma_requires_part(p, deps);
    lemma_conflicts_part(p, deps);
    lemma_obsoletes_part(p, deps);
}

/// Every `<` in the text opens something other than a section of dependencies
/// whose name starts with the character.
#[verifier::opaque]
spec fn without_section(s: Seq<char>, c: char) -> bool {
    forall|i: int|
        0 <= i < s.len() && #[trigger] s[i] == '<' ==> (i + 1 < s.len() && s[i + 1] != 'r') || (i + 5
            < s.len() && s[i + 5] != c)
}

broadcast proof fn lemma_without_concat(a: Seq<char>, b: Seq<char>, c: char)
    requires
        without_section(a, c),
        without_section(b, c),
    ensures
        #[trigger] without_section(a + b, c),
{
    reveal(without_section);
    let s = a + b;
    assert forall|i: int| 0 <= i < s.len() && #[trigger] s[i] == '<' implies (i + 1 < s.len() && s[i
        + 1] != 'r') || (i + 5 < s.len() && s[i + 5] != c) by {
        if i < a.len() {
            assert(a[i] == '<');
        } else {
            assert(b[i - a.len()] == '<');
        }
    }
}

proof fn lemma_section_literals(c: char)
    requires
        c == 'p' || c == 'r' || c == 'c' || c == 'o',
    ensures
        without_section("      <rpm:entry name=\""@, c),
        without_section("    "@, c),
        without_section("    <rpm:buildhost>"@, c),
        without_section("    <rpm:group>"@, c),
        without_section("    <rpm:header-range start=\""@, c),
        without_section("    <rpm:license>"@, c),
        without_section("    <rpm:sourcerpm>"@, c),
        without_section("    <rpm:vendor>"@, c),
        without_section("  </format>\n</package>\n"@, c),
        without_section("  <arch>"@, c),
        without_section("  <checksum type=\"sha256\" pkgid=\"YES\">"@, c),
        without_section("  <description>"@, c),
        without_section("  <format>\n"@, c),
        without_section("  <location href=\""@, c),
        without_section("  <name>"@, c),
        without_section("  <packager>"@, c),
        without_section("  <size package=\""@, c),
        without_section("  <summary>"@, c),
        without_section("  <time file=\""@, c),
        without_section("  <url>"@, c),
        without_section("  <version epoch=\""@, c),
        without_section(" epoch=\""@, c),
        without_section(" flags=\""@, c),
        without_section(" pre=\"1\""@, c),
        without_section(" rel=\""@, c),
        without_section(" ver=\""@, c),
        without_section("/>\n"@, c),
        without_section("0"@, c),
        without_section("</arch>\n"@, c),
        without_section("</checksum>\n"@, c),
        without_section("</description>\n"@, c),
        without_section("</file>\n"@, c),
        without_section("</name>\n"@, c),
        without_section("</packager>\n"@, c),
        without_section("</rpm:buildhost>\n"@, c),
        without_section("</rpm:group>\n"@, c),
        without_section("</rpm:license>\n"@, c),
        without_section("</rpm:sourcerpm>\n"@, c),
        without_section("</rpm:vendor>\n"@, c),
        without_section("</summary>\n"@, c),
        without_section("</url>\n"@, c),
        without_section("<file type=\""@, c),
        without_section("<file>"@, c),
        without_section("<package type=\"rpm\">\n"@, c),
        without_section(">\n"@, c),
        without_section("\" archive=\""@, c),
        without_section("\" build=\""@, c),
        without_section("\" end=\""@, c),
        without_section("\" installed=\""@, c),
        without_section("\" ver=\""@, c),
        without_section("\""@, c),
        without_section("\"/>\n"@, c),
        without_section("\">"@, c),
{
    reveal(without_section);
    reveal_strlit("      <rpm:entry name=\"");
    reveal_strlit("    ");
    reveal_strlit("    <rpm:buildhost>");
    reveal_strlit("    <rpm:group>");
    reveal_strlit("    <rpm:header-range start=\"");
    reveal_strlit("    <rpm:license>");
    reveal_strlit("    <rpm:sourcerpm>");
    reveal_strlit("    <rpm:vendor>");
    reveal_strlit("  </format>\n</package>\n");
    reveal_strlit("  <arch>");
    reveal_strlit("  <checksum type=\"sha256\" pkgid=\"YES\">");
    reveal_strlit("  <description>");
    reveal_strlit("  <format>\n");
    reveal_strlit("  <location href=\"");
    reveal_strlit("  <name>");
    reveal_strlit("  <packager>");
    reveal_strlit("  <size package=\"");
    reveal_strlit("  <summary>");
    reveal_strlit("  <time file=\"");
    reveal_strlit("  <url>");
    reveal_strlit("  <version epoch=\"");
    reveal_strlit(" epoch=\"");
    reveal_strlit(" flags=\"");
    reveal_strlit(" pre=\"1\"");
    reveal_strlit(" rel=\"");
    reveal_strlit(" ver=\"");
    reveal_strlit("/>\n");
    reveal_strlit("0");
    reveal_strlit("</arch>\n");
    reveal_strlit("</checksum>\n");
    reveal_strlit("</description>\n");
    reveal_strlit("</file>\n");
    reveal_strlit("</name>\n");
    reveal_strlit("</packager>\n");
    reveal_strlit("</rpm:buildhost>\n");
    reveal_strlit("</rpm:group>\n");
    reveal_strlit("</rpm:license>\n");
    reveal_strlit("</rpm:sourcerpm>\n");
    reveal_strlit("</rpm:vendor>\n");
    reveal_strlit("</summary>\n");
    reveal_strlit("</url>\n");
    reveal_strlit("<file type=\"");
    reveal_strlit("<file>");
    reveal_strlit("<package type=\"rpm\">\n");
    reveal_strlit(">\n");
    reveal_strlit("\" archive=\"");
    reveal_strlit("\" build=\"");
    reveal_strlit("\" end=\"");
    reveal_strlit("\" installed=\"");
    reveal_strlit("\" ver=\"");
    reveal_strlit("\"");
    reveal_strlit("\"/>\n");
    reveal_strlit("\">");
}

proof fn lemma_without_escaped(s: Seq<char>, c: char)
    ensures
        without_section(xml::escaped(s), c),
{
    reveal(without_section);
    xml::escaped_text_is_legal(s);
}

proof fn lemma_without_decimal(n: nat, c: char)
    ensures
        without_section(text::decimal(n), c),
    decreases n,
{
    reveal(without_section);
    if n >= 10 {
        lemma_without_decimal(n / 10, c);
        let s = text::decimal(n / 10);
        assert(text::decimal(n) =~= s + seq![text::digit(n % 10)]);
        lemma_without_concat(s, seq![text::digit(n % 10)], c);
    }
}

/// The text opens nothing.
pub open spec fn opens_nothing(s: Seq<char>) -> bool {
    !s.contains('<')
}

proof fn lemma_without_open(s: Seq<char>, c: char)
    requires
        opens_nothing(s),
    ensures
        without_section(s, c),
{
    reveal(without_section);
    assert forall|i: int| 0 <= i < s.len() implies #[trigger] s[i] != '<' by {
        assert(s.contains(s[i]));
    }
}

/// What goes into `primary` without being escaped opens nothing: the digest, the
/// flags of the dependencies and the kinds of the files.
pub open spec fn marks_are_plain(p: Pkg) -> bool {
    &&& opens_nothing(p.pkgid)
    &&& forall|i: int|
        0 <= i < p.provides.len() ==> ((#[trigger] p.provides[i]).flags matches Some(f)
            ==> opens_nothing(f))
    &&& forall|i: int|
        0 <= i < p.requires.len() ==> ((#[trigger] p.requires[i]).flags matches Some(f)
            ==> opens_nothing(f))
    &&& forall|i: int|
        0 <= i < p.conflicts.len() ==> ((#[trigger] p.conflicts[i]).flags matches Some(f)
            ==> opens_nothing(f))
    &&& forall|i: int|
        0 <= i < p.obsoletes.len() ==> ((#[trigger] p.obsoletes[i]).flags matches Some(f)
            ==> opens_nothing(f))
    &&& forall|i: int| 0 <= i < p.files.len() ==> opens_nothing((#[trigger] p.files[i]).kind)
}

proof fn lemma_without_entry(d: Dep, c: char)
    requires
        c == 'p' || c == 'r' || c == 'c' || c == 'o',
        d.flags matches Some(f) ==> opens_nothing(f),
    ensures
        without_section(repodata::dep_entry(d), c),
{
    broadcast use lemma_without_concat;

    lemma_section_literals(c);
    lemma_without_escaped(d.name, c);
    lemma_without_escaped("0"@, c);
    if let Some(f) = d.flags {
        lemma_without_open(f, c);
    }
    if let Some(e) = d.epoch {
        lemma_without_escaped(e, c);
    }
    if let Some(v) = d.ver {
        lemma_without_escaped(v, c);
    }
    if let Some(r) = d.rel {
        lemma_without_escaped(r, c);
    }
}

proof fn lemma_without_entries(deps: Seq<Dep>, c: char)
    requires
        c == 'p' || c == 'r' || c == 'c' || c == 'o',
        forall|i: int|
            0 <= i < deps.len() ==> ((#[trigger] deps[i]).flags matches Some(f) ==> opens_nothing(
                f,
            )),
    ensures
        without_section(repodata::dep_entries(deps), c),
    decreases deps.len(),
{
    if deps.len() == 0 {
        reveal(without_section);
    } else {
        let front = deps.drop_last();
        assert(forall|i: int| 0 <= i < front.len() ==> front[i] == #[trigger] deps[i]);
        assert(deps[deps.len() - 1] == deps.last());
        lemma_without_entries(front, c);
        lemma_without_entry(deps.last(), c);
        lemma_without_concat(
            repodata::dep_entries(front),
            repodata::dep_entry(deps.last()),
            c,
        );
    }
}

proof fn lemma_without_files(files: Seq<FileLine>, c: char)
    requires
        c == 'p' || c == 'r' || c == 'c' || c == 'o',
        forall|i: int| 0 <= i < files.len() ==> opens_nothing((#[trigger] files[i]).kind),
    ensures
        without_section(repodata::file_elements("    "@, files, false), c),
    decreases files.len(),
{
    broadcast use lemma_without_concat;

    if files.len() == 0 {
        reveal(without_section);
    } else {
        let front = files.drop_last();
        assert(forall|i: int| 0 <= i < front.len() ==> front[i] == #[trigger] files[i]);
        assert(files[files.len() - 1] == files.last());
        lemma_without_files(front, c);
        lemma_section_literals(c);
        lemma_without_escaped(files.last().path, c);
        lemma_without_open(files.last().kind, c);
    }
}

/// The opening of a section.
pub open spec fn opening(name: Seq<char>) -> Seq<char> {
    "<rpm:"@ + name + ">"@
}

/// Sections whose names start otherwise do not open the one in question.
proof fn lemma_other_section(name: Seq<char>, deps: Seq<Dep>, c: char)
    requires
        c == 'p' || c == 'r' || c == 'c' || c == 'o',
        name.len() > 0,
        name[0] != c,
        opens_nothing(name),
        forall|i: int|
            0 <= i < deps.len() ==> ((#[trigger] deps[i]).flags matches Some(f) ==> opens_nothing(
                f,
            )),
    ensures
        without_section(section(name, deps), c),
{
    lemma_without_entries(deps, c);
    let a = "    <rpm:"@ + name + ">\n"@;
    let z = "    </rpm:"@ + name + ">\n"@;
    assert(without_section(a, c)) by {
        reveal(without_section);
        reveal_strlit("    <rpm:");
        reveal_strlit(">\n");
        assert forall|i: int| 0 <= i < a.len() && #[trigger] a[i] == '<' implies (i + 1 < a.len()
            && a[i + 1] != 'r') || (i + 5 < a.len() && a[i + 5] != c) by {
            if 9 <= i < 9 + name.len() {
                assert(name[i - 9] == '<');
                assert(name.contains('<'));
            }
            assert(a[9] == name[0]);
        }
    }
    assert(without_section(z, c)) by {
        reveal(without_section);
        lemma_closing(name);
        assert forall|i: int| 0 <= i < z.len() && #[trigger] z[i] == '<' implies (i + 1 < z.len()
            && z[i + 1] != 'r') || (i + 5 < z.len() && z[i + 5] != c) by {}
    }
    if deps.len() == 0 {
        reveal(without_section);
    } else {
        lemma_without_concat(a, repodata::dep_entries(deps), c);
        lemma_without_concat(a + repodata::dep_entries(deps), z, c);
    }
}

/// The closing of a section opens nothing but itself.
proof fn lemma_closing(name: Seq<char>)
    requires
        opens_nothing(name),
    ensures
        ({
            let z = "    </rpm:"@ + name + ">\n"@;
            forall|i: int| 0 <= i < z.len() && #[trigger] z[i] == '<' ==> i == 4 && i + 1 < z.len() && z[i + 1] == '/'
        }),
{
    reveal_strlit("    </rpm:");
    reveal_strlit(">\n");
    let z = "    </rpm:"@ + name + ">\n"@;
    assert forall|i: int| 0 <= i < z.len() && #[trigger] z[i] == '<' implies i == 4 && i + 1 < z.len() && z[i + 1] == '/' by {
        if 10 <= i < 10 + name.len() {
            assert(name[i - 10] == '<');
            assert(name.contains('<'));
        }
    }
}

proof fn lemma_flat_without(parts: Seq<Seq<char>>, n: int, c: char)
    requires
        forall|i: int| 0 <= i < n ==> without_section(#[trigger] parts[i], c),
    ensures
        without_section(flat_to(parts, n), c),
    decreases n,
{
    if n <= 0 {
        reveal(without_section);
    } else {
        lemma_flat_without(parts, n - 1, c);
        assert(without_section(parts[n - 1], c));
        lemma_without_concat(flat_to(parts, n - 1), parts[n - 1], c);
    }
}

/// Only the four sections of a package open one.
proof fn lemma_parts_without(p: Pkg, c: char)
    requires
        c == 'p' || c == 'r' || c == 'c' || c == 'o',
        marks_are_plain(p),
    ensures
        primary_parts(p).len() == 44,
        primary_parts(p)[38] == section("provides"@, p.provides),
        primary_parts(p)[39] == section("requires"@, p.requires),
        primary_parts(p)[40] == section("conflicts"@, p.conflicts),
        primary_parts(p)[41] == section("obsoletes"@, p.obsoletes),
        forall|i: int|
            0 <= i < 44 && !(38 <= i < 42) ==> without_section(#[trigger] primary_parts(p)[i], c),
{
    broadcast use lemma_without_concat;

    reveal(primary_parts);
    lemma_section_literals(c);
    lemma_without_escaped(p.name, c);
    lemma_without_escaped(p.arch, c);
    lemma_without_escaped(p.version, c);
    lemma_without_escaped(p.release, c);
    lemma_without_escaped(p.summary, c);
    lemma_without_escaped(p.description, c);
    lemma_without_escaped(p.packager, c);
    lemma_without_escaped(p.url, c);
    lemma_without_escaped(p.href, c);
    lemma_without_escaped(p.license, c);
    lemma_without_escaped(p.vendor, c);
    lemma_without_escaped(p.group, c);
    lemma_without_escaped(p.buildhost, c);
    lemma_without_escaped(p.sourcerpm, c);
    lemma_without_decimal(p.epoch as nat, c);
    lemma_without_decimal(p.file_time as nat, c);
    lemma_without_decimal(p.build_time as nat, c);
    lemma_without_decimal(p.size_package as nat, c);
    lemma_without_decimal(p.size_installed as nat, c);
    lemma_without_decimal(p.header_start as nat, c);
    lemma_without_decimal(p.header_end as nat, c);
    lemma_without_open(p.pkgid, c);
    lemma_without_files(p.files, c);
    let parts = primary_parts(p);
    assert(without_section(parts[0], c));
    assert(without_section(parts[1], c));
    assert(without_section(parts[2], c));
    assert(without_section(parts[3], c));
    assert(without_section(parts[4], c));
    assert(without_section(parts[5], c));
    assert(without_section(parts[6], c));
    assert(without_section(parts[7], c));
    assert(without_section(parts[8], c));
    assert(without_section(parts[9], c));
    assert(without_section(parts[10], c));
    assert(without_section(parts[11], c));
    assert(without_section(parts[12], c));
    assert(without_section(parts[13], c));
    assert(without_section(parts[14], c));
    assert(without_section(parts[15], c));
    assert(without_section(parts[16], c));
    assert(without_section(parts[17], c));
    assert(without_section(parts[18], c));
    assert(without_section(parts[19], c));
    assert(without_section(parts[20], c));
    assert(without_section(parts[21], c));
    assert(without_section(parts[22], c));
    assert(without_section(parts[23], c));
    assert(without_section(parts[24], c));
    assert(without_section(parts[25], c));
    assert(without_section(parts[26], c));
    assert(without_section(parts[27], c));
    assert(without_section(parts[28], c));
    assert(without_section(parts[29], c));
    assert(without_section(parts[30], c));
    assert(without_section(parts[31], c));
    assert(without_section(parts[32], c));
    assert(without_section(parts[33], c));
    assert(without_section(parts[34], c));
    assert(without_section(parts[35], c));
    assert(without_section(parts[36], c));
    assert(without_section(parts[37], c));
    assert(without_section(parts[42], c));
    assert(without_section(parts[43], c));
}

/// In a package one of whose parts is the section, and whose other parts open
/// none by a name with that first letter, the section is opened there and
/// nowhere else.
proof fn lemma_opened_once(p: Pkg, k: int, name: Seq<char>, deps: Seq<Dep>)
    requires
        0 <= k < primary_parts(p).len(),
        primary_parts(p)[k] == section(name, deps),
        name.len() > 0,
        opens_nothing(name),
        forall|i: int|
            0 <= i < primary_parts(p).len() && i != k ==> without_section(
                #[trigger] primary_parts(p)[i],
                name[0],
            ),
        without_section(repodata::dep_entries(deps), name[0]),
    ensures
        repodata::primary_package(p) == before(p, k) + section(name, deps) + behind(p, k),
        forall|i: int| #[trigger]
            text::occurs_at(repodata::primary_package(p), opening(name), i) ==> deps.len() > 0 && i
                == before(p, k).len() + 4,
        deps.len() > 0 ==> text::occurs_at(
            repodata::primary_package(p),
            opening(name),
            before(p, k).len() as int + 4,
        ),
{
    let c = name[0];
    let parts = primary_parts(p);
    let t = repodata::primary_package(p);
    reveal(before);
    reveal(behind);
    packages_are_written_part_by_part(p);
    lemma_flat_around(parts, k, parts.len() as int);
    lemma_flat_without(parts, k, c);
    let rest = parts.skip(k + 1);
    assert forall|i: int| 0 <= i < rest.len() implies without_section(#[trigger] rest[i], c) by {
        assert(rest[i] == parts[i + k + 1]);
    }
    lemma_flat_without(rest, rest.len() as int, c);
    lemma_opened_between(before(p, k), name, deps, behind(p, k));
}

proof fn lemma_opened_between(a: Seq<char>, name: Seq<char>, deps: Seq<Dep>, b: Seq<char>)
    requires
        name.len() > 0,
        opens_nothing(name),
        without_section(a, name[0]),
        without_section(b, name[0]),
        without_section(repodata::dep_entries(deps), name[0]),
    ensures
        forall|i: int| #[trigger]
            text::occurs_at(a + section(name, deps) + b, opening(name), i) ==> deps.len() > 0 && i
                == a.len() + 4,
        deps.len() > 0 ==> text::occurs_at(
            a + section(name, deps) + b,
            opening(name),
            a.len() as int + 4,
        ),
{
    reveal(without_section);
    reveal_strlit("    <rpm:");
    reveal_strlit("<rpm:");
    reveal_strlit(">\n");
    reveal_strlit(">");
    lemma_closing(name);
    let c = name[0];
    let head = "    <rpm:"@ + name + ">\n"@;
    let e = repodata::dep_entries(deps);
    let z = "    </rpm:"@ + name + ">\n"@;
    let s = section(name, deps);
    let t = a + s + b;
    let o = opening(name);
    assert forall|i: int| #[trigger] text::occurs_at(t, o, i) implies deps.len() > 0 && i == a.len()
        + 4 by {
        let w = t.subrange(i, i + o.len());
        assert(w[0] == t[i] && w[1] == t[i + 1] && w[5] == t[i + 5]);
        assert(o[0] == '<' && o[1] == 'r' && o[5] == c);
        if i < a.len() {
            assert(a[i] == '<');
        } else if i >= a.len() + s.len() {
            assert(b[i - a.len() - s.len()] == '<');
        } else {
            let j = i - a.len();
            assert(s[j] == '<');
            if j < head.len() {
                assert(head[j] == '<');
                if 9 <= j < 9 + name.len() {
                    assert(name[j - 9] == '<');
                    assert(name.contains('<'));
                }
            } else if j < head.len() + e.len() {
                assert(e[j - head.len()] == '<');
            } else {
                assert(z[j - head.len() - e.len()] == '<');
                assert(s[j + 1] == z[j - head.len() - e.len() + 1]);
            }
        }
    }
    if deps.len() > 0 {
        let i = a.len() as int + 4;
        assert(t.subrange(i, i + o.len()) =~= o);
    }
}

/// In the text of a package in `primary` each section of dependencies is opened
/// exactly once, and then holds the entries of the list of that name in their
/// order; where that list is empty, it is not opened at all.
pub proof fn sections_stand_once(p: Pkg)
    requires
        marks_are_plain(p),
    ensures
        opened_once(p, "<rpm:provides>"@, "</rpm:provides>"@, p.provides),
        opened_once(p, "<rpm:requires>"@, "</rpm:requires>"@, p.requires),
        opened_once(p, "<rpm:conflicts>"@, "</rpm:conflicts>"@, p.conflicts),
        opened_once(p, "<rpm:obsoletes>"@, "</rpm:obsoletes>"@, p.obsoletes),
{
    lemma_parts_without(p, 'p');
    lemma_parts_without(p, 'r');
    lemma_parts_without(p, 'c');
    lemma_parts_without(p, 'o');
    lemma_names();
    lemma_other_section("provides"@, p.provides, 'r');
    lemma_other_section("provides"@, p.provides, 'c');
    lemma_other_section("provides"@, p.provides, 'o');
    lemma_other_section("requires"@, p.requires, 'p');
    lemma_other_section("requires"@, p.requires, 'c');
    lemma_other_section("requires"@, p.requires, 'o');
    lemma_other_section("conflicts"@, p.conflicts, 'p');
    lemma_other_section("conflicts"@, p.conflicts, 'r');
    lemma_other_section("conflicts"@, p.conflicts, 'o');
    lemma_other_section("obsoletes"@, p.obsoletes, 'p');
    lemma_other_section("obsoletes"@, p.obsoletes, 'r');
    lemma_other_section("obsoletes"@, p.obsoletes, 'c');
    lemma_without_entries(p.provides, 'p');
    lemma_without_entries(p.requires, 'r');
    lemma_without_entries(p.conflicts, 'c');
    lemma_without_entries(p.obsoletes, 'o');
    lemma_opened_once(p, 38, "provides"@, p.provides);
    lemma_opened_once(p, 39, "requires"@, p.requires);
    lemma_opened_once(p, 40, "conflicts"@, p.conflicts);
    lemma_opened_once(p, 41, "obsoletes"@, p.obsoletes);
    lemma_opened("provides"@, before(p, 38), p.provides, behind(p, 38));
    lemma_opened("requires"@, before(p, 39), p.requires, behind(p, 39));
    lemma_opened("conflicts"@, before(p, 40), p.conflicts, behind(p, 40));
    lemma_opened("obsoletes"@, before(p, 41), p.obsoletes, behind(p, 41));
}

/// Where the list is empty, nothing in the text is the opening. Where it is not,
/// the opening stands at one place, the entries follow, then the closing.
pub open spec fn opened_once(
    p: Pkg,
    open: Seq<char>,
    close: Seq<char>,
    deps: Seq<Dep>,
) -> bool {
    if deps.len() == 0 {
        !text::has(repodata::primary_package(p), open)
    } else {
        exists|a: Seq<char>, b: Seq<char>|
            repodata::primary_package(p) == #[trigger] (a + (open + "\n"@ + repodata::dep_entries(
                deps,
            ) + "    "@ + close + "\n"@) + b) && forall|i: int|
                text::occurs_at(repodata::primary_package(p), open, i) <==> i == a.len()
    }
}

proof fn lemma_names()
    ensures
        "provides"@[0] == 'p',
        "requires"@[0] == 'r',
        "conflicts"@[0] == 'c',
        "obsoletes"@[0] == 'o',
        "provides"@.len() > 0,
        "requires"@.len() > 0,
        "conflicts"@.len() > 0,
        "obsoletes"@.len() > 0,
        opens_nothing("provides"@),
        opens_nothing("requires"@),
        opens_nothing("conflicts"@),
        opens_nothing("obsoletes"@),
        "<rpm:provides>"@ == opening("provides"@),
        "<rpm:requires>"@ == opening("requires"@),
        "<rpm:conflicts>"@ == opening("conflicts"@),
        "<rpm:obsoletes>"@ == opening("obsoletes"@),
        "</rpm:provides>"@ == closing("provides"@),
        "</rpm:requires>"@ == closing("requires"@),
        "</rpm:conflicts>"@ == closing("conflicts"@),
        "</rpm:obsoletes>"@ == closing("obsoletes"@),
{
    reveal_strlit("provides");
    reveal_strlit("requires");
    reveal_strlit("conflicts");
    reveal_strlit("obsoletes");
    reveal_strlit("<rpm:");
    reveal_strlit("</rpm:");
    reveal_strlit(">");
    reveal_strlit("<rpm:provides>");
    reveal_strlit("<rpm:requires>");
    reveal_strlit("<rpm:conflicts>");
    reveal_strlit("<rpm:obsoletes>");
    reveal_strlit("</rpm:provides>");
    reveal_strlit("</rpm:requires>");
    reveal_strlit("</rpm:conflicts>");
    reveal_strlit("</rpm:obsoletes>");
}

/// The closing of a section.
pub open spec fn closing(name: Seq<char>) -> Seq<char> {
    "</rpm:"@ + name + ">"@
}

/// The indentation of a section belongs to what stands before it.
proof fn lemma_opened(name: Seq<char>, a: Seq<char>, deps: Seq<Dep>, b: Seq<char>)
    ensures
        deps.len() > 0 ==> a + section(name, deps) + b == (a + "    "@) + (opening(name) + "\n"@
            + repodata::dep_entries(deps) + "    "@ + closing(name) + "\n"@) + b,
        (a + "    "@).len() == a.len() + 4,
{
    reveal_strlit("    <rpm:");
    reveal_strlit("<rpm:");
    reveal_strlit("    </rpm:");
    reveal_strlit("</rpm:");
    reveal_strlit(">\n");
    reveal_strlit(">");
    reveal_strlit("\n");
    reveal_strlit("    ");
    let e = repodata::dep_entries(deps);
    let head = "    <rpm:"@ + name + ">\n"@;
    let z = "    </rpm:"@ + name + ">\n"@;
    assert(head =~= "    "@ + (opening(name) + "\n"@));
    assert(z =~= "    "@ + closing(name) + "\n"@);
    let o = opening(name) + "\n"@;
    assert(a + ("    "@ + o + e + z) + b =~= (a + "    "@) + (o + e + z) + b);
    assert(o + e + ("    "@ + closing(name) + "\n"@) =~= o + e + "    "@ + closing(name) + "\n"@);
}

} // verus!
