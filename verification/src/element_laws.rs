//! Where the values of a package stand in `primary`: each value in an element or
//! attribute of its own, and nothing else of the entry depends on it.

use vstd::prelude::*;

use crate::repodata;
use crate::repodata_laws;
use crate::rpm_record::{FileLine, Pkg};
use crate::text;
use crate::xml;

verus! {

spec fn same(a: Seq<char>, b: Seq<char>) -> bool {
    a == b
}

/// The part at a place of an entry.
spec fn part(p: Pkg, i: int) -> Seq<char> {
    if i == 0 {
        "<package type=\"rpm\">\n"@
    } else if i == 1 {
        "  <name>"@ + xml::escaped(p.name) + "</name>\n"@
    } else if i == 2 {
        "  <arch>"@ + xml::escaped(p.arch) + "</arch>\n"@
    } else if i == 3 {
        "  <version epoch=\""@
    } else if i == 4 {
        text::decimal(p.epoch as nat)
    } else if i == 5 {
        "\" ver=\""@ + xml::escaped(p.version) + "\""@
    } else if i == 6 {
        " rel=\""@ + xml::escaped(p.release) + "\"/>\n"@
    } else if i == 7 {
        "  <checksum type=\"sha256\" pkgid=\"YES\">"@
    } else if i == 8 {
        p.pkgid
    } else if i == 9 {
        "</checksum>\n"@
    } else if i == 10 {
        "  <summary>"@ + xml::escaped(p.summary) + "</summary>\n"@
    } else if i == 11 {
        "  <description>"@ + xml::escaped(p.description) + "</description>\n"@
    } else if i == 12 {
        "  <packager>"@ + xml::escaped(p.packager) + "</packager>\n"@
    } else if i == 13 {
        "  <url>"@ + xml::escaped(p.url) + "</url>\n"@
    } else if i == 14 {
        "  <time file=\""@
    } else if i == 15 {
        text::decimal(p.file_time as nat)
    } else if i == 16 {
        "\" build=\""@
    } else if i == 17 {
        text::decimal(p.build_time as nat)
    } else if i == 18 {
        "\"/>\n"@
    } else if i == 19 {
        "  <size package=\""@
    } else if i == 20 {
        text::decimal(p.size_package as nat)
    } else if i == 21 {
        "\" installed=\""@
    } else if i == 22 {
        text::decimal(p.size_installed as nat)
    } else if i == 23 {
        "\" archive=\""@
    } else if i == 24 {
        text::decimal(p.size_installed as nat)
    } else if i == 25 {
        "\"/>\n"@
    } else if i == 26 {
        "  <location href=\""@ + xml::escaped(p.href) + "\"/>\n"@
    } else if i == 27 {
        "  <format>\n"@
    } else if i == 28 {
        "    <rpm:license>"@ + xml::escaped(p.license) + "</rpm:license>\n"@
    } else if i == 29 {
        "    <rpm:vendor>"@ + xml::escaped(p.vendor) + "</rpm:vendor>\n"@
    } else if i == 30 {
        "    <rpm:group>"@ + xml::escaped(p.group) + "</rpm:group>\n"@
    } else if i == 31 {
        "    <rpm:buildhost>"@ + xml::escaped(p.buildhost) + "</rpm:buildhost>\n"@
    } else if i == 32 {
        "    <rpm:sourcerpm>"@ + xml::escaped(p.sourcerpm) + "</rpm:sourcerpm>\n"@
    } else if i == 33 {
        "    <rpm:header-range start=\""@
    } else if i == 34 {
        text::decimal(p.header_start as nat)
    } else if i == 35 {
        "\" end=\""@
    } else if i == 36 {
        text::decimal(p.header_end as nat)
    } else if i == 37 {
        "\"/>\n"@
    } else if i == 38 {
        repodata_laws::section("provides"@, p.provides)
    } else if i == 39 {
        repodata_laws::section("requires"@, p.requires)
    } else if i == 40 {
        repodata_laws::section("conflicts"@, p.conflicts)
    } else if i == 41 {
        repodata_laws::section("obsoletes"@, p.obsoletes)
    } else if i == 42 {
        repodata::file_elements("    "@, p.files, false)
    } else {
        "  </format>\n</package>\n"@
    }
}

#[verifier::rlimit(60)]
#[verifier::spinoff_prover]
proof fn lemma_parts(p: Pkg)
    ensures
        repodata_laws::primary_parts(p).len() == 44,
        forall|i: int| 0 <= i < 44 ==> same(#[trigger] repodata_laws::primary_parts(p)[i], part(p, i)),
{
    reveal(repodata_laws::primary_parts);
}

/// Entries that differ in the part at one place only are the same around it.
proof fn lemma_one_place(p: Pkg, q: Pkg, k: int)
    requires
        0 <= k < 44,
        forall|i: int| 0 <= i < 44 && i != k ==> same(#[trigger] part(q, i), part(p, i)),
    ensures
        repodata::primary_package(q) == repodata_laws::before(p, k) + part(q, k)
            + repodata_laws::behind(p, k),
{
    lemma_parts(p);
    lemma_parts(q);
    let a = repodata_laws::primary_parts(q);
    let b = repodata_laws::primary_parts(p).update(k, part(q, k));
    assert forall|i: int| 0 <= i < 44 implies same(#[trigger] a[i], b[i]) by {
        assert(same(part(q, i), part(p, i)) || i == k);
    }
    repodata_laws::lemma_one_part(p, q, k, part(q, k));
}

/// Before the next place stands one part more.
proof fn lemma_step(p: Pkg, k: int)
    requires
        0 <= k < 44,
    ensures
        repodata_laws::before(p, k + 1) == repodata_laws::before(p, k) + part(p, k),
{
    lemma_parts(p);
    reveal(repodata_laws::before);
    assert(same(repodata_laws::primary_parts(p)[k], part(p, k)));
}

/// The name of a package stands, escaped, in its own place.
pub proof fn name_stands_in_its_place(p: Pkg, x: Seq<char>)
    ensures
        repodata::primary_package((Pkg { name: x, ..p })) == repodata_laws::before(p, 1)
            + ("  <name>"@ + xml::escaped(x) + "</name>\n"@) + repodata_laws::behind(p, 1),
{
    let q = Pkg { name: x, ..p };
    assert forall|i: int| 0 <= i < 44 && i != 1 implies same(
        #[trigger] part(q, i),
        part(p, i),
    ) by {}
    lemma_one_place(p, q, 1);
}

/// The arch of a package stands, escaped, in its own place.
pub proof fn arch_stands_in_its_place(p: Pkg, x: Seq<char>)
    ensures
        repodata::primary_package((Pkg { arch: x, ..p })) == repodata_laws::before(p, 2)
            + ("  <arch>"@ + xml::escaped(x) + "</arch>\n"@) + repodata_laws::behind(p, 2),
{
    let q = Pkg { arch: x, ..p };
    assert forall|i: int| 0 <= i < 44 && i != 2 implies same(
        #[trigger] part(q, i),
        part(p, i),
    ) by {}
    lemma_one_place(p, q, 2);
}

/// The version of a package stands, escaped, in its own place.
pub proof fn version_stands_in_its_place(p: Pkg, x: Seq<char>)
    ensures
        repodata::primary_package((Pkg { version: x, ..p })) == repodata_laws::before(p, 5)
            + ("\" ver=\""@ + xml::escaped(x) + "\""@) + repodata_laws::behind(p, 5),
{
    let q = Pkg { version: x, ..p };
    assert forall|i: int| 0 <= i < 44 && i != 5 implies same(
        #[trigger] part(q, i),
        part(p, i),
    ) by {}
    lemma_one_place(p, q, 5);
}

/// The release of a package stands, escaped, in its own place.
pub proof fn release_stands_in_its_place(p: Pkg, x: Seq<char>)
    ensures
        repodata::primary_package((Pkg { release: x, ..p })) == repodata_laws::before(p, 6)
            + (" rel=\""@ + xml::escaped(x) + "\"/>\n"@) + repodata_laws::behind(p, 6),
{
    let q = Pkg { release: x, ..p };
    assert forall|i: int| 0 <= i < 44 && i != 6 implies same(
        #[trigger] part(q, i),
        part(p, i),
    ) by {}
    lemma_one_place(p, q, 6);
}

/// The summary of a package stands, escaped, in its own place.
pub proof fn summary_stands_in_its_place(p: Pkg, x: Seq<char>)
    ensures
        repodata::primary_package((Pkg { summary: x, ..p })) == repodata_laws::before(p, 10)
            + ("  <summary>"@ + xml::escaped(x) + "</summary>\n"@) + repodata_laws::behind(p, 10),
{
    let q = Pkg { summary: x, ..p };
    assert forall|i: int| 0 <= i < 44 && i != 10 implies same(
        #[trigger] part(q, i),
        part(p, i),
    ) by {}
    lemma_one_place(p, q, 10);
}

/// The description of a package stands, escaped, in its own place.
pub proof fn description_stands_in_its_place(p: Pkg, x: Seq<char>)
    ensures
        repodata::primary_package((Pkg { description: x, ..p })) == repodata_laws::before(p, 11)
            + ("  <description>"@ + xml::escaped(x) + "</description>\n"@) + repodata_laws::behind(p, 11),
{
    let q = Pkg { description: x, ..p };
    assert forall|i: int| 0 <= i < 44 && i != 11 implies same(
        #[trigger] part(q, i),
        part(p, i),
    ) by {}
    lemma_one_place(p, q, 11);
}

/// The packager of a package stands, escaped, in its own place.
pub proof fn packager_stands_in_its_place(p: Pkg, x: Seq<char>)
    ensures
        repodata::primary_package((Pkg { packager: x, ..p })) == repodata_laws::before(p, 12)
            + ("  <packager>"@ + xml::escaped(x) + "</packager>\n"@) + repodata_laws::behind(p, 12),
{
    let q = Pkg { packager: x, ..p };
    assert forall|i: int| 0 <= i < 44 && i != 12 implies same(
        #[trigger] part(q, i),
        part(p, i),
    ) by {}
    lemma_one_place(p, q, 12);
}

/// The url of a package stands, escaped, in its own place.
pub proof fn url_stands_in_its_place(p: Pkg, x: Seq<char>)
    ensures
        repodata::primary_package((Pkg { url: x, ..p })) == repodata_laws::before(p, 13)
            + ("  <url>"@ + xml::escaped(x) + "</url>\n"@) + repodata_laws::behind(p, 13),
{
    let q = Pkg { url: x, ..p };
    assert forall|i: int| 0 <= i < 44 && i != 13 implies same(
        #[trigger] part(q, i),
        part(p, i),
    ) by {}
    lemma_one_place(p, q, 13);
}

/// The href of a package stands, escaped, in its own place.
pub proof fn href_stands_in_its_place(p: Pkg, x: Seq<char>)
    ensures
        repodata::primary_package((Pkg { href: x, ..p })) == repodata_laws::before(p, 26)
            + ("  <location href=\""@ + xml::escaped(x) + "\"/>\n"@) + repodata_laws::behind(p, 26),
{
    let q = Pkg { href: x, ..p };
    assert forall|i: int| 0 <= i < 44 && i != 26 implies same(
        #[trigger] part(q, i),
        part(p, i),
    ) by {}
    lemma_one_place(p, q, 26);
}

/// The license of a package stands, escaped, in its own place.
pub proof fn license_stands_in_its_place(p: Pkg, x: Seq<char>)
    ensures
        repodata::primary_package((Pkg { license: x, ..p })) == repodata_laws::before(p, 28)
            + ("    <rpm:license>"@ + xml::escaped(x) + "</rpm:license>\n"@) + repodata_laws::behind(p, 28),
{
    let q = Pkg { license: x, ..p };
    assert forall|i: int| 0 <= i < 44 && i != 28 implies same(
        #[trigger] part(q, i),
        part(p, i),
    ) by {}
    lemma_one_place(p, q, 28);
}

/// The vendor of a package stands, escaped, in its own place.
pub proof fn vendor_stands_in_its_place(p: Pkg, x: Seq<char>)
    ensures
        repodata::primary_package((Pkg { vendor: x, ..p })) == repodata_laws::before(p, 29)
            + ("    <rpm:vendor>"@ + xml::escaped(x) + "</rpm:vendor>\n"@) + repodata_laws::behind(p, 29),
{
    let q = Pkg { vendor: x, ..p };
    assert forall|i: int| 0 <= i < 44 && i != 29 implies same(
        #[trigger] part(q, i),
        part(p, i),
    ) by {}
    lemma_one_place(p, q, 29);
}

/// The group of a package stands, escaped, in its own place.
pub proof fn group_stands_in_its_place(p: Pkg, x: Seq<char>)
    ensures
        repodata::primary_package((Pkg { group: x, ..p })) == repodata_laws::before(p, 30)
            + ("    <rpm:group>"@ + xml::escaped(x) + "</rpm:group>\n"@) + repodata_laws::behind(p, 30),
{
    let q = Pkg { group: x, ..p };
    assert forall|i: int| 0 <= i < 44 && i != 30 implies same(
        #[trigger] part(q, i),
        part(p, i),
    ) by {}
    lemma_one_place(p, q, 30);
}

/// The buildhost of a package stands, escaped, in its own place.
pub proof fn buildhost_stands_in_its_place(p: Pkg, x: Seq<char>)
    ensures
        repodata::primary_package((Pkg { buildhost: x, ..p })) == repodata_laws::before(p, 31)
            + ("    <rpm:buildhost>"@ + xml::escaped(x) + "</rpm:buildhost>\n"@) + repodata_laws::behind(p, 31),
{
    let q = Pkg { buildhost: x, ..p };
    assert forall|i: int| 0 <= i < 44 && i != 31 implies same(
        #[trigger] part(q, i),
        part(p, i),
    ) by {}
    lemma_one_place(p, q, 31);
}

/// The sourcerpm of a package stands, escaped, in its own place.
pub proof fn sourcerpm_stands_in_its_place(p: Pkg, x: Seq<char>)
    ensures
        repodata::primary_package((Pkg { sourcerpm: x, ..p })) == repodata_laws::before(p, 32)
            + ("    <rpm:sourcerpm>"@ + xml::escaped(x) + "</rpm:sourcerpm>\n"@) + repodata_laws::behind(p, 32),
{
    let q = Pkg { sourcerpm: x, ..p };
    assert forall|i: int| 0 <= i < 44 && i != 32 implies same(
        #[trigger] part(q, i),
        part(p, i),
    ) by {}
    lemma_one_place(p, q, 32);
}

/// The epoch of a package stands behind its mark, in decimal.
pub proof fn epoch_stands_in_its_place(p: Pkg, x: u32)
    ensures
        repodata::primary_package((Pkg { epoch: x, ..p })) == repodata_laws::before(p, 3)
            + ("  <version epoch=\""@ + text::decimal(x as nat)) + repodata_laws::behind(p, 4),
{
    let q = Pkg { epoch: x, ..p };
    assert forall|i: int| 0 <= i < 44 && i != 4 implies same(
        #[trigger] part(q, i),
        part(p, i),
    ) by {}
    lemma_one_place(p, q, 4);
    lemma_step(p, 3);
    let head = repodata_laws::before(p, 3);
    assert((head + "  <version epoch=\""@) + text::decimal(x as nat) =~= head + ("  <version epoch=\""@ + text::decimal(x as nat)));
}

/// The file time of a package stands behind its mark, in decimal.
pub proof fn file_time_stands_in_its_place(p: Pkg, x: u64)
    ensures
        repodata::primary_package((Pkg { file_time: x, ..p })) == repodata_laws::before(p, 14)
            + ("  <time file=\""@ + text::decimal(x as nat)) + repodata_laws::behind(p, 15),
{
    let q = Pkg { file_time: x, ..p };
    assert forall|i: int| 0 <= i < 44 && i != 15 implies same(
        #[trigger] part(q, i),
        part(p, i),
    ) by {}
    lemma_one_place(p, q, 15);
    lemma_step(p, 14);
    let head = repodata_laws::before(p, 14);
    assert((head + "  <time file=\""@) + text::decimal(x as nat) =~= head + ("  <time file=\""@ + text::decimal(x as nat)));
}

/// The build time of a package stands behind its mark, in decimal.
pub proof fn build_time_stands_in_its_place(p: Pkg, x: u64)
    ensures
        repodata::primary_package((Pkg { build_time: x, ..p })) == repodata_laws::before(p, 16)
            + ("\" build=\""@ + text::decimal(x as nat)) + repodata_laws::behind(p, 17),
{
    let q = Pkg { build_time: x, ..p };
    assert forall|i: int| 0 <= i < 44 && i != 17 implies same(
        #[trigger] part(q, i),
        part(p, i),
    ) by {}
    lemma_one_place(p, q, 17);
    lemma_step(p, 16);
    let head = repodata_laws::before(p, 16);
    assert((head + "\" build=\""@) + text::decimal(x as nat) =~= head + ("\" build=\""@ + text::decimal(x as nat)));
}

/// The size package of a package stands behind its mark, in decimal.
pub proof fn size_package_stands_in_its_place(p: Pkg, x: u64)
    ensures
        repodata::primary_package((Pkg { size_package: x, ..p })) == repodata_laws::before(p, 19)
            + ("  <size package=\""@ + text::decimal(x as nat)) + repodata_laws::behind(p, 20),
{
    let q = Pkg { size_package: x, ..p };
    assert forall|i: int| 0 <= i < 44 && i != 20 implies same(
        #[trigger] part(q, i),
        part(p, i),
    ) by {}
    lemma_one_place(p, q, 20);
    lemma_step(p, 19);
    let head = repodata_laws::before(p, 19);
    assert((head + "  <size package=\""@) + text::decimal(x as nat) =~= head + ("  <size package=\""@ + text::decimal(x as nat)));
}

/// The header start of a package stands behind its mark, in decimal.
pub proof fn header_start_stands_in_its_place(p: Pkg, x: u64)
    ensures
        repodata::primary_package((Pkg { header_start: x, ..p })) == repodata_laws::before(p, 33)
            + ("    <rpm:header-range start=\""@ + text::decimal(x as nat)) + repodata_laws::behind(p, 34),
{
    let q = Pkg { header_start: x, ..p };
    assert forall|i: int| 0 <= i < 44 && i != 34 implies same(
        #[trigger] part(q, i),
        part(p, i),
    ) by {}
    lemma_one_place(p, q, 34);
    lemma_step(p, 33);
    let head = repodata_laws::before(p, 33);
    assert((head + "    <rpm:header-range start=\""@) + text::decimal(x as nat) =~= head + ("    <rpm:header-range start=\""@ + text::decimal(x as nat)));
}

/// The header end of a package stands behind its mark, in decimal.
pub proof fn header_end_stands_in_its_place(p: Pkg, x: u64)
    ensures
        repodata::primary_package((Pkg { header_end: x, ..p })) == repodata_laws::before(p, 35)
            + ("\" end=\""@ + text::decimal(x as nat)) + repodata_laws::behind(p, 36),
{
    let q = Pkg { header_end: x, ..p };
    assert forall|i: int| 0 <= i < 44 && i != 36 implies same(
        #[trigger] part(q, i),
        part(p, i),
    ) by {}
    lemma_one_place(p, q, 36);
    lemma_step(p, 35);
    let head = repodata_laws::before(p, 35);
    assert((head + "\" end=\""@) + text::decimal(x as nat) =~= head + ("\" end=\""@ + text::decimal(x as nat)));
}

/// The digest of a package stands behind its mark.
pub proof fn pkgid_stands_in_its_place(p: Pkg, x: Seq<char>)
    ensures
        repodata::primary_package((Pkg { pkgid: x, ..p })) == repodata_laws::before(p, 7)
            + ("  <checksum type=\"sha256\" pkgid=\"YES\">"@ + x) + repodata_laws::behind(p, 8),
{
    let q = Pkg { pkgid: x, ..p };
    assert forall|i: int| 0 <= i < 44 && i != 8 implies same(
        #[trigger] part(q, i),
        part(p, i),
    ) by {}
    lemma_one_place(p, q, 8);
    lemma_step(p, 7);
    let head = repodata_laws::before(p, 7);
    assert((head + "  <checksum type=\"sha256\" pkgid=\"YES\">"@) + x =~= head + ("  <checksum type=\"sha256\" pkgid=\"YES\">"@ + x));
}

/// The files of a package that belong in `primary` stand behind its dependencies.
pub proof fn files_stands_in_its_place(p: Pkg, x: Seq<FileLine>)
    ensures
        repodata::primary_package((Pkg { files: x, ..p })) == repodata_laws::before(p, 42)
            + (repodata::file_elements("    "@, x, false)) + repodata_laws::behind(p, 42),
{
    let q = Pkg { files: x, ..p };
    assert forall|i: int| 0 <= i < 44 && i != 42 implies same(
        #[trigger] part(q, i),
        part(p, i),
    ) by {}
    lemma_one_place(p, q, 42);
}

/// The installed size of a package stands in two places, in decimal.
pub proof fn size_installed_stands_in_its_places(p: Pkg, x: u64)
    ensures
        repodata::primary_package((Pkg { size_installed: x, ..p })) == repodata_laws::before(p, 21)
            + ("\" installed=\""@ + text::decimal(x as nat) + "\" archive=\""@ + text::decimal(
            x as nat,
        )) + repodata_laws::behind(p, 24),
{
    let q = Pkg { size_installed: x, ..p };
    assert forall|i: int| 0 <= i < 44 && i != 22 && i != 24 implies same(
        #[trigger] part(q, i),
        part(p, i),
    ) by {}
    lemma_one_place(q, q, 24);
    lemma_around(p, q);
    lemma_step(q, 21);
    lemma_step(q, 22);
    lemma_step(q, 23);
    let head = repodata_laws::before(p, 21);
    let mark = "\" installed=\""@;
    let archive = "\" archive=\""@;
    let size = text::decimal(x as nat);
    assert(head + mark + size + archive + size =~= head + (mark + size + archive + size));
}

/// Entries that differ between two places only are the same around them.
proof fn lemma_around(p: Pkg, q: Pkg)
    requires
        forall|i: int| 0 <= i < 44 && i != 22 && i != 24 ==> same(#[trigger] part(q, i), part(p, i)),
    ensures
        repodata_laws::before(q, 21) == repodata_laws::before(p, 21),
        repodata_laws::behind(q, 24) == repodata_laws::behind(p, 24),
{
    lemma_parts(p);
    lemma_parts(q);
    reveal(repodata_laws::before);
    reveal(repodata_laws::behind);
    let a = repodata_laws::primary_parts(q);
    let b = repodata_laws::primary_parts(p);
    assert forall|i: int| 0 <= i < 44 && i != 22 && i != 24 implies same(#[trigger] a[i], b[i]) by {
        assert(same(part(q, i), part(p, i)));
    }
    repodata_laws::lemma_flat_same(a, b, 21);
    assert(a.skip(25) =~= b.skip(25));
}

} // verus!
