//! The metadata of an rpm repository: `primary`, `filelists` and `other`, each
//! compressed under a name with its digest, and `repomd.xml`, which refers to
//! the three.

use vstd::prelude::*;

use crate::digest;
use crate::rpm_package::{self, Change};
use crate::rpm_record::{self, ChangelogRecord, Dep, DepRecord, FileLine, FileRecord, Pkg, PkgRecord};
use crate::text;
use crate::xml;

verus! {

/// What the records of the packages hold.
pub open spec fn pkgs_of(v: Seq<PkgRecord>) -> Seq<Pkg> {
    v.map_values(|p: PkgRecord| p@)
}

/// A dependency as an entry of its section.
pub open spec fn dep_entry(d: Dep) -> Seq<char> {
    let named = "      <rpm:entry name=\""@ + xml::escaped(d.name) + "\""@;
    let versioned = match d.flags {
        Some(f) => {
            let epoch = match d.epoch {
                Some(e) => e,
                None => "0"@,
            };
            let a = named + " flags=\""@ + f + "\""@ + " epoch=\""@ + xml::escaped(epoch) + "\""@;
            let b = match d.ver {
                Some(v) => a + " ver=\""@ + xml::escaped(v) + "\""@,
                None => a,
            };
            match d.rel {
                Some(r) => b + " rel=\""@ + xml::escaped(r) + "\""@,
                None => b,
            }
        },
        None => named,
    };
    let marked = if d.pre {
        versioned + " pre=\"1\""@
    } else {
        versioned
    };
    marked + "/>\n"@
}

/// The entries of a section.
pub open spec fn dep_entries(deps: Seq<Dep>) -> Seq<char>
    decreases deps.len(),
{
    if deps.len() == 0 {
        Seq::empty()
    } else {
        dep_entries(deps.drop_last()) + dep_entry(deps.last())
    }
}

/// A section of dependencies; nothing where there are none.
pub open spec fn dep_section(tag: Seq<char>, deps: Seq<Dep>) -> Seq<char> {
    if deps.len() == 0 {
        Seq::empty()
    } else {
        "    <rpm:"@ + tag + ">\n"@ + dep_entries(deps) + "    </rpm:"@ + tag + ">\n"@
    }
}

/// The file belongs in `primary`, where dependency solving finds it without
/// the full file lists.
pub open spec fn is_primary(path: Seq<char>) -> bool {
    "/etc/"@.is_prefix_of(path) || path == "/usr/lib/sendmail"@ || text::has(path, "bin/"@)
}

/// A file as an element.
pub open spec fn file_element(indent: Seq<char>, f: FileLine) -> Seq<char> {
    if f.kind.len() == 0 {
        indent + "<file>"@ + xml::escaped(f.path) + "</file>\n"@
    } else {
        indent + "<file type=\""@ + f.kind + "\">"@ + xml::escaped(f.path) + "</file>\n"@
    }
}

/// The files as elements, all or those of `primary`.
pub open spec fn file_elements(indent: Seq<char>, files: Seq<FileLine>, all: bool) -> Seq<char>
    decreases files.len(),
{
    if files.len() == 0 {
        Seq::empty()
    } else {
        let before = file_elements(indent, files.drop_last(), all);
        if all || is_primary(files.last().path) {
            before + file_element(indent, files.last())
        } else {
            before
        }
    }
}

/// The changelog as elements.
pub open spec fn change_elements(log: Seq<Change>) -> Seq<char>
    decreases log.len(),
{
    if log.len() == 0 {
        Seq::empty()
    } else {
        let c = log.last();
        change_elements(log.drop_last()) + ("  <changelog author=\""@ + xml::escaped(c.author)
            + "\" date=\""@ + text::decimal(c.date as nat) + "\">"@ + xml::escaped(c.text)
            + "</changelog>\n"@)
    }
}

/// An element around an escaped text.
pub open spec fn element(open: Seq<char>, content: Seq<char>, close: Seq<char>) -> Seq<char> {
    open + xml::escaped(content) + close
}

/// A package in `primary`.
#[verifier::opaque]
pub open spec fn primary_package(p: Pkg) -> Seq<char> {
    "<package type=\"rpm\">\n"@ + element("  <name>"@, p.name, "</name>\n"@) + element(
        "  <arch>"@,
        p.arch,
        "</arch>\n"@,
    ) + "  <version epoch=\""@ + text::decimal(p.epoch as nat) + element(
        "\" ver=\""@,
        p.version,
        "\""@,
    ) + element(" rel=\""@, p.release, "\"/>\n"@)
        + "  <checksum type=\"sha256\" pkgid=\"YES\">"@ + p.pkgid + "</checksum>\n"@ + element(
        "  <summary>"@,
        p.summary,
        "</summary>\n"@,
    ) + element("  <description>"@, p.description, "</description>\n"@) + element(
        "  <packager>"@,
        p.packager,
        "</packager>\n"@,
    ) + element("  <url>"@, p.url, "</url>\n"@) + "  <time file=\""@ + text::decimal(
        p.file_time as nat,
    ) + "\" build=\""@ + text::decimal(p.build_time as nat) + "\"/>\n"@
        + "  <size package=\""@ + text::decimal(p.size_package as nat) + "\" installed=\""@
        + text::decimal(p.size_installed as nat) + "\" archive=\""@ + text::decimal(
        p.size_installed as nat,
    ) + "\"/>\n"@ + element("  <location href=\""@, p.href, "\"/>\n"@) + "  <format>\n"@ + element(
        "    <rpm:license>"@,
        p.license,
        "</rpm:license>\n"@,
    ) + element("    <rpm:vendor>"@, p.vendor, "</rpm:vendor>\n"@) + element(
        "    <rpm:group>"@,
        p.group,
        "</rpm:group>\n"@,
    ) + element("    <rpm:buildhost>"@, p.buildhost, "</rpm:buildhost>\n"@) + element(
        "    <rpm:sourcerpm>"@,
        p.sourcerpm,
        "</rpm:sourcerpm>\n"@,
    ) + "    <rpm:header-range start=\""@ + text::decimal(p.header_start as nat) + "\" end=\""@
        + text::decimal(p.header_end as nat) + "\"/>\n"@ + dep_section("provides"@, p.provides)
        + dep_section("requires"@, p.requires) + dep_section("conflicts"@, p.conflicts)
        + dep_section("obsoletes"@, p.obsoletes) + file_elements("    "@, p.files, false)
        + "  </format>\n</package>\n"@
}

/// The opening of a package in `filelists` and `other`.
pub open spec fn package_head(p: Pkg) -> Seq<char> {
    "<package pkgid=\""@ + p.pkgid + element("\" name=\""@, p.name, "\""@) + element(
        " arch=\""@,
        p.arch,
        "\">\n"@,
    ) + "  <version epoch=\""@ + text::decimal(p.epoch as nat) + element(
        "\" ver=\""@,
        p.version,
        "\""@,
    ) + element(" rel=\""@, p.release, "\"/>\n"@)
}

/// A package in `filelists`.
pub open spec fn filelists_package(p: Pkg) -> Seq<char> {
    package_head(p) + file_elements("  "@, p.files, true) + "</package>\n"@
}

/// A package in `other`.
pub open spec fn other_package(p: Pkg) -> Seq<char> {
    package_head(p) + change_elements(p.changelogs) + "</package>\n"@
}

/// The documents that describe packages.
#[derive(Debug, Clone, Copy, PartialEq, Eq, Structural)]
pub enum Document {
    Primary,
    Filelists,
    Other,
}

/// A package in a document.
pub open spec fn package_in(doc: Document, p: Pkg) -> Seq<char> {
    match doc {
        Document::Primary => primary_package(p),
        Document::Filelists => filelists_package(p),
        Document::Other => other_package(p),
    }
}

/// The packages in a document.
pub open spec fn packages_in(doc: Document, pkgs: Seq<Pkg>) -> Seq<char>
    decreases pkgs.len(),
{
    if pkgs.len() == 0 {
        Seq::empty()
    } else {
        packages_in(doc, pkgs.drop_last()) + package_in(doc, pkgs.last())
    }
}

/// What a document starts with, up to the number of packages.
pub open spec fn document_open(doc: Document) -> Seq<char> {
    match doc {
        Document::Primary => {
            "<?xml version=\"1.0\" encoding=\"UTF-8\"?>\n<metadata xmlns=\"http://linux.duke.edu/metadata/common\" xmlns:rpm=\"http://linux.duke.edu/metadata/rpm\" packages=\""@
        },
        Document::Filelists => {
            "<?xml version=\"1.0\" encoding=\"UTF-8\"?>\n<filelists xmlns=\"http://linux.duke.edu/metadata/filelists\" packages=\""@
        },
        Document::Other => {
            "<?xml version=\"1.0\" encoding=\"UTF-8\"?>\n<otherdata xmlns=\"http://linux.duke.edu/metadata/other\" packages=\""@
        },
    }
}

/// What a document ends with.
pub open spec fn document_close(doc: Document) -> Seq<char> {
    match doc {
        Document::Primary => "</metadata>\n"@,
        Document::Filelists => "</filelists>\n"@,
        Document::Other => "</otherdata>\n"@,
    }
}

/// A document over the packages.
pub open spec fn document(doc: Document, pkgs: Seq<Pkg>) -> Seq<char> {
    document_open(doc) + text::decimal(pkgs.len()) + "\">\n"@ + packages_in(doc, pkgs)
        + document_close(doc)
}

fn push_element(out: &mut String, open: &str, content: &str, close: &str)
    ensures
        final(out)@ == old(out)@ + element(open@, content@, close@),
{
    let ghost start = out@;
    let inner = xml::xml_escape(content);
    out.append(open);
    out.append(inner.as_str());
    out.append(close);
    proof {
        assert(out@ =~= start + element(open@, content@, close@));
    }
}

fn push_number(out: &mut String, n: u64)
    ensures
        final(out)@ == old(out)@ + text::decimal(n as nat),
{
    let t = text::decimal_text(n);
    out.append(t.as_str());
}

fn dep_entry_text(d: &DepRecord) -> (r: String)
    ensures
        r@ == dep_entry(d@),
{
    let mut r = "      <rpm:entry name=\"".to_owned();
    r.append(xml::xml_escape(d.name.as_str()).as_str());
    r.append("\"");
    if let Some(f) = &d.flags {
        r.append(" flags=\"");
        r.append(f.as_str());
        r.append("\"");
        let epoch = match &d.epoch {
            Some(e) => e.as_str(),
            None => "0",
        };
        r.append(" epoch=\"");
        r.append(xml::xml_escape(epoch).as_str());
        r.append("\"");
        if let Some(v) = &d.ver {
            r.append(" ver=\"");
            r.append(xml::xml_escape(v.as_str()).as_str());
            r.append("\"");
        }
        if let Some(rel) = &d.rel {
            r.append(" rel=\"");
            r.append(xml::xml_escape(rel.as_str()).as_str());
            r.append("\"");
        }
    }
    if d.pre {
        r.append(" pre=\"1\"");
    }
    r.append("/>\n");
    r
}

fn dep_entries_text(deps: &[DepRecord]) -> (r: String)
    ensures
        r@ == dep_entries(rpm_record::deps_of(deps@)),
{
    let ghost all = rpm_record::deps_of(deps@);
    let mut r = String::new();
    let mut i: usize = 0;
    proof {
        assert(r@ =~= dep_entries(all.take(0)));
    }
    while i < deps.len()
        invariant
            i <= deps@.len(),
            all == rpm_record::deps_of(deps@),
            r@ == dep_entries(all.take(i as int)),
        decreases deps@.len() - i,
    {
        proof {
            assert(all.take(i + 1).drop_last() =~= all.take(i as int));
            assert(all.take(i + 1).last() == deps@[i as int]@);
        }
        r.append(dep_entry_text(&deps[i]).as_str());
        i = i + 1;
    }
    proof {
        assert(all.take(i as int) =~= all);
    }
    r
}

/// Appends a section of dependencies; nothing where there are none.
pub fn dep_entry_xml(out: &mut String, tag: &str, deps: &[DepRecord])
    ensures
        final(out)@ == old(out)@ + dep_section(tag@, rpm_record::deps_of(deps@)),
{
    let ghost start = out@;
    if deps.len() == 0 {
        proof {
            assert(out@ =~= start + dep_section(tag@, rpm_record::deps_of(deps@)));
        }
        return;
    }
    let mut section = "    <rpm:".to_owned();
    section.append(tag);
    section.append(">\n");
    section.append(dep_entries_text(deps).as_str());
    section.append("    </rpm:");
    section.append(tag);
    section.append(">\n");
    out.append(section.as_str());
}

/// The file belongs in `primary`: dependency solving may need it without the
/// full file lists.
pub fn is_primary_file(path: &str) -> (r: bool)
    ensures
        r == is_primary(path@),
{
    text::starts_with(path, "/etc/") || text::same(path, "/usr/lib/sendmail") || text::contains(
        path,
        "bin/",
    )
}

fn file_element_text(indent: &str, f: &FileRecord) -> (r: String)
    ensures
        r@ == file_element(indent@, f@),
{
    let mut r = indent.to_owned();
    if f.kind.as_str().unicode_len() == 0 {
        r.append("<file>");
    } else {
        r.append("<file type=\"");
        r.append(f.kind.as_str());
        r.append("\">");
    }
    r.append(xml::xml_escape(f.path.as_str()).as_str());
    r.append("</file>\n");
    r
}

fn file_elements_text(indent: &str, files: &Vec<FileRecord>, all_files: bool) -> (r: String)
    ensures
        r@ == file_elements(indent@, rpm_record::lines_of(files@), all_files),
{
    let ghost all = rpm_record::lines_of(files@);
    let mut r = String::new();
    let mut i: usize = 0;
    proof {
        assert(r@ =~= file_elements(indent@, all.take(0), all_files));
    }
    while i < files.len()
        invariant
            i <= files@.len(),
            all == rpm_record::lines_of(files@),
            r@ == file_elements(indent@, all.take(i as int), all_files),
        decreases files@.len() - i,
    {
        proof {
            assert(all.take(i + 1).drop_last() =~= all.take(i as int));
            assert(all.take(i + 1).last() == files@[i as int]@);
        }
        if all_files || is_primary_file(files[i].path.as_str()) {
            r.append(file_element_text(indent, &files[i]).as_str());
        }
        i = i + 1;
    }
    proof {
        assert(all.take(i as int) =~= all);
    }
    r
}

fn change_elements_text(log: &Vec<ChangelogRecord>) -> (r: String)
    ensures
        r@ == change_elements(rpm_record::log_of(log@)),
{
    let ghost all = rpm_record::log_of(log@);
    let mut r = String::new();
    let mut i: usize = 0;
    proof {
        assert(r@ =~= change_elements(all.take(0)));
    }
    while i < log.len()
        invariant
            i <= log@.len(),
            all == rpm_record::log_of(log@),
            r@ == change_elements(all.take(i as int)),
        decreases log@.len() - i,
    {
        proof {
            assert(all.take(i + 1).drop_last() =~= all.take(i as int));
            assert(all.take(i + 1).last() == log@[i as int]@);
        }
        let c = &log[i];
        let mut line = "  <changelog author=\"".to_owned();
        line.append(xml::xml_escape(c.author.as_str()).as_str());
        line.append("\" date=\"");
        push_number(&mut line, c.date);
        line.append("\">");
        line.append(xml::xml_escape(c.text.as_str()).as_str());
        line.append("</changelog>\n");
        r.append(line.as_str());
        i = i + 1;
    }
    proof {
        assert(all.take(i as int) =~= all);
    }
    r
}

fn primary_package_text(p: &PkgRecord) -> (r: String)
    ensures
        r@ == primary_package(p@),
{
    let mut r = "<package type=\"rpm\">\n".to_owned();
    push_element(&mut r, "  <name>", p.name.as_str(), "</name>\n");
    push_element(&mut r, "  <arch>", p.arch.as_str(), "</arch>\n");
    r.append("  <version epoch=\"");
    push_number(&mut r, p.epoch as u64);
    push_element(&mut r, "\" ver=\"", p.version.as_str(), "\"");
    push_element(&mut r, " rel=\"", p.release.as_str(), "\"/>\n");
    r.append("  <checksum type=\"sha256\" pkgid=\"YES\">");
    r.append(p.pkgid.as_str());
    r.append("</checksum>\n");
    push_element(&mut r, "  <summary>", p.summary.as_str(), "</summary>\n");
    push_element(&mut r, "  <description>", p.description.as_str(), "</description>\n");
    push_element(&mut r, "  <packager>", p.packager.as_str(), "</packager>\n");
    push_element(&mut r, "  <url>", p.url.as_str(), "</url>\n");
    r.append("  <time file=\"");
    push_number(&mut r, p.file_time);
    r.append("\" build=\"");
    push_number(&mut r, p.build_time);
    r.append("\"/>\n");
    r.append("  <size package=\"");
    push_number(&mut r, p.size_package);
    r.append("\" installed=\"");
    push_number(&mut r, p.size_installed);
    r.append("\" archive=\"");
    push_number(&mut r, p.size_installed);
    r.append("\"/>\n");
    push_element(&mut r, "  <location href=\"", p.href.as_str(), "\"/>\n");
    r.append("  <format>\n");
    push_element(&mut r, "    <rpm:license>", p.license.as_str(), "</rpm:license>\n");
    push_element(&mut r, "    <rpm:vendor>", p.vendor.as_str(), "</rpm:vendor>\n");
    push_element(&mut r, "    <rpm:group>", p.group.as_str(), "</rpm:group>\n");
    push_element(&mut r, "    <rpm:buildhost>", p.buildhost.as_str(), "</rpm:buildhost>\n");
    push_element(&mut r, "    <rpm:sourcerpm>", p.sourcerpm.as_str(), "</rpm:sourcerpm>\n");
    r.append("    <rpm:header-range start=\"");
    push_number(&mut r, p.header_start);
    r.append("\" end=\"");
    push_number(&mut r, p.header_end);
    r.append("\"/>\n");
    dep_entry_xml(&mut r, "provides", p.provides.as_slice());
    dep_entry_xml(&mut r, "requires", p.requires.as_slice());
    dep_entry_xml(&mut r, "conflicts", p.conflicts.as_slice());
    dep_entry_xml(&mut r, "obsoletes", p.obsoletes.as_slice());
    r.append(file_elements_text("    ", &p.files, false).as_str());
    r.append("  </format>\n</package>\n");
    proof {
        reveal(primary_package);
    }
    r
}

fn package_head_text(p: &PkgRecord) -> (r: String)
    ensures
        r@ == package_head(p@),
{
    let mut r = "<package pkgid=\"".to_owned();
    r.append(p.pkgid.as_str());
    push_element(&mut r, "\" name=\"", p.name.as_str(), "\"");
    push_element(&mut r, " arch=\"", p.arch.as_str(), "\">\n");
    r.append("  <version epoch=\"");
    push_number(&mut r, p.epoch as u64);
    push_element(&mut r, "\" ver=\"", p.version.as_str(), "\"");
    push_element(&mut r, " rel=\"", p.release.as_str(), "\"/>\n");
    r
}

fn package_text(doc: Document, p: &PkgRecord) -> (r: String)
    ensures
        r@ == package_in(doc, p@),
{
    match doc {
        Document::Primary => primary_package_text(p),
        Document::Filelists => {
            let mut r = package_head_text(p);
            r.append(file_elements_text("  ", &p.files, true).as_str());
            r.append("</package>\n");
            r
        },
        Document::Other => {
            let mut r = package_head_text(p);
            r.append(change_elements_text(&p.changelogs).as_str());
            r.append("</package>\n");
            r
        },
    }
}

fn document_text(doc: Document, pkgs: &[PkgRecord]) -> (r: String)
    ensures
        r@ == document(doc, pkgs_of(pkgs@)),
{
    let ghost all = pkgs_of(pkgs@);
    let mut body = String::new();
    let mut i: usize = 0;
    proof {
        assert(body@ =~= packages_in(doc, all.take(0)));
    }
    while i < pkgs.len()
        invariant
            i <= pkgs@.len(),
            all == pkgs_of(pkgs@),
            body@ == packages_in(doc, all.take(i as int)),
        decreases pkgs@.len() - i,
    {
        proof {
            assert(all.take(i + 1).drop_last() =~= all.take(i as int));
            assert(all.take(i + 1).last() == pkgs@[i as int]@);
        }
        body.append(package_text(doc, &pkgs[i]).as_str());
        i = i + 1;
    }
    proof {
        assert(all.take(i as int) =~= all);
    }
    let mut r = match doc {
        Document::Primary => {
            "<?xml version=\"1.0\" encoding=\"UTF-8\"?>\n<metadata xmlns=\"http://linux.duke.edu/metadata/common\" xmlns:rpm=\"http://linux.duke.edu/metadata/rpm\" packages=\""
        },
        Document::Filelists => {
            "<?xml version=\"1.0\" encoding=\"UTF-8\"?>\n<filelists xmlns=\"http://linux.duke.edu/metadata/filelists\" packages=\""
        },
        Document::Other => {
            "<?xml version=\"1.0\" encoding=\"UTF-8\"?>\n<otherdata xmlns=\"http://linux.duke.edu/metadata/other\" packages=\""
        },
    }.to_owned();
    push_number(&mut r, pkgs.len() as u64);
    r.append("\">\n");
    r.append(body.as_str());
    r.append(
        match doc {
            Document::Primary => "</metadata>\n",
            Document::Filelists => "</filelists>\n",
            Document::Other => "</otherdata>\n",
        },
    );
    r
}

/// `primary.xml` over the packages.
pub fn generate_primary_xml(pkgs: &[PkgRecord]) -> (r: String)
    ensures
        r@ == document(Document::Primary, pkgs_of(pkgs@)),
{
    document_text(Document::Primary, pkgs)
}

/// `filelists.xml` over the packages.
pub fn generate_filelists_xml(pkgs: &[PkgRecord]) -> (r: String)
    ensures
        r@ == document(Document::Filelists, pkgs_of(pkgs@)),
{
    document_text(Document::Filelists, pkgs)
}

/// `other.xml` over the packages.
pub fn generate_other_xml(pkgs: &[PkgRecord]) -> (r: String)
    ensures
        r@ == document(Document::Other, pkgs_of(pkgs@)),
{
    document_text(Document::Other, pkgs)
}


proof fn lemma_literals()
    ensures
        xml::legal("      <rpm:entry name=\""@),
        xml::legal("\""@),
        xml::legal("0"@),
        xml::legal(" flags=\""@),
        xml::legal(" epoch=\""@),
        xml::legal(" ver=\""@),
        xml::legal(" rel=\""@),
        xml::legal(" pre=\"1\""@),
        xml::legal("/>\n"@),
        xml::legal("    <rpm:"@),
        xml::legal(">\n"@),
        xml::legal("    </rpm:"@),
        xml::legal("/etc/"@),
        xml::legal("/usr/lib/sendmail"@),
        xml::legal("bin/"@),
        xml::legal("<file>"@),
        xml::legal("</file>\n"@),
        xml::legal("<file type=\""@),
        xml::legal("\">"@),
        xml::legal("  <changelog author=\""@),
        xml::legal("\" date=\""@),
        xml::legal("</changelog>\n"@),
        xml::legal("<package type=\"rpm\">\n"@),
        xml::legal("  <name>"@),
        xml::legal("</name>\n"@),
        xml::legal("  <arch>"@),
        xml::legal("</arch>\n"@),
        xml::legal("  <version epoch=\""@),
        xml::legal("\" ver=\""@),
        xml::legal("\"/>\n"@),
        xml::legal("  <checksum type=\"sha256\" pkgid=\"YES\">"@),
        xml::legal("</checksum>\n"@),
        xml::legal("  <summary>"@),
        xml::legal("</summary>\n"@),
        xml::legal("  <description>"@),
        xml::legal("</description>\n"@),
        xml::legal("  <packager>"@),
        xml::legal("</packager>\n"@),
        xml::legal("  <url>"@),
        xml::legal("</url>\n"@),
        xml::legal("  <time file=\""@),
        xml::legal("\" build=\""@),
        xml::legal("  <size package=\""@),
        xml::legal("\" installed=\""@),
        xml::legal("\" archive=\""@),
        xml::legal("  <location href=\""@),
        xml::legal("  <format>\n"@),
        xml::legal("    <rpm:license>"@),
        xml::legal("</rpm:license>\n"@),
        xml::legal("    <rpm:vendor>"@),
        xml::legal("</rpm:vendor>\n"@),
        xml::legal("    <rpm:group>"@),
        xml::legal("</rpm:group>\n"@),
        xml::legal("    <rpm:buildhost>"@),
        xml::legal("</rpm:buildhost>\n"@),
        xml::legal("    <rpm:sourcerpm>"@),
        xml::legal("</rpm:sourcerpm>\n"@),
        xml::legal("    <rpm:header-range start=\""@),
        xml::legal("\" end=\""@),
        xml::legal("provides"@),
        xml::legal("requires"@),
        xml::legal("conflicts"@),
        xml::legal("obsoletes"@),
        xml::legal("    "@),
        xml::legal("  </format>\n</package>\n"@),
        xml::legal("<package pkgid=\""@),
        xml::legal("\" name=\""@),
        xml::legal(" arch=\""@),
        xml::legal("\">\n"@),
        xml::legal("  "@),
        xml::legal("</package>\n"@),
        xml::legal("<?xml version=\"1.0\" encoding=\"UTF-8\"?>\n<metadata xmlns=\"http://linux.duke.edu/metadata/common\" xmlns:rpm=\"http://linux.duke.edu/metadata/rpm\" packages=\""@),
        xml::legal("<?xml version=\"1.0\" encoding=\"UTF-8\"?>\n<filelists xmlns=\"http://linux.duke.edu/metadata/filelists\" packages=\""@),
        xml::legal("<?xml version=\"1.0\" encoding=\"UTF-8\"?>\n<otherdata xmlns=\"http://linux.duke.edu/metadata/other\" packages=\""@),
        xml::legal("</metadata>\n"@),
        xml::legal("</filelists>\n"@),
        xml::legal("</otherdata>\n"@),
{
    reveal(xml::legal);
    reveal_strlit("      <rpm:entry name=\"");
    reveal_strlit("\"");
    reveal_strlit("0");
    reveal_strlit(" flags=\"");
    reveal_strlit(" epoch=\"");
    reveal_strlit(" ver=\"");
    reveal_strlit(" rel=\"");
    reveal_strlit(" pre=\"1\"");
    reveal_strlit("/>\n");
    reveal_strlit("    <rpm:");
    reveal_strlit(">\n");
    reveal_strlit("    </rpm:");
    reveal_strlit("/etc/");
    reveal_strlit("/usr/lib/sendmail");
    reveal_strlit("bin/");
    reveal_strlit("<file>");
    reveal_strlit("</file>\n");
    reveal_strlit("<file type=\"");
    reveal_strlit("\">");
    reveal_strlit("  <changelog author=\"");
    reveal_strlit("\" date=\"");
    reveal_strlit("</changelog>\n");
    reveal_strlit("<package type=\"rpm\">\n");
    reveal_strlit("  <name>");
    reveal_strlit("</name>\n");
    reveal_strlit("  <arch>");
    reveal_strlit("</arch>\n");
    reveal_strlit("  <version epoch=\"");
    reveal_strlit("\" ver=\"");
    reveal_strlit("\"/>\n");
    reveal_strlit("  <checksum type=\"sha256\" pkgid=\"YES\">");
    reveal_strlit("</checksum>\n");
    reveal_strlit("  <summary>");
    reveal_strlit("</summary>\n");
    reveal_strlit("  <description>");
    reveal_strlit("</description>\n");
    reveal_strlit("  <packager>");
    reveal_strlit("</packager>\n");
    reveal_strlit("  <url>");
    reveal_strlit("</url>\n");
    reveal_strlit("  <time file=\"");
    reveal_strlit("\" build=\"");
    reveal_strlit("  <size package=\"");
    reveal_strlit("\" installed=\"");
    reveal_strlit("\" archive=\"");
    reveal_strlit("  <location href=\"");
    reveal_strlit("  <format>\n");
    reveal_strlit("    <rpm:license>");
    reveal_strlit("</rpm:license>\n");
    reveal_strlit("    <rpm:vendor>");
    reveal_strlit("</rpm:vendor>\n");
    reveal_strlit("    <rpm:group>");
    reveal_strlit("</rpm:group>\n");
    reveal_strlit("    <rpm:buildhost>");
    reveal_strlit("</rpm:buildhost>\n");
    reveal_strlit("    <rpm:sourcerpm>");
    reveal_strlit("</rpm:sourcerpm>\n");
    reveal_strlit("    <rpm:header-range start=\"");
    reveal_strlit("\" end=\"");
    reveal_strlit("provides");
    reveal_strlit("requires");
    reveal_strlit("conflicts");
    reveal_strlit("obsoletes");
    reveal_strlit("    ");
    reveal_strlit("  </format>\n</package>\n");
    reveal_strlit("<package pkgid=\"");
    reveal_strlit("\" name=\"");
    reveal_strlit(" arch=\"");
    reveal_strlit("\">\n");
    reveal_strlit("  ");
    reveal_strlit("</package>\n");
    reveal_strlit("<?xml version=\"1.0\" encoding=\"UTF-8\"?>\n<metadata xmlns=\"http://linux.duke.edu/metadata/common\" xmlns:rpm=\"http://linux.duke.edu/metadata/rpm\" packages=\"");
    reveal_strlit("<?xml version=\"1.0\" encoding=\"UTF-8\"?>\n<filelists xmlns=\"http://linux.duke.edu/metadata/filelists\" packages=\"");
    reveal_strlit("<?xml version=\"1.0\" encoding=\"UTF-8\"?>\n<otherdata xmlns=\"http://linux.duke.edu/metadata/other\" packages=\"");
    reveal_strlit("</metadata>\n");
    reveal_strlit("</filelists>\n");
    reveal_strlit("</otherdata>\n");
}


/// What goes into a document as it is may stand there: the flags of the
/// dependencies.
pub open spec fn deps_fit(deps: Seq<Dep>) -> bool {
    forall|i: int|
        0 <= i < deps.len() ==> ((#[trigger] deps[i]).flags matches Some(f) ==> xml::legal(f))
}

/// The kinds of the files may stand in a document.
pub open spec fn files_fit(files: Seq<FileLine>) -> bool {
    forall|i: int| 0 <= i < files.len() ==> xml::legal((#[trigger] files[i]).kind)
}

/// All that goes into a document as it is may stand there.
pub open spec fn pkg_fits(p: Pkg) -> bool {
    xml::legal(p.pkgid) && deps_fit(p.provides) && deps_fit(p.requires) && deps_fit(p.conflicts)
        && deps_fit(p.obsoletes) && files_fit(p.files)
}

proof fn lemma_legal_dep_entry(d: Dep)
    requires
        d.flags matches Some(f) ==> xml::legal(f),
    ensures
        xml::legal(dep_entry(d)),
{
    broadcast use {xml::lemma_legal_concat, xml::escaped_text_is_legal};

    lemma_literals();
}

proof fn lemma_legal_dep_entries(deps: Seq<Dep>)
    requires
        deps_fit(deps),
    ensures
        xml::legal(dep_entries(deps)),
    decreases deps.len(),
{
    broadcast use xml::lemma_legal_concat;

    if deps.len() == 0 {
        reveal(xml::legal);
    } else {
        let front = deps.drop_last();
        assert forall|i: int| 0 <= i < front.len() implies ((#[trigger] front[i]).flags matches Some(
            f,
        ) ==> xml::legal(f)) by {
            assert(deps[i] == front[i]);
        }
        lemma_legal_dep_entries(front);
        assert(deps[deps.len() - 1] == deps.last());
        lemma_legal_dep_entry(deps.last());
    }
}

proof fn lemma_legal_dep_section(tag: Seq<char>, deps: Seq<Dep>)
    requires
        xml::legal(tag),
        deps_fit(deps),
    ensures
        xml::legal(dep_section(tag, deps)),
{
    broadcast use xml::lemma_legal_concat;

    lemma_literals();
    lemma_legal_dep_entries(deps);
    if deps.len() == 0 {
        reveal(xml::legal);
    }
}

proof fn lemma_legal_files(indent: Seq<char>, files: Seq<FileLine>, all: bool)
    requires
        xml::legal(indent),
        files_fit(files),
    ensures
        xml::legal(file_elements(indent, files, all)),
    decreases files.len(),
{
    broadcast use {xml::lemma_legal_concat, xml::escaped_text_is_legal};

    lemma_literals();
    if files.len() == 0 {
        reveal(xml::legal);
    } else {
        let front = files.drop_last();
        assert forall|i: int| 0 <= i < front.len() implies xml::legal(
            (#[trigger] front[i]).kind,
        ) by {
            assert(files[i] == front[i]);
        }
        lemma_legal_files(indent, front, all);
        assert(files[files.len() - 1] == files.last());
    }
}

proof fn lemma_legal_changes(log: Seq<Change>)
    ensures
        xml::legal(change_elements(log)),
    decreases log.len(),
{
    broadcast use {xml::lemma_legal_concat, xml::escaped_text_is_legal, xml::decimal_is_legal};

    lemma_literals();
    if log.len() == 0 {
        reveal(xml::legal);
    } else {
        lemma_legal_changes(log.drop_last());
    }
}

proof fn lemma_legal_package(doc: Document, p: Pkg)
    requires
        pkg_fits(p),
    ensures
        xml::legal(package_in(doc, p)),
{
    broadcast use {xml::lemma_legal_concat, xml::escaped_text_is_legal, xml::decimal_is_legal};

    reveal(primary_package);
    lemma_literals();
    lemma_legal_files("    "@, p.files, false);
    lemma_legal_files("  "@, p.files, true);
    lemma_legal_changes(p.changelogs);
    lemma_legal_dep_section("provides"@, p.provides);
    lemma_legal_dep_section("requires"@, p.requires);
    lemma_legal_dep_section("conflicts"@, p.conflicts);
    lemma_legal_dep_section("obsoletes"@, p.obsoletes);
}

proof fn lemma_legal_packages(doc: Document, pkgs: Seq<Pkg>)
    requires
        forall|i: int| 0 <= i < pkgs.len() ==> pkg_fits(#[trigger] pkgs[i]),
    ensures
        xml::legal(packages_in(doc, pkgs)),
    decreases pkgs.len(),
{
    broadcast use xml::lemma_legal_concat;

    if pkgs.len() == 0 {
        reveal(xml::legal);
    } else {
        let front = pkgs.drop_last();
        assert forall|i: int| 0 <= i < front.len() implies pkg_fits(#[trigger] front[i]) by {
            assert(pkgs[i] == front[i]);
        }
        lemma_legal_packages(doc, front);
        assert(pkgs[pkgs.len() - 1] == pkgs.last());
        lemma_legal_package(doc, pkgs.last());
    }
}

/// A document holds the entry of every package that it describes, as a whole.
pub proof fn documents_hold_every_package(doc: Document, pkgs: Seq<Pkg>, p: Pkg)
    requires
        pkgs.contains(p),
    ensures
        exists|a: Seq<char>, b: Seq<char>|
            document(doc, pkgs) == #[trigger] (a + package_in(doc, p) + b),
{
    let i = choose|i: int| 0 <= i < pkgs.len() && pkgs[i] == p;
    let (a, b) = lemma_package_among(doc, pkgs, i);
    let head = document_open(doc) + text::decimal(pkgs.len()) + "\">\n"@;
    lemma_wrapped(head, a, package_in(doc, p), b, document_close(doc));
}

proof fn lemma_wrapped(
    head: Seq<char>,
    a: Seq<char>,
    x: Seq<char>,
    b: Seq<char>,
    tail: Seq<char>,
)
    ensures
        head + (a + x + b) + tail == (head + a) + x + (b + tail),
{
    assert(head + (a + x + b) + tail =~= (head + a) + x + (b + tail));
}

proof fn lemma_followed(a: Seq<char>, x: Seq<char>, b: Seq<char>, y: Seq<char>)
    ensures
        a + x + b + y == a + x + (b + y),
        a + x + Seq::<char>::empty() == a + x,
{
    assert(a + x + b + y =~= a + x + (b + y));
    assert(a + x + Seq::<char>::empty() =~= a + x);
}

proof fn lemma_package_among(doc: Document, pkgs: Seq<Pkg>, i: int) -> (r: (Seq<char>, Seq<char>))
    requires
        0 <= i < pkgs.len(),
    ensures
        packages_in(doc, pkgs) == r.0 + package_in(doc, pkgs[i]) + r.1,
    decreases pkgs.len(),
{
    let front = pkgs.drop_last();
    let last = package_in(doc, pkgs.last());
    if i == pkgs.len() - 1 {
        let before = packages_in(doc, front);
        lemma_followed(before, last, Seq::empty(), last);
        (before, Seq::empty())
    } else {
        let (a, b) = lemma_package_among(doc, front, i);
        lemma_followed(a, package_in(doc, pkgs[i]), b, last);
        (a, b + last)
    }
}

/// A document holds no character that may not stand in XML, whatever text the
/// packages bring along.
pub proof fn documents_are_legal(doc: Document, pkgs: Seq<Pkg>)
    requires
        forall|i: int| 0 <= i < pkgs.len() ==> pkg_fits(#[trigger] pkgs[i]),
    ensures
        xml::legal(document(doc, pkgs)),
{
    broadcast use {xml::lemma_legal_concat, xml::decimal_is_legal};

    lemma_literals();
    lemma_legal_packages(doc, pkgs);
}

/// A digest in hexadecimal may stand in a document.
pub proof fn lemma_hex_is_legal(data: Seq<u8>)
    ensures
        xml::legal(digest::hex_text(data)),
    decreases data.len(),
{
    reveal(xml::legal);
    if data.len() > 0 {
        lemma_hex_is_legal(data.drop_last());
    }
}

proof fn lemma_dep_list_fits(deps: Seq<rpm_package::Dependency>, drop_rpmlib: bool)
    ensures
        deps_fit(rpm_record::dep_list(deps, drop_rpmlib)),
    decreases deps.len(),
{
    if deps.len() > 0 {
        lemma_dep_list_fits(deps.drop_last(), drop_rpmlib);
        lemma_sense_is_legal(deps.last().flags);
    }
}

proof fn lemma_sense_is_legal(flags: u32)
    ensures
        rpm_record::sense_text(flags) matches Some(f) ==> xml::legal(f),
{
    reveal(xml::legal);
    reveal_strlit("EQ");
    reveal_strlit("LT");
    reveal_strlit("GT");
    reveal_strlit("LE");
    reveal_strlit("GE");
}

/// The record of a package is always fit for the documents.
pub proof fn records_are_fit(
    h: rpm_package::Header,
    body: Seq<u8>,
    href: Seq<char>,
    file_time: u64,
    changelog_limit: int,
)
    ensures
        pkg_fits(rpm_record::record_of(h, body, href, file_time, changelog_limit)),
{
    let p = rpm_record::record_of(h, body, href, file_time, changelog_limit);
    lemma_hex_is_legal(digest::sha256(body));
    lemma_dep_list_fits(rpm_record::or_none(h.provides), false);
    lemma_dep_list_fits(rpm_record::or_none(h.requires), true);
    lemma_dep_list_fits(rpm_record::or_none(h.conflicts), false);
    lemma_dep_list_fits(rpm_record::or_none(h.obsoletes), false);
    assert forall|i: int| 0 <= i < p.files.len() implies xml::legal(
        (#[trigger] p.files[i]).kind,
    ) by {
        reveal(xml::legal);
        reveal_strlit("ghost");
        reveal_strlit("dir");
        reveal_strlit("");
    }
}

} // verus!
