//! Where the keys of each registry belong, told by their shape, and that the
//! collection of versions misses none of them.

use vstd::prelude::*;

use crate::collect::{self, Place, Registry};
use crate::grouping;
use crate::path;
use crate::table::FileMeta;
use crate::text;

verus! {

proof fn lemma_slash()
    ensures
        "/"@ == seq!['/'],
{
    reveal_strlit("/");
    assert("/"@ =~= seq!['/']);
}

/// The pieces of two paths in a row.
pub proof fn lemma_slash_pieces(s: Seq<char>, t: Seq<char>)
    ensures
        text::pieces(s + "/"@ + t, '/') == text::pieces(s, '/') + text::pieces(t, '/'),
        text::pieces(t, '/').len() > 0,
        !t.contains('/') ==> text::pieces(t, '/') == seq![t],
{
    lemma_slash();
    assert(s + "/"@ + t =~= s.push('/') + t);
    path::pieces_follow_each_other(s, '/', t);
    if !t.contains('/') {
        path::lemma_single_piece(t, '/');
    }
}

/// The pieces of a path whose first two segments are known.
proof fn lemma_front_pieces(a: Seq<char>, b: Seq<char>, rest: Seq<char>)
    requires
        !a.contains('/'),
        !b.contains('/'),
    ensures
        text::pieces(a + "/"@ + b + "/"@ + rest, '/').len() >= 3,
        text::pieces(a + "/"@ + b + "/"@ + rest, '/')[0] == a,
        text::pieces(a + "/"@ + b + "/"@ + rest, '/')[1] == b,
        text::pieces(a + "/"@ + b, '/') == seq![a, b],
        text::pieces(a, '/') == seq![a],
{
    lemma_slash_pieces(a, b);
    lemma_slash_pieces(a + "/"@ + b, rest);
    path::lemma_single_piece(a, '/');
    assert(text::pieces(a + "/"@ + b, '/') =~= seq![a, b]);
}

proof fn lemma_regroup(p: Seq<char>, a: Seq<char>, b: Seq<char>, c: Seq<char>, d: Seq<char>)
    ensures
        p + a + "/"@ + b == p + (a + "/"@ + b),
        p + a + "/"@ + b + "/"@ + c == p + (a + "/"@ + b + "/"@ + c),
        p + a + "/"@ + b + "/"@ + c + "/"@ + d == p + (a + "/"@ + b + "/"@ + c + "/"@ + d),
{
    assert(p + a + "/"@ + b =~= p + (a + "/"@ + b));
    assert(p + a + "/"@ + b + "/"@ + c =~= p + (a + "/"@ + b + "/"@ + c));
    assert(p + a + "/"@ + b + "/"@ + c + "/"@ + d =~= p + (a + "/"@ + b + "/"@ + c + "/"@ + d));
}

/// A Maven file belongs to the artifact that its path names, under the version
/// that its directory is called by, however many segments the group has.
pub proof fn maven_files_belong_to_their_artifact(
    g: Seq<char>,
    a: Seq<char>,
    v: Seq<char>,
    f: Seq<char>,
)
    requires
        !a.contains('/'),
        !v.contains('/'),
        !f.contains('/'),
    ensures
        !"maven-metadata"@.is_prefix_of(f) ==> collect::place(
            Registry::Maven,
            "maven/"@ + g + "/"@ + a + "/"@ + v + "/"@ + f,
        ) == Some(Place { group: "maven:"@ + g + "/"@ + a, version: v }),
        "maven-metadata"@.is_prefix_of(f) ==> collect::place(
            Registry::Maven,
            "maven/"@ + g + "/"@ + a + "/"@ + v + "/"@ + f,
        ) is None,
{
    let rest = g + "/"@ + a + "/"@ + v + "/"@ + f;
    let key = "maven/"@ + g + "/"@ + a + "/"@ + v + "/"@ + f;
    lemma_regroup("maven/"@, g, a, v, f);
    path::prefixes_come_off("maven/"@, rest);
    lemma_slash_pieces(g, a);
    lemma_slash_pieces(g + "/"@ + a, v);
    lemma_slash_pieces(g + "/"@ + a + "/"@ + v, f);
    path::pieces_join_again(g, '/');
    lemma_slash();
    let parts = text::pieces(rest, '/');
    let n = parts.len() as int;
    let front = text::pieces(g, '/') + seq![a];
    assert(parts =~= front + seq![v] + seq![f]);
    assert(parts.take(n - 2) =~= front);
    assert(parts[n - 2] == v);
    assert(parts[n - 1] == f);
    assert(front.drop_last() =~= text::pieces(g, '/'));
    assert(text::joined(front, "/"@) == g + "/"@ + a);
    assert("maven:"@ + (g + "/"@ + a) =~= "maven:"@ + g + "/"@ + a);
}

/// Nothing else belongs to a Maven artifact: what does has a group, an artifact,
/// a version and a file name that is not that of metadata.
pub proof fn maven_versions_have_four_segments(key: Seq<char>)
    ensures
        collect::place(Registry::Maven, key) matches Some(p) ==> exists|
            g: Seq<char>,
            a: Seq<char>,
            v: Seq<char>,
            f: Seq<char>,
        |
            key == #[trigger] ("maven/"@ + g + "/"@ + a + "/"@ + v + "/"@ + f) && !a.contains('/')
                && !v.contains('/') && !f.contains('/') && !"maven-metadata"@.is_prefix_of(f)
                && p.group == "maven:"@ + g + "/"@ + a && p.version == v,
{
    if let Some(p) = collect::place(Registry::Maven, key) {
        let rest = text::without_prefix(key, "maven/"@)->0;
        path::prefixed_texts_are_put_together(key, "maven/"@);
        let parts = text::pieces(rest, '/');
        let n = parts.len() as int;
        path::pieces_join_again(rest, '/');
        lemma_slash();
        let p3 = parts.drop_last();
        let p2 = p3.drop_last();
        let p1 = p2.drop_last();
        let g = text::joined(p1, "/"@);
        let a = parts[n - 3];
        let v = parts[n - 2];
        let f = parts[n - 1];
        assert(rest == text::joined(p3, "/"@) + "/"@ + f);
        assert(text::joined(p3, "/"@) == text::joined(p2, "/"@) + "/"@ + v);
        assert(text::joined(p2, "/"@) == g + "/"@ + a);
        assert(p2 =~= parts.take(n - 2));
        lemma_regroup("maven/"@, g, a, v, f);
        assert("maven:"@ + (g + "/"@ + a) =~= "maven:"@ + g + "/"@ + a);
        assert(key == "maven/"@ + g + "/"@ + a + "/"@ + v + "/"@ + f);
    }
}

/// A Docker manifest belongs to its repository under its tag.
pub proof fn docker_tags_belong_to_their_repository(repo: Seq<char>, tag: Seq<char>)
    requires
        !text::has(repo + "/"@, "/manifests/"@),
    ensures
        !text::ends_ci(tag, ".meta"@) ==> collect::place(
            Registry::Docker,
            "docker/"@ + repo + "/manifests/"@ + tag + ".json"@,
        ) == Some(Place { group: "docker:"@ + repo, version: tag }),
        collect::place(
            Registry::Docker,
            "docker/"@ + repo + "/manifests/"@ + tag + ".meta.json"@,
        ) is None,
{
    reveal_strlit("/manifests/");
    reveal_strlit(".meta.json");
    reveal_strlit(".meta");
    reveal_strlit(".json");
    let file = tag + ".json"@;
    let side = tag + ".meta.json"@;
    lemma_docker_key(repo, file);
    lemma_docker_key(repo, side);
    assert("docker/"@ + repo + "/manifests/"@ + tag + ".json"@ =~= "docker/"@ + repo
        + "/manifests/"@ + file);
    assert("docker/"@ + repo + "/manifests/"@ + tag + ".meta.json"@ =~= "docker/"@ + repo
        + "/manifests/"@ + side);
    path::endings_ignore_case(tag, ".json"@, ".json"@);
    path::endings_ignore_case(tag, ".meta.json"@, ".meta.json"@);
    assert(".meta.json"@ =~= ".meta"@ + ".json"@);
    path::endings_come_off(tag, ".meta"@, ".json"@);
    path::suffixes_come_off(tag, ".json"@);
}

proof fn lemma_docker_key(repo: Seq<char>, file: Seq<char>)
    requires
        !text::has(repo + "/"@, "/manifests/"@),
    ensures
        text::without_prefix("docker/"@ + repo + "/manifests/"@ + file, "docker/"@) == Some(
            repo + "/manifests/"@ + file,
        ),
        text::halves(repo + "/manifests/"@ + file, "/manifests/"@) == Some((repo, file)),
{
    reveal_strlit("/manifests/");
    let rest = repo + "/manifests/"@ + file;
    assert("docker/"@ + repo + "/manifests/"@ + file =~= "docker/"@ + rest);
    path::prefixes_come_off("docker/"@, rest);
    path::directories_come_apart(repo, "/manifests/"@, file);
}

/// Nothing else is a Docker version: what is one lies under `manifests` of a
/// repository, ends in `.json` and not in `.meta.json`.
pub proof fn docker_versions_are_manifests(key: Seq<char>)
    ensures
        collect::place(Registry::Docker, key) matches Some(p) ==> exists|
            repo: Seq<char>,
            file: Seq<char>,
        |
            key == #[trigger] ("docker/"@ + repo + "/manifests/"@ + file) && p.group == "docker:"@
                + repo && text::ends_ci(file, ".json"@) && !text::ends_ci(file, ".meta.json"@) && (
            file == p.version + ".json"@ || file == p.version),
{
    if let Some(p) = collect::place(Registry::Docker, key) {
        let rest = text::without_prefix(key, "docker/"@)->0;
        path::prefixed_texts_are_put_together(key, "docker/"@);
        path::halves_stand_around_the_first(rest, "/manifests/"@);
        let (repo, file) = text::halves(rest, "/manifests/"@)->0;
        path::suffixed_texts_are_put_together(file, ".json"@);
        assert("docker/"@ + (repo + "/manifests/"@ + file) =~= "docker/"@ + repo + "/manifests/"@
            + file);
    }
}

/// An npm tarball belongs to its package, scoped or not, under its file name.
/// Its checksum does not.
pub proof fn npm_tarballs_belong_to_their_package(package: Seq<char>, file: Seq<char>)
    requires
        package.len() > 0,
        !text::has(package + "/"@, "/tarballs/"@),
        !file.contains('/'),
        !text::ends_ci("npm/"@ + package + "/tarballs/"@ + file, "/metadata.json"@),
    ensures
        !text::ends_ci(file, ".sha256"@) ==> collect::place(
            Registry::Npm,
            "npm/"@ + package + "/tarballs/"@ + file,
        ) == Some(Place { group: "npm:"@ + package, version: file }),
        text::ends_ci(file, ".sha256"@) ==> collect::place(
            Registry::Npm,
            "npm/"@ + package + "/tarballs/"@ + file,
        ) is None,
{
    reveal_strlit("/tarballs/");
    reveal_strlit("/tarballs");
    reveal_strlit(".sha256");
    let rest = package + "/tarballs/"@ + file;
    let key = "npm/"@ + package + "/tarballs/"@ + file;
    let dir = "npm/"@ + package + "/tarballs"@;
    assert(key =~= "npm/"@ + rest);
    path::prefixes_come_off("npm/"@, rest);
    path::directories_come_apart(package, "/tarballs/"@, file);
    assert(key =~= dir.push('/') + file);
    path::last_segments_come_off(dir, '/', file);
    assert(!".sha256"@.contains('/'));
    path::endings_lie_in_the_file_name(dir, file, ".sha256"@);
}

/// Nothing else is an npm version: what is one lies under `tarballs` of a
/// package, and is neither a checksum nor metadata.
pub proof fn npm_versions_are_tarballs(key: Seq<char>)
    ensures
        collect::place(Registry::Npm, key) matches Some(p) ==> exists|
            package: Seq<char>,
            rest: Seq<char>,
        |
            key == #[trigger] ("npm/"@ + package + "/tarballs/"@ + rest) && package.len() > 0
                && p.group == "npm:"@ + package && p.version == text::tail_after(key, '/')
                && !text::ends_ci(key, ".sha256"@) && !text::ends_ci(key, "/metadata.json"@),
{
    if let Some(p) = collect::place(Registry::Npm, key) {
        let rest = text::without_prefix(key, "npm/"@)->0;
        path::prefixed_texts_are_put_together(key, "npm/"@);
        path::halves_stand_around_the_first(rest, "/tarballs/"@);
        let (package, file) = text::halves(rest, "/tarballs/"@)->0;
        assert("npm/"@ + (package + "/tarballs/"@ + file) =~= "npm/"@ + package + "/tarballs/"@
            + file);
    }
}

/// A file under a PyPI package belongs to it under its file name, unless it is a
/// checksum of one of the four kinds or the metadata.
pub proof fn pypi_files_belong_to_their_package(package: Seq<char>, file: Seq<char>)
    requires
        package.len() > 0,
        !package.contains('/'),
        !file.contains('/'),
    ensures
        collect::place(Registry::Pypi, "pypi/"@ + package + "/"@ + file) == (if text::ends_ci(
            file,
            ".md5"@,
        ) || text::ends_ci(file, ".sha1"@) || text::ends_ci(file, ".sha256"@) || text::ends_ci(
            file,
            ".sha512"@,
        ) || path::same_letters(file, "metadata.json"@) {
            None
        } else {
            Some(Place { group: "pypi:"@ + package, version: file })
        }),
{
    reveal_strlit("/");
    let rest = package + "/"@ + file;
    let key = "pypi/"@ + package + "/"@ + file;
    let dir = "pypi/"@ + package;
    assert(key =~= "pypi/"@ + rest);
    path::prefixes_come_off("pypi/"@, rest);
    lemma_slash_pieces(package, file);
    path::lemma_single_piece(package, '/');
    assert(key =~= dir.push('/') + file);
    path::last_segments_come_off(dir, '/', file);
    lemma_checksum_names(dir, file);
    lemma_metadata_name(dir, file);
}

/// A key is a checksum exactly where its file name ends as one.
proof fn lemma_checksum_names(dir: Seq<char>, file: Seq<char>)
    requires
        !file.contains('/'),
    ensures
        collect::is_checksum(dir.push('/') + file) <==> text::ends_ci(file, ".md5"@)
            || text::ends_ci(file, ".sha1"@) || text::ends_ci(file, ".sha256"@) || text::ends_ci(
            file,
            ".sha512"@,
        ),
{
    reveal_strlit(".md5");
    reveal_strlit(".sha1");
    reveal_strlit(".sha256");
    reveal_strlit(".sha512");
    path::endings_lie_in_the_file_name(dir, file, ".md5"@);
    path::endings_lie_in_the_file_name(dir, file, ".sha1"@);
    path::endings_lie_in_the_file_name(dir, file, ".sha256"@);
    path::endings_lie_in_the_file_name(dir, file, ".sha512"@);
}

/// A key ends in `/metadata.json` exactly where its file name is that.
proof fn lemma_metadata_name(dir: Seq<char>, file: Seq<char>)
    requires
        !file.contains('/'),
    ensures
        text::ends_ci(dir.push('/') + file, "/metadata.json"@) <==> path::same_letters(
            file,
            "metadata.json"@,
        ),
{
    reveal_strlit("/metadata.json");
    reveal_strlit("metadata.json");
    let key = dir.push('/') + file;
    let m = "/metadata.json"@;
    if text::ends_ci(key, m) {
        if file.len() > 13 {
            let i = file.len() - 14;
            assert(text::lower(m[0]) == text::lower(key[key.len() - 14]));
            path::capitals_go_to_small_letters(file[i]);
            assert(file[i] == '/');
        } else if file.len() < 13 {
            let i = 13 - file.len();
            assert(text::lower(m[i]) == text::lower(key[key.len() - 14 + i]));
            assert(key[key.len() - 14 + i] == '/');
        }
        let e = seq!['/'] + file;
        assert(key =~= dir + e);
        path::endings_ignore_case(dir, e, m);
        assert forall|i: int| 0 <= i < 13 implies #[trigger] file[i] == "metadata.json"@[i] || (65
            <= file[i] as u32 <= 90 && "metadata.json"@[i] as u32 == file[i] as u32 + 32) || (65
            <= "metadata.json"@[i] as u32 <= 90 && file[i] as u32 == "metadata.json"@[i] as u32
            + 32) by {
            assert(e[i + 1] == file[i]);
            assert(m[i + 1] == "metadata.json"@[i]);
        }
    }
    if path::same_letters(file, "metadata.json"@) {
        let e = seq!['/'] + file;
        assert(key =~= dir + e);
        assert forall|i: int| 0 <= i < 14 implies #[trigger] e[i] == m[i] || (65 <= e[i] as u32
            <= 90 && m[i] as u32 == e[i] as u32 + 32) || (65 <= m[i] as u32 <= 90 && e[i] as u32
            == m[i] as u32 + 32) by {
            if i > 0 {
                assert(e[i] == file[i - 1]);
                assert(m[i] == "metadata.json"@[i - 1]);
            }
        }
        path::endings_ignore_case(dir, e, m);
    }
}

/// Nothing outside a package is a PyPI version.
pub proof fn pypi_versions_lie_under_a_package(key: Seq<char>)
    ensures
        collect::place(Registry::Pypi, key) matches Some(p) ==> exists|rest: Seq<char>|
            key == #[trigger] ("pypi/"@ + rest) && p.group == "pypi:"@ + text::pieces(rest, '/')[0]
                && text::pieces(rest, '/')[0].len() > 0 && p.version == text::tail_after(key, '/'),
{
    if let Some(p) = collect::place(Registry::Pypi, key) {
        path::prefixed_texts_are_put_together(key, "pypi/"@);
        let rest = text::without_prefix(key, "pypi/"@)->0;
        assert(key == "pypi/"@ + rest);
    }
}

/// A file under a version of a Cargo crate belongs to that version. The index
/// and its entries are no crates, and `metadata.json` is no version.
pub proof fn cargo_files_belong_to_their_crate(
    name: Seq<char>,
    version: Seq<char>,
    rest: Seq<char>,
)
    requires
        !name.contains('/'),
        !version.contains('/'),
    ensures
        collect::place(Registry::Cargo, "cargo/"@ + name + "/"@ + version + "/"@ + rest) == (
        if name == "index"@ || name == "index-entries"@ || version == "metadata.json"@ {
            None
        } else {
            Some(Place { group: "cargo:"@ + name, version })
        }),
{
    let path_in = name + "/"@ + version + "/"@ + rest;
    lemma_regroup("cargo/"@, name, version, rest, rest);
    path::prefixes_come_off("cargo/"@, path_in);
    lemma_front_pieces(name, version, rest);
    reveal_strlit("index/");
    reveal_strlit("index");
    reveal_strlit("index-entries/");
    reveal_strlit("index-entries");
    lemma_first_directory("index"@, name, version + "/"@ + rest);
    lemma_first_directory("index-entries"@, name, version + "/"@ + rest);
    assert("index/"@ =~= "index"@.push('/'));
    assert("index-entries/"@ =~= "index-entries"@.push('/'));
    reveal_strlit("/");
    assert(path_in =~= name.push('/') + (version + "/"@ + rest));
}

/// A path starts with a directory exactly where its first segment is that.
pub proof fn lemma_first_directory(dir: Seq<char>, name: Seq<char>, rest: Seq<char>)
    requires
        !dir.contains('/'),
        !name.contains('/'),
    ensures
        dir.push('/').is_prefix_of(name.push('/') + rest) <==> name == dir,
{
    let s = name.push('/') + rest;
    let d = dir.push('/');
    if d.is_prefix_of(s) {
        assert(forall|i: int| 0 <= i < d.len() ==> d[i] == #[trigger] s.subrange(
            0,
            d.len() as int,
        )[i]);
        if name.len() < dir.len() {
            assert(s[name.len() as int] == '/');
            assert(s.subrange(0, d.len() as int)[name.len() as int] == '/');
            assert(dir[name.len() as int] == '/');
        }
        if name.len() > dir.len() {
            assert(s.subrange(0, d.len() as int)[dir.len() as int] == d[dir.len() as int]);
            assert(name[dir.len() as int] == '/');
        }
        assert forall|i: int| 0 <= i < dir.len() implies dir[i] == name[i] by {
            assert(s.subrange(0, d.len() as int)[i] == d[i]);
        }
        assert(name =~= dir);
    }
    if name == dir {
        assert(s.subrange(0, d.len() as int) =~= d);
    }
}

/// Nothing else is a Cargo version: what is one lies under a crate and a
/// version.
pub proof fn cargo_versions_lie_under_a_crate(key: Seq<char>)
    ensures
        collect::place(Registry::Cargo, key) matches Some(p) ==> exists|
            name: Seq<char>,
            rest: Seq<char>,
        |
            key == #[trigger] ("cargo/"@ + name + "/"@ + p.version + "/"@ + rest) && p.group
                == "cargo:"@ + name && !name.contains('/') && !p.version.contains('/'),
{
    if let Some(p) = collect::place(Registry::Cargo, key) {
        path::prefixed_texts_are_put_together(key, "cargo/"@);
        let inner = text::without_prefix(key, "cargo/"@)->0;
        let parts = text::pieces(inner, '/');
        let name = parts[0];
        let rest = lemma_two_segments(inner);
        lemma_regroup("cargo/"@, name, parts[1], rest, rest);
        assert(key == "cargo/"@ + name + "/"@ + p.version + "/"@ + rest);
    }
}

/// A path of three or more segments is its first two and the rest.
proof fn lemma_two_segments(s: Seq<char>) -> (rest: Seq<char>)
    requires
        text::pieces(s, '/').len() >= 3,
    ensures
        s == text::pieces(s, '/')[0] + "/"@ + text::pieces(s, '/')[1] + "/"@ + rest,
        !text::pieces(s, '/')[0].contains('/'),
        !text::pieces(s, '/')[1].contains('/'),
{
    path::pieces_join_again(s, '/');
    lemma_slash();
    let parts = text::pieces(s, '/');
    assert(!parts[0].contains('/') && !parts[1].contains('/'));
    lemma_joined_front(parts)
}

proof fn lemma_joined_front(parts: Seq<Seq<char>>) -> (rest: Seq<char>)
    requires
        parts.len() >= 3,
    ensures
        text::joined(parts, "/"@) == parts[0] + "/"@ + parts[1] + "/"@ + rest,
    decreases parts.len(),
{
    let front = parts.drop_last();
    if parts.len() == 3 {
        assert(front.drop_last()[0] == parts[0]);
        assert(text::joined(front, "/"@) == text::joined(front.drop_last(), "/"@) + "/"@
            + front.last());
        assert(text::joined(front.drop_last(), "/"@) == parts[0]);
        parts[2]
    } else {
        let r = lemma_joined_front(front);
        let head = parts[0] + "/"@ + parts[1] + "/"@;
        assert((head + r) + "/"@ + parts.last() =~= head + (r + "/"@ + parts.last()));
        r + "/"@ + parts.last()
    }
}

/// A file of a Go version belongs to its module under that version, be it
/// `.info`, `.mod` or `.zip`.
pub proof fn go_files_belong_to_their_module(module: Seq<char>, version: Seq<char>)
    requires
        !text::has("go/"@ + module + "/"@, "/@v/"@),
    ensures
        collect::place(Registry::Go, "go/"@ + module + "/@v/"@ + version + ".info"@) == Some(
            Place { group: "go:"@ + module, version },
        ),
        collect::place(Registry::Go, "go/"@ + module + "/@v/"@ + version + ".mod"@) == Some(
            Place { group: "go:"@ + module, version },
        ),
        collect::place(Registry::Go, "go/"@ + module + "/@v/"@ + version + ".zip"@) == Some(
            Place { group: "go:"@ + module, version },
        ),
{
    reveal_strlit("go/");
    lemma_go_key(module, version, ".info"@);
    lemma_go_key(module, version, ".mod"@);
    lemma_go_key(module, version, ".zip"@);
    lemma_go_suffixes(version);
    let head = "go/"@ + module;
    assert(head.subrange(3, head.len() as int) =~= module);
}

proof fn lemma_go_key(module: Seq<char>, version: Seq<char>, suffix: Seq<char>)
    requires
        !text::has("go/"@ + module + "/"@, "/@v/"@),
    ensures
        text::halves("go/"@ + module + "/@v/"@ + version + suffix, "/@v/"@) == Some(
            ("go/"@ + module, version + suffix),
        ),
{
    reveal_strlit("/@v/");
    path::directories_come_apart("go/"@ + module, "/@v/"@, version + suffix);
    assert("go/"@ + module + "/@v/"@ + (version + suffix) =~= "go/"@ + module + "/@v/"@ + version
        + suffix);
}

/// The name of a Go file without its ending is its version.
pub proof fn lemma_go_suffixes(version: Seq<char>)
    ensures
        collect::go_version(version + ".info"@) == Some(version),
        collect::go_version(version + ".mod"@) == Some(version),
        collect::go_version(version + ".zip"@) == Some(version),
{
    reveal_strlit(".info");
    reveal_strlit(".mod");
    reveal_strlit(".zip");
    path::suffixes_come_off(version, ".info"@);
    path::suffixes_come_off(version, ".mod"@);
    path::suffixes_come_off(version, ".zip"@);
    path::other_suffixes_stay(version, ".mod"@, ".info"@);
    path::other_suffixes_stay(version, ".zip"@, ".info"@);
    path::other_suffixes_stay(version, ".zip"@, ".mod"@);
}

/// Nothing else is a file of a Go version.
pub proof fn go_versions_have_three_files(key: Seq<char>)
    ensures
        collect::place(Registry::Go, key) matches Some(p) ==> exists|a: Seq<char>, e: Seq<char>|
            key == #[trigger] (a + "/@v/"@ + (p.version + e)) && (e == ".info"@ || e == ".mod"@ || e
                == ".zip"@),
{
    if let Some(p) = collect::place(Registry::Go, key) {
        path::halves_stand_around_the_first(key, "/@v/"@);
        let (a, file) = text::halves(key, "/@v/"@)->0;
        path::suffixed_texts_are_put_together(file, ".info"@);
        path::suffixed_texts_are_put_together(file, ".mod"@);
        path::suffixed_texts_are_put_together(file, ".zip"@);
        if text::without_suffix(file, ".info"@) is Some {
            assert(key == a + "/@v/"@ + (p.version + ".info"@));
        } else if text::without_suffix(file, ".mod"@) is Some {
            assert(key == a + "/@v/"@ + (p.version + ".mod"@));
        } else {
            assert(key == a + "/@v/"@ + (p.version + ".zip"@));
        }
    }
}

/// A raw file belongs to its top directory under the directory below it, or
/// under its own name where it lies directly there.
pub proof fn raw_files_belong_to_their_directory(
    top: Seq<char>,
    version: Seq<char>,
    rest: Seq<char>,
)
    requires
        !top.contains('/'),
        !version.contains('/'),
    ensures
        collect::place(Registry::Raw, "raw/"@ + top + "/"@ + version + "/"@ + rest) == Some(
            Place { group: "raw:"@ + top, version },
        ),
        collect::place(Registry::Raw, "raw/"@ + top + "/"@ + version) == Some(
            Place { group: "raw:"@ + top, version },
        ),
        collect::place(Registry::Raw, "raw/"@ + top) is None,
{
    lemma_regroup("raw/"@, top, version, rest, rest);
    path::prefixes_come_off("raw/"@, top + "/"@ + version + "/"@ + rest);
    path::prefixes_come_off("raw/"@, top + "/"@ + version);
    path::prefixes_come_off("raw/"@, top);
    lemma_front_pieces(top, version, rest);
}

/// Keys outside the registry's own directory belong nowhere in it.
pub proof fn foreign_keys_belong_nowhere(key: Seq<char>)
    ensures
        !"maven/"@.is_prefix_of(key) ==> collect::place(Registry::Maven, key) is None,
        !"docker/"@.is_prefix_of(key) ==> collect::place(Registry::Docker, key) is None,
        !"npm/"@.is_prefix_of(key) ==> collect::place(Registry::Npm, key) is None,
        !"pypi/"@.is_prefix_of(key) ==> collect::place(Registry::Pypi, key) is None,
        !"cargo/"@.is_prefix_of(key) ==> collect::place(Registry::Cargo, key) is None,
        !"raw/"@.is_prefix_of(key) ==> collect::place(Registry::Raw, key) is None,
{
}

proof fn lemma_key_has_row(registry: Registry, keys: Seq<Seq<char>>, i: int) -> (r: int)
    requires
        0 <= i < keys.len(),
        collect::place(registry, keys[i]) is Some,
    ensures
        0 <= r < collect::rows(registry, keys).len(),
        collect::rows(registry, keys)[r].key == keys[i],
        collect::rows(registry, keys)[r].group == collect::place(registry, keys[i])->0.group,
        collect::rows(registry, keys)[r].version == collect::place(registry, keys[i])->0.version,
    decreases keys.len(),
{
    let front = keys.drop_last();
    let before = collect::rows(registry, front);
    let all = collect::rows(registry, keys);
    if i < front.len() {
        assert(front[i] == keys[i]);
        let r = lemma_key_has_row(registry, front, i);
        assert(all[r] == before[r]);
        r
    } else {
        before.len() as int
    }
}

proof fn lemma_row_is_collected(
    registry: Registry,
    keys: Seq<Seq<char>>,
    stats: Map<Seq<char>, FileMeta>,
    r: int,
) -> (res: (int, int))
    requires
        0 <= r < collect::rows(registry, keys).len(),
    ensures
        ({
            let groups = collect::collected(registry, keys, stats);
            let all = collect::rows(registry, keys);
            let mine = grouping::with_name(all, collect::group_column(all), all[r].group);
            let (g, k) = res;
            &&& 0 <= g < groups.len()
            &&& groups[g].0 == all[r].group
            &&& groups[g].1 == collect::versions_in(registry, mine, stats)
            &&& 0 <= k < mine.len()
            &&& mine[k] == all[r]
        }),
{
    let groups = collect::collected(registry, keys, stats);
    let all = collect::rows(registry, keys);
    let column = collect::group_column(all);
    let group = all[r].group;
    grouping::lemma_distinct(column);
    grouping::lemma_places(column, group);
    assert(column[r] == group);
    assert(column.contains(group));
    let names = grouping::distinct(column);
    assert(names.contains(group));
    let g = choose|g: int| 0 <= g < names.len() && names[g] == group;
    let at = grouping::places(column, group);
    assert(at.contains(r));
    let k = choose|k: int| 0 <= k < at.len() && at[k] == r;
    (g, k)
}

/// The collection misses no key: each that belongs somewhere is among the keys
/// of the version of that name in that group.
pub proof fn every_key_is_collected(
    registry: Registry,
    keys: Seq<Seq<char>>,
    stats: Map<Seq<char>, FileMeta>,
    key: Seq<char>,
    p: Place,
)
    requires
        keys.contains(key),
        collect::place(registry, key) == Some(p),
    ensures
        exists|g: int, v: int|
            0 <= g < collect::collected(registry, keys, stats).len() && collect::collected(
                registry,
                keys,
                stats,
            )[g].0 == p.group && 0 <= v < collect::collected(registry, keys, stats)[g].1.len() && (
            #[trigger] collect::collected(registry, keys, stats)[g].1[v]).name == p.version
                && collect::collected(registry, keys, stats)[g].1[v].keys.contains(key),
{
    let i = choose|i: int| 0 <= i < keys.len() && keys[i] == key;
    let r = lemma_key_has_row(registry, keys, i);
    let groups = collect::collected(registry, keys, stats);
    let all = collect::rows(registry, keys);
    let mine = grouping::with_name(all, collect::group_column(all), all[r].group);
    let (g, k) = lemma_row_is_collected(registry, keys, stats, r);
    if collect::merges(registry) {
        let names = collect::version_names(mine);
        grouping::lemma_distinct(names);
        assert(names[k] == p.version);
        assert(names.contains(p.version));
        let ds = grouping::distinct(names);
        assert(ds.contains(p.version));
        let v = choose|v: int| 0 <= v < ds.len() && ds[v] == p.version;
        grouping::lemma_places(names, p.version);
        let at = grouping::places(names, p.version);
        assert(at.contains(k));
        let j = choose|j: int| 0 <= j < at.len() && at[j] == k;
        let version = groups[g].1[v];
        assert(version.name == p.version);
        assert(version.keys[j] == collect::key_column(mine)[k]);
        assert(version.keys[j] == key);
    } else {
        let version = groups[g].1[k];
        assert(version == collect::single_version(registry, mine[k], stats));
        assert(version.keys[0] == key);
    }
}

/// Every listed file of a Maven version, but for metadata, is among the keys of
/// a collected version of its artifact.
pub proof fn every_maven_file_is_collected(
    keys: Seq<Seq<char>>,
    stats: Map<Seq<char>, FileMeta>,
    g: Seq<char>,
    a: Seq<char>,
    v: Seq<char>,
    f: Seq<char>,
)
    requires
        keys.contains("maven/"@ + g + "/"@ + a + "/"@ + v + "/"@ + f),
        !a.contains('/'),
        !v.contains('/'),
        !f.contains('/'),
        !"maven-metadata"@.is_prefix_of(f),
    ensures
        exists|i: int, j: int|
            0 <= i < collect::collected(Registry::Maven, keys, stats).len() && collect::collected(
                Registry::Maven,
                keys,
                stats,
            )[i].0 == "maven:"@ + g + "/"@ + a && 0 <= j < collect::collected(
                Registry::Maven,
                keys,
                stats,
            )[i].1.len() && (#[trigger] collect::collected(Registry::Maven, keys, stats)[i].1[j]).name
                == v && collect::collected(Registry::Maven, keys, stats)[i].1[j].keys.contains(
                "maven/"@ + g + "/"@ + a + "/"@ + v + "/"@ + f,
            ),
{
    maven_files_belong_to_their_artifact(g, a, v, f);
    every_key_is_collected(
        Registry::Maven,
        keys,
        stats,
        "maven/"@ + g + "/"@ + a + "/"@ + v + "/"@ + f,
        Place { group: "maven:"@ + g + "/"@ + a, version: v },
    );
}

/// Nothing is collected that is not there: a version holds listed keys that
/// belong to it, and beside the key of an npm or PyPI file at most its
/// checksum, where that is there.
pub proof fn versions_hold_only_their_keys(
    registry: Registry,
    keys: Seq<Seq<char>>,
    stats: Map<Seq<char>, FileMeta>,
    g: int,
    v: int,
    key: Seq<char>,
)
    requires
        0 <= g < collect::collected(registry, keys, stats).len(),
        0 <= v < collect::collected(registry, keys, stats)[g].1.len(),
        collect::collected(registry, keys, stats)[g].1[v].keys.contains(key),
    ensures
        ({
            let group = collect::collected(registry, keys, stats)[g].0;
            let name = collect::collected(registry, keys, stats)[g].1[v].name;
            ||| keys.contains(key) && collect::place(registry, key) == Some(
                Place { group, version: name },
            )
            ||| (registry == Registry::Npm || registry == Registry::Pypi) && stats.contains_key(key)
                && exists|base: Seq<char>|
                key == #[trigger] (base + ".sha256"@) && keys.contains(base) && collect::place(
                    registry,
                    base,
                ) == Some(Place { group, version: name })
        }),
{
    let all = collect::rows(registry, keys);
    let column = collect::group_column(all);
    let group = grouping::distinct(column)[g];
    let mine = grouping::with_name(all, column, group);
    let version = collect::collected(registry, keys, stats)[g].1[v];
    let k = choose|k: int| 0 <= k < version.keys.len() && version.keys[k] == key;
    if collect::merges(registry) {
        collect::merged_versions_hold_their_keys(registry, keys, stats, g, v, k);
    } else {
        assert(version == collect::single_version(registry, mine[v], stats));
        collect::lemma_rows(registry, keys);
        grouping::lemma_places(column, group);
        let at = grouping::places(column, group)[v];
        assert(mine[v] == all[at]);
        assert(column[at] == group);
        if k == 1 {
            assert(key == mine[v].key + ".sha256"@);
        }
    }
}

/// In Maven, Cargo, Go and the raw registry the keys of one place make up one
/// version; a Docker tag is its one key; an npm or PyPI file takes its checksum
/// along where that is there.
pub proof fn versions_are_made_of_whole_places(
    registry: Registry,
    keys: Seq<Seq<char>>,
    stats: Map<Seq<char>, FileMeta>,
    g: int,
    v: int,
    key: Seq<char>,
)
    requires
        0 <= g < collect::collected(registry, keys, stats).len(),
        0 <= v < collect::collected(registry, keys, stats)[g].1.len(),
        keys.contains(key),
        collect::place(registry, key) == Some(
            Place {
                group: collect::collected(registry, keys, stats)[g].0,
                version: collect::collected(registry, keys, stats)[g].1[v].name,
            },
        ),
    ensures
        registry == Registry::Maven || registry == Registry::Cargo || registry == Registry::Go
            || registry == Registry::Raw ==> collect::collected(
            registry,
            keys,
            stats,
        )[g].1[v].keys.contains(key),
        registry == Registry::Docker ==> collect::collected(registry, keys, stats)[g].1[v].keys.len()
            == 1,
        registry == Registry::Npm || registry == Registry::Pypi ==> ({
            let made = collect::collected(registry, keys, stats)[g].1[v].keys;
            made.len() > 0 && (stats.contains_key(made[0] + ".sha256"@) ==> made == seq![
                made[0],
                made[0] + ".sha256"@,
            ]) && (!stats.contains_key(made[0] + ".sha256"@) ==> made.len() == 1)
        }),
{
    let all = collect::rows(registry, keys);
    let column = collect::group_column(all);
    let groups = collect::collected(registry, keys, stats);
    let group = grouping::distinct(column)[g];
    let mine = grouping::with_name(all, column, group);
    if collect::merges(registry) {
        let i = choose|i: int| 0 <= i < keys.len() && keys[i] == key;
        let r = lemma_key_has_row(registry, keys, i);
        let (h, k) = lemma_row_is_collected(registry, keys, stats, r);
        let names = collect::version_names(mine);
        let name = grouping::distinct(names)[v];
        assert(mine[k] == all[r]);
        assert(names[k] == name);
        grouping::lemma_places(names, name);
        let at = grouping::places(names, name);
        assert(at.contains(k));
        let j = choose|j: int| 0 <= j < at.len() && at[j] == k;
        assert(groups[g].1[v].keys[j] == collect::key_column(mine)[k]);
    } else {
        assert(groups[g].1[v] == collect::single_version(registry, mine[v], stats));
    }
}

/// The latest modification is that of one of the keys and not before that of
/// any; it is zero where none could be read.
pub proof fn the_latest_is_the_youngest(keys: Seq<Seq<char>>, stats: Map<Seq<char>, FileMeta>)
    ensures
        forall|i: int|
            0 <= i < keys.len() && stats.contains_key(#[trigger] keys[i]) ==> collect::latest(
                keys,
                stats,
            ) >= stats[keys[i]].modified,
        collect::latest(keys, stats) == 0 || exists|i: int|
            0 <= i < keys.len() && stats.contains_key(#[trigger] keys[i]) && stats[keys[i]].modified
                == collect::latest(keys, stats),
    decreases keys.len(),
{
    if keys.len() > 0 {
        let front = keys.drop_last();
        the_latest_is_the_youngest(front, stats);
        assert(forall|i: int| 0 <= i < front.len() ==> front[i] == #[trigger] keys[i]);
        assert(keys[keys.len() - 1] == keys.last());
        if collect::latest(keys, stats) == collect::latest(front, stats) && collect::latest(
            front,
            stats,
        ) != 0 {
            let i = choose|i: int|
                0 <= i < front.len() && stats.contains_key(#[trigger] front[i])
                    && stats[front[i]].modified == collect::latest(front, stats);
            assert(stats[keys[i]].modified == collect::latest(keys, stats));
        }
    }
}

/// A key adds its size where it could be read, and nothing where not.
pub proof fn sizes_add_up(
    keys: Seq<Seq<char>>,
    stats: Map<Seq<char>, FileMeta>,
    key: Seq<char>,
)
    ensures
        collect::total_size(Seq::empty(), stats) == 0,
        stats.contains_key(key) ==> collect::total_size(keys.push(key), stats)
            == collect::total_size(keys, stats) + stats[key].size,
        !stats.contains_key(key) ==> collect::total_size(keys.push(key), stats)
            == collect::total_size(keys, stats),
{
    assert(keys.push(key).drop_last() =~= keys);
}

/// Different names are kept where they first appear.
pub proof fn names_stand_where_they_first_appear(names: Seq<Seq<char>>, name: Seq<char>)
    ensures
        names.contains(name) ==> grouping::distinct(names.push(name)) == grouping::distinct(names),
        !names.contains(name) ==> grouping::distinct(names.push(name)) == grouping::distinct(
            names,
        ).push(name),
{
    assert(names.push(name).drop_last() =~= names);
    grouping::lemma_distinct(names);
}

/// The versions of a registry can be had exactly where the size of each fits in
/// 64 bits.
pub proof fn sizes_fit_version_by_version(
    registry: Registry,
    keys: Seq<Seq<char>>,
    stats: Map<Seq<char>, FileMeta>,
)
    ensures
        collect::sizes_ok(registry, keys, stats) <==> forall|g: int, v: int|
            0 <= g < collect::collected(registry, keys, stats).len() && 0 <= v
                < collect::collected(registry, keys, stats)[g].1.len() ==> collect::total_size(
                (#[trigger] collect::collected(registry, keys, stats)[g].1[v]).keys,
                stats,
            ) <= 0xffff_ffff_ffff_ffff,
{
    let groups = collect::collected(registry, keys, stats);
    let all = collect::rows(registry, keys);
    let column = collect::group_column(all);
    let ds = grouping::distinct(column);
    assert forall|g: int| 0 <= g < groups.len() implies collect::group_fits(
        registry,
        grouping::with_name(all, column, #[trigger] ds[g]),
        stats,
    ) <==> (forall|v: int|
        0 <= v < groups[g].1.len() ==> collect::total_size((#[trigger] groups[g].1[v]).keys, stats)
            <= 0xffff_ffff_ffff_ffff) by {
        let mine = grouping::with_name(all, column, ds[g]);
        if collect::merges(registry) {
            let names = collect::version_names(mine);
            let vs = grouping::distinct(names);
            assert forall|v: int| 0 <= v < vs.len() implies (#[trigger] groups[g].1[v]).keys
                == grouping::with_name(collect::key_column(mine), names, vs[v]) by {}
            if collect::group_fits(registry, mine, stats) {
                assert forall|v: int| 0 <= v < groups[g].1.len() implies collect::total_size(
                    (#[trigger] groups[g].1[v]).keys,
                    stats,
                ) <= 0xffff_ffff_ffff_ffff by {
                    assert(vs[v] == vs[v]);
                }
            }
            if forall|v: int|
                0 <= v < groups[g].1.len() ==> collect::total_size(
                    (#[trigger] groups[g].1[v]).keys,
                    stats,
                ) <= 0xffff_ffff_ffff_ffff {
                assert forall|v: int| 0 <= v < vs.len() implies collect::total_size(
                    grouping::with_name(collect::key_column(mine), names, #[trigger] vs[v]),
                    stats,
                ) <= u64::MAX by {
                    assert(groups[g].1[v].keys == groups[g].1[v].keys);
                }
            }
        } else {
            assert forall|v: int| 0 <= v < mine.len() implies (#[trigger] groups[g].1[v]).keys
                == collect::keys_of_single(registry, mine[v].key, stats) by {}
            if collect::group_fits(registry, mine, stats) {
                assert forall|v: int| 0 <= v < groups[g].1.len() implies collect::total_size(
                    (#[trigger] groups[g].1[v]).keys,
                    stats,
                ) <= 0xffff_ffff_ffff_ffff by {
                    assert(mine[v].key == mine[v].key);
                }
            }
            if forall|v: int|
                0 <= v < groups[g].1.len() ==> collect::total_size(
                    (#[trigger] groups[g].1[v]).keys,
                    stats,
                ) <= 0xffff_ffff_ffff_ffff {
                assert forall|v: int| 0 <= v < mine.len() implies collect::total_size(
                    collect::keys_of_single(registry, (#[trigger] mine[v]).key, stats),
                    stats,
                ) <= u64::MAX by {
                    assert(groups[g].1[v].keys == groups[g].1[v].keys);
                }
            }
        }
    }
    if collect::sizes_ok(registry, keys, stats) {
        assert forall|g: int, v: int|
            0 <= g < groups.len() && 0 <= v < groups[g].1.len() implies collect::total_size(
            (#[trigger] groups[g].1[v]).keys,
            stats,
        ) <= 0xffff_ffff_ffff_ffff by {
            assert(ds[g] == ds[g]);
        }
    }
    if forall|g: int, v: int|
        0 <= g < groups.len() && 0 <= v < groups[g].1.len() ==> collect::total_size(
            (#[trigger] groups[g].1[v]).keys,
            stats,
        ) <= 0xffff_ffff_ffff_ffff {
        assert forall|g: int| 0 <= g < ds.len() implies collect::group_fits(
            registry,
            grouping::with_name(all, column, #[trigger] ds[g]),
            stats,
        ) by {
            assert forall|v: int| 0 <= v < groups[g].1.len() implies collect::total_size(
                (#[trigger] groups[g].1[v]).keys,
                stats,
            ) <= 0xffff_ffff_ffff_ffff by {}
        }
    }
}

/// A Go key is such as the collection accepts exactly where its version
/// directory, if it has one, starts behind the third character.
pub proof fn go_keys_name_a_module(key: Seq<char>)
    ensures
        collect::go_key_ok(key) <==> !text::occurs_at(key, "/@v/"@, 0) && !text::occurs_at(
            key,
            "/@v/"@,
            1,
        ) && !text::occurs_at(key, "/@v/"@, 2),
{
    text::lemma_find_from(key, "/@v/"@, 0);
    if let Some(i) = text::first_of(key, "/@v/"@) {
        assert(text::occurs_at(key, "/@v/"@, i));
    }
}

/// The layout of the Go registry is checked key by key; other registries take
/// any key.
pub proof fn go_layouts_are_checked_key_by_key(registry: Registry, keys: Seq<Seq<char>>)
    ensures
        registry != Registry::Go ==> collect::layout_ok(registry, keys),
        collect::layout_ok(Registry::Go, keys) <==> forall|i: int|
            0 <= i < keys.len() ==> !text::occurs_at(#[trigger] keys[i], "/@v/"@, 0)
                && !text::occurs_at(keys[i], "/@v/"@, 1) && !text::occurs_at(keys[i], "/@v/"@, 2),
{
    assert forall|i: int| 0 <= i < keys.len() implies collect::go_key_ok(#[trigger] keys[i]) == (
    !text::occurs_at(keys[i], "/@v/"@, 0) && !text::occurs_at(keys[i], "/@v/"@, 1)
        && !text::occurs_at(keys[i], "/@v/"@, 2)) by {
        go_keys_name_a_module(keys[i]);
    }
}

/// A manifest whose ending is in other letters than `.json` is a version under
/// its whole name.
pub proof fn tags_with_other_endings_keep_them(repo: Seq<char>, file: Seq<char>)
    requires
        !text::has(repo + "/"@, "/manifests/"@),
        text::ends_ci(file, ".json"@),
        !text::ends_ci(file, ".meta.json"@),
        !".json"@.is_suffix_of(file),
    ensures
        collect::place(Registry::Docker, "docker/"@ + repo + "/manifests/"@ + file) == Some(
            (Place { group: "docker:"@ + repo, version: file }),
        ),
{
    lemma_docker_key(repo, file);
}

} // verus!
