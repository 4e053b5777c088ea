//! Eviction of proxy-cached rpm and deb files by size.
//!
//! A file is proxy-cached where it is no sidecar, no index file, and no sidecar
//! describes it. Once such files take more than the cap, the oldest go until
//! the rest fits.

use vstd::prelude::*;

use crate::order;
use crate::sidecar::{self, Format};
use crate::table::{FileMeta, KeySet};
use crate::text;

verus! {

/// Result of proxy-cache eviction.
#[derive(Debug, Clone, Copy, PartialEq, Eq, Structural)]
pub struct ProxyCacheEviction {
    /// Total proxy-cached bytes before eviction.
    pub total_bytes: u64,
    /// Number of files evicted.
    pub evicted_files: usize,
    /// Bytes freed by eviction.
    pub bytes_freed: u64,
}

impl Default for ProxyCacheEviction {
    fn default() -> (r: ProxyCacheEviction)
        ensures
            r == nothing_evicted(0),
    {
        ProxyCacheEviction { total_bytes: 0, evicted_files: 0, bytes_freed: 0 }
    }
}

/// The result where nothing goes.
pub open spec fn nothing_evicted(total: u64) -> ProxyCacheEviction {
    ProxyCacheEviction { total_bytes: total, evicted_files: 0, bytes_freed: 0 }
}

/// A stored file.
#[derive(Debug)]
pub struct CachedFile {
    pub key: String,
    pub size: u64,
    pub modified: u64,
}

/// What a [`CachedFile`] holds.
pub struct Cached {
    pub key: Seq<char>,
    pub size: u64,
    pub modified: u64,
}

impl View for CachedFile {
    type V = Cached;

    open spec fn view(&self) -> Cached {
        Cached { key: self.key@, size: self.size, modified: self.modified }
    }
}

/// What a list of files holds.
pub open spec fn cached_of(v: Seq<CachedFile>) -> Seq<Cached> {
    v.map_values(|f: CachedFile| f@)
}

/// What a list of files with the outcomes of their deletion holds.
pub open spec fn seen_of(v: Seq<(CachedFile, bool)>) -> Seq<(Cached, bool)> {
    v.map_values(|e: (CachedFile, bool)| (e.0@, e.1))
}

/// The files that are gone: those that were deleted, or, in a dry run, all,
/// which would be.
pub open spec fn gone(seen: Seq<(Cached, bool)>, dry_run: bool) -> Seq<Cached>
    decreases seen.len(),
{
    if seen.len() == 0 {
        Seq::empty()
    } else if dry_run || seen.last().1 {
        gone(seen.drop_last(), dry_run).push(seen.last().0)
    } else {
        gone(seen.drop_last(), dry_run)
    }
}

/// What a listing with metadata holds.
pub open spec fn entries_of(v: Seq<(String, FileMeta)>) -> Seq<(Seq<char>, FileMeta)> {
    v.map_values(|e: (String, FileMeta)| (e.0@, e.1))
}

/// The file name is that of a deb index.
pub open spec fn is_deb_index(name: Seq<char>) -> bool {
    ||| name == "Packages"@
    ||| name == "Packages.gz"@
    ||| name == "Packages.bz2"@
    ||| name == "Packages.xz"@
    ||| name == "Release"@
    ||| name == "Release.gpg"@
    ||| name == "InRelease"@
}

/// The key is an index file.
pub open spec fn is_index(key: Seq<char>) -> bool {
    text::has(key, "/repodata/"@) || is_deb_index(text::tail_after(key, '/'))
}

/// The package files that the sidecars among the entries describe.
pub open spec fn covered(format: Format, entries: Seq<(Seq<char>, FileMeta)>) -> Set<Seq<char>>
    decreases entries.len(),
{
    if entries.len() == 0 {
        Set::empty()
    } else {
        let before = covered(format, entries.drop_last());
        match sidecar::sidecar_target(format, entries.last().0) {
            Some((repo, path)) => before.insert(
                sidecar::format_name(format) + "/"@ + repo + "/"@ + path,
            ),
            None => before,
        }
    }
}

/// The key is that of a proxy-cached file, given what sidecars describe.
pub open spec fn is_proxy_file(key: Seq<char>, hosted: Set<Seq<char>>) -> bool {
    !text::has(key, "/.nora-meta/"@) && !is_index(key) && !hosted.contains(key)
}

/// The proxy-cached files among the entries.
pub open spec fn proxy_files(entries: Seq<(Seq<char>, FileMeta)>, hosted: Set<Seq<char>>) -> Seq<
    Cached,
>
    decreases entries.len(),
{
    if entries.len() == 0 {
        Seq::empty()
    } else {
        let before = proxy_files(entries.drop_last(), hosted);
        let (key, meta) = entries.last();
        if is_proxy_file(key, hosted) {
            before.push(Cached { key, size: meta.size, modified: meta.modified })
        } else {
            before
        }
    }
}

/// The proxy-cached files of both formats.
pub open spec fn all_proxy_files(
    rpm: Seq<(Seq<char>, FileMeta)>,
    deb: Seq<(Seq<char>, FileMeta)>,
) -> Seq<Cached> {
    let hosted_rpm = covered(Format::Rpm, rpm);
    let hosted = hosted_rpm.union(covered(Format::Deb, deb));
    proxy_files(rpm, hosted_rpm) + proxy_files(deb, hosted)
}

/// The size of the files.
pub open spec fn bytes(files: Seq<Cached>) -> nat
    decreases files.len(),
{
    if files.len() == 0 {
        0
    } else {
        bytes(files.drop_last()) + files.last().size as nat
    }
}

/// One file is not younger than the other.
pub open spec fn older() -> spec_fn(Cached, Cached) -> bool {
    |a: Cached, b: Cached| a.modified <= b.modified
}

/// The files with the oldest first.
pub open spec fn oldest_first(files: Seq<Cached>) -> Seq<Cached> {
    order::sorted_by(files, older())
}

/// How many of the first files it takes to free so many bytes.
pub open spec fn victims(sorted: Seq<Cached>, need: int) -> nat
    decreases sorted.len(),
{
    if sorted.len() == 0 || need <= 0 {
        0
    } else {
        1 + victims(sorted.drop_first(), need - sorted[0].size)
    }
}

/// The files that go: none where there is no cap or the files fit, else the
/// oldest until the rest fits.
pub open spec fn evicted(files: Seq<Cached>, max_bytes: u64) -> Seq<Cached> {
    if max_bytes == 0 || bytes(files) <= max_bytes {
        Seq::empty()
    } else {
        oldest_first(files).take(
            victims(oldest_first(files), bytes(files) - max_bytes) as int,
        )
    }
}

/// The key is an index file, which is regenerated and never evicted.
pub fn is_index_file(key: &str) -> (r: bool)
    ensures
        r == is_index(key@),
{
    if text::contains(key, "/repodata/") {
        return true;
    }
    let name = text::last_piece(key, '/');
    text::same(name, "Packages") || text::same(name, "Packages.gz") || text::same(
        name,
        "Packages.bz2",
    ) || text::same(name, "Packages.xz") || text::same(name, "Release") || text::same(
        name,
        "Release.gpg",
    ) || text::same(name, "InRelease")
}

/// Adds the package files that the sidecars among the entries describe.
fn collect_covered(format: Format, entries: &Vec<(String, FileMeta)>, out: &mut KeySet)
    ensures
        final(out)@ == old(out)@.union(covered(format, entries_of(entries@))),
{
    let ghost all = entries_of(entries@);
    let ghost start = out@;
    let mut i: usize = 0;
    proof {
        assert(start.union(covered(format, all.take(0))) =~= start);
    }
    while i < entries.len()
        invariant
            i <= entries@.len(),
            all == entries_of(entries@),
            out@ == start.union(covered(format, all.take(i as int))),
        decreases entries@.len() - i,
    {
        proof {
            assert(all.take(i + 1).drop_last() =~= all.take(i as int));
            assert(all.take(i + 1).last() == (entries@[i as int].0@, entries@[i as int].1));
        }
        if let Some((repo, path)) = sidecar::target_of(format, entries[i].0.as_str()) {
            let mut key = text::concat4(sidecar::format_text(format), "/", repo, "/");
            key.append(path);
            out.insert(key);
            proof {
                assert(out@ =~= start.union(covered(format, all.take(i + 1))));
            }
        }
        i = i + 1;
    }
    proof {
        assert(all.take(i as int) =~= all);
    }
}

/// Puts the proxy-cached files among the entries behind what is there.
fn collect_files(entries: &Vec<(String, FileMeta)>, hosted: &KeySet, out: &mut Vec<CachedFile>)
    ensures
        cached_of(final(out)@) == cached_of(old(out)@) + proxy_files(
            entries_of(entries@),
            hosted@,
        ),
{
    let ghost all = entries_of(entries@);
    let ghost start = cached_of(out@);
    let mut i: usize = 0;
    proof {
        assert(start + proxy_files(all.take(0), hosted@) =~= start);
    }
    while i < entries.len()
        invariant
            i <= entries@.len(),
            all == entries_of(entries@),
            cached_of(out@) == start + proxy_files(all.take(i as int), hosted@),
        decreases entries@.len() - i,
    {
        let ghost before = out@;
        proof {
            assert(all.take(i + 1).drop_last() =~= all.take(i as int));
            assert(all.take(i + 1).last() == (entries@[i as int].0@, entries@[i as int].1));
        }
        let key = entries[i].0.as_str();
        if !text::contains(key, "/.nora-meta/") && !is_index_file(key) && !hosted.contains(key) {
            let file = CachedFile {
                key: entries[i].0.clone(),
                size: entries[i].1.size,
                modified: entries[i].1.modified,
            };
            out.push(file);
            proof {
                let so_far = proxy_files(all.take(i as int), hosted@);
                assert(cached_of(out@) =~= cached_of(before).push(file@));
                assert((start + so_far).push(file@) =~= start + so_far.push(file@));
            }
        }
        i = i + 1;
    }
    proof {
        assert(all.take(i as int) =~= all);
    }
}

proof fn lemma_bytes_grow(files: Seq<Cached>, n: int)
    requires
        0 <= n <= files.len(),
    ensures
        bytes(files.take(n)) <= bytes(files),
    decreases files.len(),
{
    if n == files.len() {
        assert(files.take(n) =~= files);
    } else {
        lemma_bytes_grow(files.drop_last(), n);
        assert(files.drop_last().take(n) =~= files.take(n));
    }
}

/// The size of the files, where it fits.
fn sum_files(files: &Vec<CachedFile>) -> (r: Option<u64>)
    ensures
        match r {
            Some(n) => n == bytes(cached_of(files@)),
            None => bytes(cached_of(files@)) > u64::MAX,
        },
{
    let ghost all = cached_of(files@);
    let mut sum: u64 = 0;
    let mut i: usize = 0;
    while i < files.len()
        invariant
            i <= files@.len(),
            all == cached_of(files@),
            sum == bytes(all.take(i as int)),
        decreases files@.len() - i,
    {
        proof {
            assert(all.take(i + 1).drop_last() =~= all.take(i as int));
            lemma_bytes_grow(all, i + 1);
        }
        match sum.checked_add(files[i].size) {
            Some(s) => {
                sum = s;
            },
            None => {
                return None;
            },
        }
        i = i + 1;
    }
    proof {
        assert(all.take(i as int) =~= all);
    }
    Some(sum)
}

/// By age any two files compare.
pub proof fn lemma_older()
    ensures
        order::is_preorder(older()),
{
}

/// The files from the front, whose sum is also that of the sequence read from
/// the back.
proof fn lemma_bytes_split(files: Seq<Cached>, n: int)
    requires
        0 <= n <= files.len(),
    ensures
        bytes(files) == bytes(files.take(n)) + bytes(files.skip(n)),
    decreases files.len(),
{
    if n == files.len() {
        assert(files.take(n) =~= files);
        assert(files.skip(n) =~= Seq::<Cached>::empty());
    } else {
        lemma_bytes_split(files.drop_last(), n);
        assert(files.drop_last().take(n) =~= files.take(n));
        assert(files.skip(n).drop_last() =~= files.drop_last().skip(n));
    }
}

/// The size does not depend on the order.
pub proof fn lemma_bytes_sorted(files: Seq<Cached>)
    ensures
        bytes(oldest_first(files)) == bytes(files),
        oldest_first(files).len() == files.len(),
    decreases files.len(),
{
    lemma_older();
    if files.len() > 0 {
        lemma_bytes_sorted(files.drop_last());
        lemma_bytes_inserted(oldest_first(files.drop_last()), files.last());
    }
}

proof fn lemma_bytes_inserted(s: Seq<Cached>, x: Cached)
    ensures
        bytes(order::insert_by(s, x, older())) == bytes(s) + x.size,
        order::insert_by(s, x, older()).len() == s.len() + 1,
    decreases s.len(),
{
    if s.len() == 0 || older()(s.last(), x) {
        assert(s.push(x).drop_last() =~= s);
    } else {
        let r = order::insert_by(s.drop_last(), x, older());
        lemma_bytes_inserted(s.drop_last(), x);
        assert(r.push(s.last()).drop_last() =~= r);
    }
}

/// Enough of the files go, and no more than enough.
pub proof fn lemma_victims(sorted: Seq<Cached>, need: int)
    requires
        need <= bytes(sorted),
    ensures
        victims(sorted, need) <= sorted.len(),
        bytes(sorted.take(victims(sorted, need) as int)) >= need,
        need > 0 ==> victims(sorted, need) > 0 && bytes(
            sorted.take(victims(sorted, need) - 1),
        ) < need,
    decreases sorted.len(),
{
    if sorted.len() > 0 && need > 0 {
        let rest = sorted.drop_first();
        let v = victims(rest, need - sorted[0].size) as int;
        lemma_bytes_split(sorted, 1);
        assert(sorted.skip(1) =~= rest);
        assert(sorted.take(1).drop_last() =~= Seq::<Cached>::empty());
        assert(bytes(sorted.take(1)) == sorted[0].size) by {
            assert(bytes(Seq::<Cached>::empty()) == 0);
        }
        lemma_victims(rest, need - sorted[0].size);
        lemma_bytes_split(sorted.take(v + 1), 1);
        assert(sorted.take(v + 1).take(1) =~= sorted.take(1));
        assert(sorted.take(v + 1).skip(1) =~= rest.take(v));
        if v > 0 {
            lemma_bytes_split(sorted.take(v), 1);
            assert(sorted.take(v).take(1) =~= sorted.take(1));
            assert(sorted.take(v).skip(1) =~= rest.take(v - 1));
        } else {
            assert(sorted.take(0) =~= Seq::<Cached>::empty());
        }
    }
}

/// Plans the eviction of proxy-cached files: their size, and those that are to
/// go, oldest first. A cap of zero evicts nothing. There is no plan where the
/// files' size does not fit in 64 bits.
pub fn evict_proxy_cache(
    rpm: &Vec<(String, FileMeta)>,
    deb: &Vec<(String, FileMeta)>,
    max_bytes: u64,
) -> (r: Option<(u64, Vec<CachedFile>)>)
    ensures
        max_bytes == 0 ==> (r matches Some((total, files)) && total == 0 && files@.len() == 0),
        max_bytes > 0 ==> {
            let all = all_proxy_files(entries_of(rpm@), entries_of(deb@));
            match r {
                Some((total, files)) => total == bytes(all) && cached_of(files@) == evicted(
                    all,
                    max_bytes,
                ),
                None => bytes(all) > u64::MAX,
            }
        },
{
    if max_bytes == 0 {
        return Some((0, Vec::new()));
    }
    let ghost want = all_proxy_files(entries_of(rpm@), entries_of(deb@));
    let mut hosted = KeySet::new();
    let mut files: Vec<CachedFile> = Vec::new();
    collect_covered(Format::Rpm, rpm, &mut hosted);
    proof {
        assert(hosted@ =~= covered(Format::Rpm, entries_of(rpm@)));
    }
    collect_files(rpm, &hosted, &mut files);
    proof {
        assert(cached_of(Seq::<CachedFile>::empty()) =~= Seq::<Cached>::empty());
        assert(cached_of(files@) =~= proxy_files(entries_of(rpm@), hosted@));
    }
    collect_covered(Format::Deb, deb, &mut hosted);
    collect_files(deb, &hosted, &mut files);
    proof {
        assert(cached_of(files@) == want);
    }
    let total: u64 = sum_files(&files)?;
    if total <= max_bytes {
        let none: Vec<CachedFile> = Vec::new();
        proof {
            assert(cached_of(none@) =~= Seq::<Cached>::empty());
        }
        return Some((total, none));
    }
    Some((total, take_oldest(&files, total - max_bytes)))
}

/// The oldest files until so many bytes are freed.
fn take_oldest(files: &Vec<CachedFile>, need: u64) -> (r: Vec<CachedFile>)
    requires
        0 < need <= bytes(cached_of(files@)) <= u64::MAX,
    ensures
        ({
            let sorted = oldest_first(cached_of(files@));
            cached_of(r@) == sorted.take(victims(sorted, need as int) as int)
        }),
{
    let n: usize = files.len();
    let ghost fs = cached_of(files@);
    let ghost rel = |i: int, j: int| older()(fs[i], fs[j]);
    let le = |i: usize, j: usize| -> (r: bool)
        requires
            i < n,
            j < n,
            n == files@.len(),
        ensures
            r == (files@[i as int].modified <= files@[j as int].modified),
        { files[i].modified <= files[j].modified };
    let sorted = order::order_of(n, le, Ghost(rel));
    let ghost s = oldest_first(fs);
    proof {
        let f = |i: int| fs[i];
        order::lemma_sorted_map(order::positions(n as nat), f, older(), rel);
        assert(order::positions(n as nat).map_values(f) =~= fs);
        assert(order::ints(sorted@).map_values(f) == s);
        assert forall|k: int| 0 <= k < n implies #[trigger] s[k] == fs[sorted@[k] as int] by {
            assert(order::ints(sorted@)[k] == sorted@[k]);
        }
        lemma_bytes_sorted(fs);
        lemma_victims(s, need as int);
    }
    let ghost v = victims(s, need as int) as int;
    let mut freed: u64 = 0;
    let mut r: Vec<CachedFile> = Vec::new();
    let mut i: usize = 0;
    proof {
        assert(s.skip(0) =~= s);
        assert(s.take(0) =~= Seq::<Cached>::empty());
    }
    while i < n && freed < need
        invariant
            i <= n,
            n == files@.len(),
            n == sorted@.len(),
            n == s.len(),
            fs == cached_of(files@),
            bytes(s) <= u64::MAX,
            forall|k: int| 0 <= k < n ==> #[trigger] sorted@[k] < n,
            forall|k: int| 0 <= k < n ==> #[trigger] s[k] == fs[sorted@[k] as int],
            freed == bytes(s.take(i as int)),
            r@.len() == i,
            forall|k: int| 0 <= k < i ==> (#[trigger] r@[k])@ == s[k],
            v == victims(s, need as int),
            v == i + victims(s.skip(i as int), need - freed),
        decreases n - i,
    {
        let file = &files[sorted[i]];
        proof {
            assert(s[i as int] == file@);
            assert(s.skip(i as int).drop_first() =~= s.skip(i + 1));
            assert(s.take(i + 1).drop_last() =~= s.take(i as int));
            lemma_bytes_grow(s, i + 1);
        }
        freed = freed + file.size;
        r.push(CachedFile { key: file.key.clone(), size: file.size, modified: file.modified });
        i = i + 1;
    }
    proof {
        assert(v == i);
        assert(cached_of(r@) =~= s.take(v));
    }
    r
}

/// Sums up an eviction: for each file of the plan whether its deletion
/// succeeded. A dry run counts every file. There is no sum where the size of
/// what is gone does not fit in 64 bits.
pub fn tally_eviction(total_bytes: u64, seen: &Vec<(CachedFile, bool)>, dry_run: bool) -> (r: Option<
    ProxyCacheEviction,
>)
    ensures
        match r {
            Some(e) => {
                &&& e.total_bytes == total_bytes
                &&& e.evicted_files == gone(seen_of(seen@), dry_run).len()
                &&& e.bytes_freed == bytes(gone(seen_of(seen@), dry_run))
            },
            None => bytes(gone(seen_of(seen@), dry_run)) > u64::MAX,
        },
{
    let ghost all = seen_of(seen@);
    let mut evicted_files: usize = 0;
    let mut bytes_freed: u64 = 0;
    let mut i: usize = 0;
    while i < seen.len()
        invariant
            i <= seen@.len(),
            evicted_files <= i,
            all == seen_of(seen@),
            evicted_files == gone(all.take(i as int), dry_run).len(),
            bytes_freed == bytes(gone(all.take(i as int), dry_run)),
        decreases seen@.len() - i,
    {
        proof {
            assert(all.take(i + 1).drop_last() =~= all.take(i as int));
            assert(all.take(i + 1).last() == (seen@[i as int].0@, seen@[i as int].1));
            lemma_gone_grows(all, dry_run, i + 1);
        }
        if dry_run || seen[i].1 {
            proof {
                let before = gone(all.take(i as int), dry_run);
                assert(before.push(seen@[i as int].0@).drop_last() =~= before);
            }
            evicted_files = evicted_files + 1;
            bytes_freed = bytes_freed.checked_add(seen[i].0.size)?;
        }
        i = i + 1;
    }
    proof {
        assert(all.take(i as int) =~= all);
    }
    Some(ProxyCacheEviction { total_bytes, evicted_files, bytes_freed })
}

proof fn lemma_gone_grows(seen: Seq<(Cached, bool)>, dry_run: bool, n: int)
    requires
        0 <= n <= seen.len(),
    ensures
        bytes(gone(seen.take(n), dry_run)) <= bytes(gone(seen, dry_run)),
    decreases seen.len(),
{
    if n == seen.len() {
        assert(seen.take(n) =~= seen);
    } else {
        let front = seen.drop_last();
        lemma_gone_grows(front, dry_run, n);
        assert(front.take(n) =~= seen.take(n));
        let before = gone(front, dry_run);
        assert(before.push(seen.last().0).drop_last() =~= before);
    }
}

/// A run whose deletions all succeed, and a dry run, count just the files of
/// the plan.
pub proof fn deleted_files_are_counted(seen: Seq<(Cached, bool)>, dry_run: bool)
    requires
        dry_run || forall|i: int| 0 <= i < seen.len() ==> (#[trigger] seen[i]).1,
    ensures
        gone(seen, dry_run) == seen.map_values(|e: (Cached, bool)| e.0),
    decreases seen.len(),
{
    let f = |e: (Cached, bool)| e.0;
    if seen.len() > 0 {
        let front = seen.drop_last();
        assert(forall|i: int| 0 <= i < front.len() ==> front[i] == #[trigger] seen[i]);
        assert(seen[seen.len() - 1] == seen.last());
        deleted_files_are_counted(front, dry_run);
        assert(front.map_values(f).push(seen.last().0) =~= seen.map_values(f));
    } else {
        assert(gone(seen, dry_run) =~= seen.map_values(f));
    }
}

/// A run whose deletions all fail evicts no file and frees no byte.
pub proof fn failed_deletions_free_nothing(seen: Seq<(Cached, bool)>)
    requires
        forall|i: int| 0 <= i < seen.len() ==> !(#[trigger] seen[i]).1,
    ensures
        gone(seen, false).len() == 0,
        bytes(gone(seen, false)) == 0,
    decreases seen.len(),
{
    if seen.len() > 0 {
        let front = seen.drop_last();
        assert(forall|i: int| 0 <= i < front.len() ==> front[i] == #[trigger] seen[i]);
        assert(seen[seen.len() - 1] == seen.last());
        failed_deletions_free_nothing(front);
    }
}

/// With a cap and more than it in the cache, what stays fits the cap, and would
/// not without the last file that went.
pub proof fn eviction_frees_just_enough(files: Seq<Cached>, max_bytes: u64)
    requires
        max_bytes > 0,
        bytes(files) > max_bytes,
    ensures
        evicted(files, max_bytes).len() > 0,
        bytes(files) - bytes(evicted(files, max_bytes)) <= max_bytes,
        bytes(files) - bytes(evicted(files, max_bytes).drop_last()) > max_bytes,
{
    let sorted = oldest_first(files);
    let need = bytes(files) - max_bytes;
    lemma_bytes_sorted(files);
    lemma_victims(sorted, need);
    let v = victims(sorted, need) as int;
    assert(sorted.take(v).drop_last() =~= sorted.take(v - 1));
}

/// A cache within the cap, or without one, is left alone.
pub proof fn nothing_goes_within_the_cap(files: Seq<Cached>, max_bytes: u64)
    requires
        max_bytes == 0 || bytes(files) <= max_bytes,
    ensures
        evicted(files, max_bytes).len() == 0,
{
}

/// No file goes while an older one stays.
pub proof fn the_oldest_go_first(files: Seq<Cached>, max_bytes: u64, i: int, j: int)
    requires
        0 <= i < evicted(files, max_bytes).len(),
        evicted(files, max_bytes).len() <= j < files.len(),
    ensures
        evicted(files, max_bytes)[i].modified <= oldest_first(files)[j].modified,
{
    lemma_older();
    order::lemma_sorted_by(files, older());
    let sorted = oldest_first(files);
    lemma_bytes_sorted(files);
    lemma_victims(sorted, bytes(files) - max_bytes);
    assert(older()(sorted[i], sorted[j]));
}

proof fn lemma_proxy_files(entries: Seq<(Seq<char>, FileMeta)>, hosted: Set<Seq<char>>)
    ensures
        forall|k: int|
            0 <= k < proxy_files(entries, hosted).len() ==> is_proxy_file(
                (#[trigger] proxy_files(entries, hosted)[k]).key,
                hosted,
            ),
    decreases entries.len(),
{
    if entries.len() > 0 {
        lemma_proxy_files(entries.drop_last(), hosted);
        let before = proxy_files(entries.drop_last(), hosted);
        let all = proxy_files(entries, hosted);
        assert forall|k: int| 0 <= k < all.len() implies is_proxy_file(
            (#[trigger] all[k]).key,
            hosted,
        ) by {
            if k < before.len() {
                assert(all[k] == before[k]);
            }
        }
    }
}

/// Index files, sidecars, and packages that an rpm sidecar describes are never
/// evicted.
pub proof fn hosted_and_index_files_stay(
    rpm: Seq<(Seq<char>, FileMeta)>,
    deb: Seq<(Seq<char>, FileMeta)>,
    max_bytes: u64,
    i: int,
)
    requires
        0 <= i < evicted(all_proxy_files(rpm, deb), max_bytes).len(),
    ensures
        ({
            let key = evicted(all_proxy_files(rpm, deb), max_bytes)[i].key;
            !is_index(key) && !text::has(key, "/.nora-meta/"@) && !covered(
                Format::Rpm,
                rpm,
            ).contains(key)
        }),
{
    let files = all_proxy_files(rpm, deb);
    let hosted_rpm = covered(Format::Rpm, rpm);
    let hosted = hosted_rpm.union(covered(Format::Deb, deb));
    let a = proxy_files(rpm, hosted_rpm);
    let b = proxy_files(deb, hosted);
    lemma_proxy_files(rpm, hosted_rpm);
    lemma_proxy_files(deb, hosted);
    lemma_older();
    lemma_bytes_sorted(files);
    lemma_victims(oldest_first(files), bytes(files) - max_bytes);
    let f = evicted(files, max_bytes)[i];
    assert(oldest_first(files)[i] == f);
    assert(oldest_first(files).contains(f));
    order::lemma_sorted_members(files, older(), f);
    let k = choose|k: int| 0 <= k < files.len() && files[k] == f;
    if k < a.len() {
        assert(a[k] == f);
    } else {
        assert(b[k - a.len()] == f);
    }
}

/// A package that a deb sidecar describes is never evicted, where the rpm
/// listing holds only rpm keys.
pub proof fn hosted_deb_packages_stay(
    rpm: Seq<(Seq<char>, FileMeta)>,
    deb: Seq<(Seq<char>, FileMeta)>,
    max_bytes: u64,
    i: int,
)
    requires
        0 <= i < evicted(all_proxy_files(rpm, deb), max_bytes).len(),
        forall|k: int| 0 <= k < rpm.len() ==> "rpm/"@.is_prefix_of((#[trigger] rpm[k]).0),
    ensures
        !covered(Format::Deb, deb).contains(
            evicted(all_proxy_files(rpm, deb), max_bytes)[i].key,
        ),
{
    let files = all_proxy_files(rpm, deb);
    let hosted_rpm = covered(Format::Rpm, rpm);
    let hosted = hosted_rpm.union(covered(Format::Deb, deb));
    let a = proxy_files(rpm, hosted_rpm);
    let b = proxy_files(deb, hosted);
    lemma_proxy_files(deb, hosted);
    lemma_older();
    lemma_bytes_sorted(files);
    lemma_victims(oldest_first(files), bytes(files) - max_bytes);
    let f = evicted(files, max_bytes)[i];
    assert(oldest_first(files)[i] == f);
    assert(oldest_first(files).contains(f));
    order::lemma_sorted_members(files, older(), f);
    let k = choose|k: int| 0 <= k < files.len() && files[k] == f;
    if k < a.len() {
        assert(a[k] == f);
        lemma_proxy_keys(rpm, hosted_rpm, k);
        lemma_covered_prefix(deb, f.key);
        if covered(Format::Deb, deb).contains(f.key) {
            reveal_strlit("rpm/");
            reveal_strlit("deb");
            assert(f.key.subrange(0, 4)[0] == 'r');
            assert(f.key.subrange(0, 3)[0] == 'd');
        }
    } else {
        assert(b[k - a.len()] == f);
    }
}

proof fn lemma_proxy_keys(entries: Seq<(Seq<char>, FileMeta)>, hosted: Set<Seq<char>>, k: int)
    requires
        0 <= k < proxy_files(entries, hosted).len(),
        forall|j: int| 0 <= j < entries.len() ==> "rpm/"@.is_prefix_of((#[trigger] entries[j]).0),
    ensures
        "rpm/"@.is_prefix_of(proxy_files(entries, hosted)[k].key),
    decreases entries.len(),
{
    let front = entries.drop_last();
    let before = proxy_files(front, hosted);
    if k < before.len() {
        assert forall|j: int| 0 <= j < front.len() implies "rpm/"@.is_prefix_of(
            (#[trigger] front[j]).0,
        ) by {
            assert(entries[j] == front[j]);
        }
        lemma_proxy_keys(front, hosted, k);
    } else {
        assert(entries[entries.len() - 1] == entries.last());
    }
}

proof fn lemma_covered_prefix(entries: Seq<(Seq<char>, FileMeta)>, key: Seq<char>)
    ensures
        covered(Format::Deb, entries).contains(key) ==> "deb"@.is_prefix_of(key),
    decreases entries.len(),
{
    if entries.len() > 0 {
        lemma_covered_prefix(entries.drop_last(), key);
        match sidecar::sidecar_target(Format::Deb, entries.last().0) {
            Some((repo, path)) => {
                let c = "deb"@ + "/"@ + repo + "/"@ + path;
                assert(c.subrange(0, "deb"@.len() as int) =~= "deb"@);
            },
            None => {},
        }
    }
}

} // verus!
