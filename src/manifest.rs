//! The checksum manifest: which files it covers, in what order, and its text.
//! Each line is `<hex digest>  <path relative to the web root>`, and lines are
//! ordered by path, so that the same files with the same contents always give
//! the same manifest.
use vstd::prelude::*;
use vstd::relations::{sorted_by, total_ordering};

use crate::pipeline::snapshot_ext;
use crate::path::{
    components, lemma_components_lt_asymmetric, lemma_components_lt_irreflexive,
    lemma_components_lt_total, lemma_components_lt_transitive, path_less, path_lt, relative_path,
    relative_to, components_lt,
};
use crate::text::{
    chars_lt, lemma_chars_lt_asymmetric, lemma_chars_lt_irreflexive, lemma_chars_lt_total,
    lemma_chars_lt_transitive, text_lt,
};

verus! {

/// Why a manifest could not be published.
#[derive(Clone, Copy, Debug, PartialEq, Eq, Structural)]
pub enum ManifestError {
    /// No entry document and no snapshot file exists: nothing to list.
    NoFilesFound,
    /// Reading a file or writing the manifest failed.
    Io,
}

/// A file to list, with the lowercase hex digest of its contents.
pub struct HashedFile {
    /// The file's absolute path.
    pub path: String,
    pub digest: String,
}

/// A hashed file, as values.
pub struct HashedView {
    pub path: Seq<char>,
    pub digest: Seq<char>,
}

impl View for HashedFile {
    type V = HashedView;

    open spec fn view(&self) -> HashedView {
        HashedView { path: self.path@, digest: self.digest@ }
    }
}

pub open spec fn hashed_views(files: Seq<HashedFile>) -> Seq<HashedView> {
    files.map_values(|f: HashedFile| f@)
}

/// Strict order of listed files: by path, component by component; paths
/// with the same components by their text; then by digest.
pub open spec fn file_lt(a: HashedView, b: HashedView) -> bool {
    path_lt(a.path, b.path) || (components(a.path) == components(b.path) && (chars_lt(
        a.path,
        b.path,
    ) || (a.path == b.path && chars_lt(a.digest, b.digest))))
}

pub open spec fn file_le(a: HashedView, b: HashedView) -> bool {
    !file_lt(b, a)
}

/// `file_le` as a relation.
pub open spec fn file_leq() -> spec_fn(HashedView, HashedView) -> bool {
    |a: HashedView, b: HashedView| file_le(a, b)
}

pub proof fn lemma_file_order_facts(a: HashedView, b: HashedView, c: HashedView)
    ensures
        !file_lt(a, a),
        file_lt(a, b) ==> !file_lt(b, a),
        a == b || file_lt(a, b) || file_lt(b, a),
        file_lt(a, b) && file_lt(b, c) ==> file_lt(a, c),
{
    let (ca, cb, cc) = (components(a.path), components(b.path), components(c.path));
    lemma_components_lt_irreflexive(ca);
    lemma_components_lt_total(ca, cb);
    if components_lt(ca, cb) {
        lemma_components_lt_asymmetric(ca, cb);
    }
    if components_lt(ca, cb) && components_lt(cb, cc) {
        lemma_components_lt_transitive(ca, cb, cc);
    }
    lemma_chars_lt_irreflexive(a.path);
    lemma_chars_lt_irreflexive(a.digest);
    lemma_chars_lt_total(a.path, b.path);
    lemma_chars_lt_total(a.digest, b.digest);
    if chars_lt(a.path, b.path) {
        lemma_chars_lt_asymmetric(a.path, b.path);
    }
    if chars_lt(a.digest, b.digest) {
        lemma_chars_lt_asymmetric(a.digest, b.digest);
    }
    if chars_lt(a.path, b.path) && chars_lt(b.path, c.path) {
        lemma_chars_lt_transitive(a.path, b.path, c.path);
    }
    if chars_lt(a.digest, b.digest) && chars_lt(b.digest, c.digest) {
        lemma_chars_lt_transitive(a.digest, b.digest, c.digest);
    }
}

pub proof fn lemma_file_le_total_ordering()
    ensures
        total_ordering(file_leq()),
{
    let leq = file_leq();
    assert forall|a: HashedView| #[trigger] leq(a, a) by {
        lemma_file_order_facts(a, a, a);
    }
    assert forall|a: HashedView, b: HashedView| #[trigger] leq(a, b) && #[trigger] leq(b, a) implies a
        == b by {
        lemma_file_order_facts(a, b, a);
    }
    assert forall|a: HashedView, b: HashedView, c: HashedView|
        #[trigger] leq(a, b) && #[trigger] leq(b, c) implies leq(a, c) by {
        lemma_file_order_facts(a, b, c);
        lemma_file_order_facts(c, b, a);
        lemma_file_order_facts(a, c, b);
        lemma_file_order_facts(b, a, c);
        lemma_file_order_facts(c, a, b);
    }
    assert forall|a: HashedView, b: HashedView| #[trigger] leq(a, b) || #[trigger] leq(b, a) by {
        lemma_file_order_facts(a, b, a);
    }
}

/// Two sequences sorted by the same total order and holding the same
/// elements are equal.
pub proof fn lemma_sorted_unique<A>(s1: Seq<A>, s2: Seq<A>, leq: spec_fn(A, A) -> bool)
    requires
        total_ordering(leq),
        sorted_by(s1, leq),
        sorted_by(s2, leq),
        s1.to_multiset() == s2.to_multiset(),
    ensures
        s1 == s2,
    decreases s1.len(),
{
    broadcast use vstd::seq_lib::group_to_multiset_ensures;

    vstd::seq_lib::to_multiset_len(s1);
    vstd::seq_lib::to_multiset_len(s2);
    if s1.len() == 0 {
        assert(s2.len() == 0);
        assert(s1 =~= s2);
    } else {
        assert(s2.len() == s1.len());
        let x = s1[0];
        let y = s2[0];
        assert(s1.contains(x));
        assert(s1.to_multiset().count(x) > 0);
        assert(s2.to_multiset().count(x) > 0);
        assert(s2.contains(x));
        let k = choose|k: int| 0 <= k < s2.len() && s2[k] == x;
        assert(leq(y, x)) by {
            if k > 0 {
                assert(leq(s2[0], s2[k]));
            }
        }
        assert(s2.contains(y));
        assert(s2.to_multiset().count(y) > 0);
        assert(s1.to_multiset().count(y) > 0);
        assert(s1.contains(y));
        let m = choose|m: int| 0 <= m < s1.len() && s1[m] == y;
        assert(leq(x, y)) by {
            if m > 0 {
                assert(leq(s1[0], s1[m]));
            }
        }
        assert(x == y);
        let t1 = s1.drop_first();
        let t2 = s2.drop_first();
        assert(s1.remove(0) =~= t1);
        assert(s2.remove(0) =~= t2);
        assert(t1.to_multiset() == s1.to_multiset().remove(x));
        assert(t2.to_multiset() == s2.to_multiset().remove(y));
        assert(sorted_by(t1, leq)) by {
            assert forall|i: int, j: int| 0 <= i < j < t1.len() implies #[trigger] leq(t1[i], t1[j]) by {
                assert(leq(s1[i + 1], s1[j + 1]));
            }
        }
        assert(sorted_by(t2, leq)) by {
            assert forall|i: int, j: int| 0 <= i < j < t2.len() implies #[trigger] leq(t2[i], t2[j]) by {
                assert(leq(s2[i + 1], s2[j + 1]));
            }
        }
        lemma_sorted_unique(t1, t2, leq);
        assert(s1 =~= s2) by {
            assert forall|i: int| 0 <= i < s1.len() implies s1[i] == s2[i] by {
                if i > 0 {
                    assert(s1[i] == t1[i - 1]);
                    assert(s2[i] == t2[i - 1]);
                }
            }
        }
    }
}

/// The files in manifest order.
pub open spec fn manifest_order(files: Seq<HashedView>) -> Seq<HashedView> {
    files.sort_by(file_leq())
}

/// The manifest line of `f`, its path named relative to `root`.
pub open spec fn manifest_line(f: HashedView, root: Seq<char>) -> Seq<char> {
    f.digest + seq![' ', ' '] + relative_to(f.path, root) + seq!['\n']
}

/// The lines of `files`, in the order given.
pub open spec fn manifest_lines(files: Seq<HashedView>, root: Seq<char>) -> Seq<char>
    decreases files.len(),
{
    if files.len() == 0 {
        Seq::empty()
    } else {
        manifest_lines(files.drop_last(), root) + manifest_line(files.last(), root)
    }
}

/// The manifest of `files`, in whatever order they are given.
pub open spec fn manifest_text(files: Seq<HashedView>, root: Seq<char>) -> Seq<char> {
    manifest_lines(manifest_order(files), root)
}

/// Determinism: the manifest depends on which files there are and on their
/// digests, not on the order in which they were listed or hashed.
pub proof fn lemma_manifest_order_independent(
    a: Seq<HashedView>,
    b: Seq<HashedView>,
    root: Seq<char>,
)
    requires
        a.to_multiset() == b.to_multiset(),
    ensures
        manifest_text(a, root) == manifest_text(b, root),
{
    let leq = file_leq();
    lemma_file_le_total_ordering();
    a.lemma_sort_by_ensures(leq);
    b.lemma_sort_by_ensures(leq);
    lemma_sorted_unique(a.sort_by(leq), b.sort_by(leq), leq);
}

fn file_less(a: &HashedFile, b: &HashedFile) -> (r: bool)
    ensures
        r == file_lt(a@, b@),
{
    if path_less(a.path.as_str(), b.path.as_str()) {
        return true;
    }
    if path_less(b.path.as_str(), a.path.as_str()) {
        proof {
            lemma_components_lt_asymmetric(components(b.path@), components(a.path@));
        }
        return false;
    }
    proof {
        lemma_components_lt_total(components(a.path@), components(b.path@));
    }
    if text_lt(a.path.as_str(), b.path.as_str()) {
        true
    } else if text_lt(b.path.as_str(), a.path.as_str()) {
        false
    } else {
        proof {
            lemma_chars_lt_total(a.path@, b.path@);
        }
        text_lt(a.digest.as_str(), b.digest.as_str())
    }
}

/// Puts `files` in manifest order.
fn sort_files(files: Vec<HashedFile>) -> (r: Vec<HashedFile>)
    ensures
        hashed_views(r@) == manifest_order(hashed_views(files@)),
{
    broadcast use vstd::seq_lib::group_to_multiset_ensures;

    let ghost leq = file_leq();
    proof {
        lemma_file_le_total_ordering();
    }
    let ghost orig = hashed_views(files@);
    let mut rest = files;
    let mut out: Vec<HashedFile> = Vec::new();
    while rest.len() > 0
        invariant
            leq == file_leq(),
            total_ordering(leq),
            sorted_by(hashed_views(out@), leq),
            hashed_views(out@).to_multiset().add(hashed_views(rest@).to_multiset())
                == orig.to_multiset(),
        decreases rest.len(),
    {
        let ghost before = hashed_views(rest@);
        let ghost sorted = hashed_views(out@);
        let f = rest.pop().unwrap();
        assert(before =~= hashed_views(rest@).push(f@));
        let mut p: usize = 0;
        while p < out.len() && !file_less(&f, &out[p])
            invariant
                p <= out.len(),
                leq == file_leq(),
                sorted == hashed_views(out@),
                forall|k: int| 0 <= k < p ==> #[trigger] leq(sorted[k], f@),
            decreases out.len() - p,
        {
            assert(sorted[p as int] == out@[p as int]@);
            p = p + 1;
        }
        proof {
            if p < out.len() {
                assert(sorted[p as int] == out@[p as int]@);
                assert(file_lt(f@, sorted[p as int]));
                assert forall|k: int| p <= k < sorted.len() implies #[trigger] leq(f@, sorted[k]) by {
                    assert(leq(sorted[p as int], sorted[k]));
                    lemma_file_order_facts(f@, sorted[p as int], sorted[k]);
                    lemma_file_order_facts(sorted[k], sorted[p as int], f@);
                    lemma_file_order_facts(sorted[k], f@, sorted[p as int]);
                }
            }
        }
        out.insert(p, f);
        assert(hashed_views(out@) =~= sorted.insert(p as int, f@));
        assert(sorted_by(hashed_views(out@), leq)) by {
            let s = hashed_views(out@);
            assert forall|i: int, j: int| 0 <= i < j < s.len() implies #[trigger] leq(s[i], s[j]) by {
                if j < p {
                } else if i < p && j == p {
                } else if i < p && j > p {
                    assert(leq(sorted[i], f@));
                    assert(leq(f@, sorted[j - 1]));
                } else if i == p {
                } else {
                    assert(leq(sorted[i - 1], sorted[j - 1]));
                }
            }
        }
        proof {
            vstd::seq_lib::to_multiset_insert(sorted, p as int, f@);
        }
        assert(hashed_views(out@).to_multiset() == sorted.to_multiset().insert(f@));
        proof {
            vstd::seq_lib::to_multiset_build(hashed_views(rest@), f@);
        }
        assert(before.to_multiset() == hashed_views(rest@).to_multiset().insert(f@));
        assert(hashed_views(out@).to_multiset().add(hashed_views(rest@).to_multiset())
            =~= sorted.to_multiset().add(before.to_multiset()));
    }
    proof {
        assert(hashed_views(rest@).to_multiset() =~= vstd::multiset::Multiset::empty());
        assert(hashed_views(out@).to_multiset() =~= orig.to_multiset());
        orig.lemma_sort_by_ensures(leq);
        lemma_sorted_unique(hashed_views(out@), orig.sort_by(leq), leq);
    }
    out
}

fn render(files: &Vec<HashedFile>, root: &str) -> (r: String)
    ensures
        r@ == manifest_lines(hashed_views(files@), root@),
{
    proof {
        reveal_strlit("  ");
        reveal_strlit("\n");
    }
    let ghost views = hashed_views(files@);
    let mut text = String::new();
    let mut i: usize = 0;
    assert(views.take(0) =~= Seq::<HashedView>::empty());
    while i < files.len()
        invariant
            i <= files@.len(),
            views == hashed_views(files@),
            text@ == manifest_lines(views.take(i as int), root@),
        decreases files@.len() - i,
    {
        let f = &files[i];
        text.append(f.digest.as_str());
        text.append("  ");
        let rel = relative_path(f.path.as_str(), root);
        text.append(rel.as_str());
        text.append("\n");
        proof {
            reveal_strlit("  ");
            reveal_strlit("\n");
        }
        assert(views.take(i + 1).drop_last() =~= views.take(i as int));
        assert(views.take(i + 1).last() == f@);
        assert(text@ =~= manifest_lines(views.take(i as int), root@) + manifest_line(f@, root@));
        i = i + 1;
    }
    assert(views.take(i as int) =~= views);
    text
}

/// The manifest of `files`, whatever their order, with paths named relative
/// to the web root `html_root`. An empty file set is refused: a manifest that
/// lists nothing would hide a misconfiguration.
pub fn build_manifest(files: Vec<HashedFile>, html_root: &str) -> (r: Result<String, ManifestError>)
    ensures
        files@.len() == 0 ==> r == Err::<String, ManifestError>(ManifestError::NoFilesFound),
        files@.len() > 0 ==> (r matches Ok(t) && t@ == manifest_text(hashed_views(files@), html_root@)),
{
    if files.len() == 0 {
        return Err(ManifestError::NoFilesFound);
    }
    let sorted = sort_files(files);
    Ok(render(&sorted, html_root))
}

/// Whether `p` names a snapshot file: its last component is longer than the
/// extension and ends with it.
pub open spec fn is_snapshot_path(p: Seq<char>) -> bool {
    &&& p.len() > 4
    &&& p.skip(p.len() - 4) == snapshot_ext()
    &&& p[p.len() - 5] != '/'
}

/// Tells whether `path` names a snapshot file.
pub fn is_snapshot_file(path: &str) -> (r: bool)
    ensures
        r == is_snapshot_path(path@),
{
    let n = path.unicode_len();
    if n <= 4 {
        return false;
    }
    let r = path.get_char(n - 4) == '.' && path.get_char(n - 3) == 'j' && path.get_char(n - 2) == 'a'
        && path.get_char(n - 1) == 'm' && path.get_char(n - 5) != '/';
    proof {
        let tail = path@.skip(n - 4);
        if r {
            assert(tail =~= snapshot_ext());
        } else if tail == snapshot_ext() {
            assert(tail[0] == path@[n - 4]);
            assert(tail[1] == path@[n - 3]);
            assert(tail[2] == path@[n - 2]);
            assert(tail[3] == path@[n - 1]);
        }
    }
    r
}

pub open spec fn text_views(s: Seq<String>) -> Seq<Seq<char>> {
    s.map_values(|x: String| x@)
}

/// The paths in `listing` that name snapshot files, in the order given.
pub open spec fn snapshot_paths(listing: Seq<Seq<char>>) -> Seq<Seq<char>>
    decreases listing.len(),
{
    if listing.len() == 0 {
        Seq::empty()
    } else if is_snapshot_path(listing.last()) {
        snapshot_paths(listing.drop_last()).push(listing.last())
    } else {
        snapshot_paths(listing.drop_last())
    }
}

pub open spec fn snapshot_pred() -> spec_fn(Seq<char>) -> bool {
    |p: Seq<char>| is_snapshot_path(p)
}

proof fn lemma_snapshot_paths_multiset(listing: Seq<Seq<char>>)
    ensures
        snapshot_paths(listing).to_multiset() == listing.to_multiset().filter(snapshot_pred()),
    decreases listing.len(),
{
    broadcast use vstd::seq_lib::group_to_multiset_ensures;
    broadcast use vstd::multiset::group_multiset_axioms;

    if listing.len() == 0 {
        assert(snapshot_paths(listing).to_multiset() =~= listing.to_multiset().filter(
            snapshot_pred(),
        ));
    } else {
        let front = listing.drop_last();
        lemma_snapshot_paths_multiset(front);
        assert(listing =~= front.push(listing.last()));
        assert(snapshot_paths(listing).to_multiset() =~= listing.to_multiset().filter(
            snapshot_pred(),
        ));
    }
}

/// Which files a manifest covers does not depend on the order in which the
/// directory was listed: two listings with the same entries give the same
/// files, each as often.
pub proof fn lemma_listing_order_independent(
    documents: Seq<Seq<char>>,
    a: Seq<Seq<char>>,
    b: Seq<Seq<char>>,
)
    requires
        a.to_multiset() == b.to_multiset(),
    ensures
        (documents + snapshot_paths(a)).to_multiset() == (documents + snapshot_paths(
            b,
        )).to_multiset(),
{
    lemma_snapshot_paths_multiset(a);
    lemma_snapshot_paths_multiset(b);
    vstd::seq_lib::lemma_multiset_commutative(documents, snapshot_paths(a));
    vstd::seq_lib::lemma_multiset_commutative(documents, snapshot_paths(b));
}

/// How many paths of a directory listing name snapshot files.
pub fn count_snapshots(listing: &Vec<String>) -> (r: usize)
    ensures
        r == snapshot_paths(text_views(listing@)).len(),
{
    let ghost views = text_views(listing@);
    let mut count: usize = 0;
    let mut i: usize = 0;
    while i < listing.len()
        invariant
            i <= listing@.len(),
            views == text_views(listing@),
            count == snapshot_paths(views.take(i as int)).len(),
            count <= i,
        decreases listing@.len() - i,
    {
        assert(views.take(i + 1).drop_last() =~= views.take(i as int));
        assert(views.take(i + 1).last() == listing@[i as int]@);
        if is_snapshot_file(listing[i].as_str()) {
            count = count + 1;
        }
        i = i + 1;
    }
    assert(views.take(i as int) =~= views);
    count
}

/// The files that a manifest covers: the entry documents that exist, then
/// the snapshot files of the artifacts directory's listing.
pub fn hashable_files(present_documents: Vec<String>, listing: Vec<String>) -> (r: Vec<String>)
    ensures
        text_views(r@) == text_views(present_documents@) + snapshot_paths(text_views(listing@)),
{
    let ghost docs = text_views(present_documents@);
    let ghost views = text_views(listing@);
    let mut out = present_documents;
    let mut i: usize = 0;
    assert(docs + snapshot_paths(views.take(0)) =~= docs);
    while i < listing.len()
        invariant
            i <= listing@.len(),
            views == text_views(listing@),
            text_views(out@) == docs + snapshot_paths(views.take(i as int)),
        decreases listing@.len() - i,
    {
        assert(views.take(i + 1).drop_last() =~= views.take(i as int));
        assert(views.take(i + 1).last() == listing@[i as int]@);
        if is_snapshot_file(listing[i].as_str()) {
            assert(snapshot_paths(views.take(i + 1)) == snapshot_paths(views.take(i as int)).push(
                listing@[i as int]@,
            ));
            let ghost before = out@;
            let c = listing[i].clone();
            out.push(c);
            assert(text_views(out@) =~= text_views(before).push(listing@[i as int]@));
            assert(text_views(out@) =~= docs + snapshot_paths(views.take(i + 1)));
        }
        i = i + 1;
    }
    assert(views.take(i as int) =~= views);
    out
}

/// The names of the entry documents under the web root that every manifest
/// lists when they exist.
pub fn entry_documents() -> (r: Vec<String>)
    ensures
        text_views(r@) == seq!["index.html"@, "privacy.html"@],
{
    let mut r: Vec<String> = Vec::new();
    r.push(String::from_str("index.html"));
    r.push(String::from_str("privacy.html"));
    assert(text_views(r@) =~= seq!["index.html"@, "privacy.html"@]);
    r
}

} // verus!
