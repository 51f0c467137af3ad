//! The scanner: classifies files by name, computes their pairing candidates,
//! and decides which files are odd, that is, present without a counterpart.
//!
//! The decision logic is pure: it works on listings of path strings and on the
//! set of paths that exist. `find_odd_files` composes it with the directory
//! walk and the on-disk existence test.

use crate::paths::{ends_with, replace_extension, str_ends_with, with_ext};
use vstd::prelude::*;

verus! {

/// An image file: its name ends in `.jpg` or `.jpeg`.
pub open spec fn is_image_path(p: Seq<char>) -> bool {
    ends_with(p, ".jpeg"@) || ends_with(p, ".jpg"@)
}

/// A raw file: its name ends in the three characters `nef`. This is a bare
/// suffix match, not an extension match, so a name like `stonef` also counts.
pub open spec fn is_raw_path(p: Seq<char>) -> bool {
    ends_with(p, "nef"@)
}

/// A file the scanner inspects at all; every other file is ignored.
pub open spec fn is_target_path(p: Seq<char>) -> bool {
    is_image_path(p) || is_raw_path(p)
}

/// The paths whose existence pairs `p`: for an image its `nef` counterpart,
/// for a raw file its `jpeg` and `jpg` counterparts; other files have none.
pub open spec fn spec_candidates(p: Seq<char>) -> Seq<Seq<char>> {
    if is_image_path(p) {
        seq![with_ext(p, "nef"@)]
    } else if is_raw_path(p) {
        seq![with_ext(p, "jpeg"@), with_ext(p, "jpg"@)]
    } else {
        seq![]
    }
}

/// `p` is odd with respect to the set of paths `present`: an image none of
/// whose `nef` counterpart is present, or a raw file with neither a `jpeg` nor
/// a `jpg` counterpart present. Ignored files are never odd.
pub open spec fn is_odd(p: Seq<char>, present: Set<Seq<char>>) -> bool {
    if is_image_path(p) {
        !present.contains(with_ext(p, "nef"@))
    } else if is_raw_path(p) {
        !present.contains(with_ext(p, "jpeg"@)) && !present.contains(with_ext(p, "jpg"@))
    } else {
        false
    }
}

/// The odd entries of a listing, in listing order.
pub open spec fn odd_of(files: Seq<Seq<char>>, present: Set<Seq<char>>) -> Seq<Seq<char>> {
    files.filter(|f: Seq<char>| is_odd(f, present))
}

/// How many entries of a listing are odd.
pub open spec fn count_odd(files: Seq<Seq<char>>, present: Set<Seq<char>>) -> nat
    decreases files.len(),
{
    if files.len() == 0 {
        0
    } else {
        count_odd(files.drop_last(), present) + if is_odd(files.last(), present) {
            1nat
        } else {
            0nat
        }
    }
}

/// Classifies `p` as an image file.
pub fn is_image_file(p: &str) -> (r: bool)
    ensures
        r == is_image_path(p@),
{
    str_ends_with(p, ".jpeg") || str_ends_with(p, ".jpg")
}

/// Classifies `p` as a raw file.
pub fn is_raw_file(p: &str) -> (r: bool)
    ensures
        r == is_raw_path(p@),
{
    str_ends_with(p, "nef")
}

/// The pairing candidates of `p`, in the order they are probed.
pub fn pair_candidates(p: &str) -> (r: Vec<String>)
    ensures
        r.deep_view() == spec_candidates(p@),
{
    let mut out: Vec<String> = Vec::new();
    if is_image_file(p) {
        out.push(replace_extension(p, "nef"));
    } else if is_raw_file(p) {
        out.push(replace_extension(p, "jpeg"));
        out.push(replace_extension(p, "jpg"));
    }
    proof {
        assert(out.deep_view() =~= spec_candidates(p@));
    }
    out
}

/// Membership of `p` in `v`, by string equality.
pub fn contains_path(v: &Vec<String>, p: &String) -> (r: bool)
    ensures
        r == v.deep_view().to_set().contains(p@),
{
    let mut i: usize = 0;
    while i < v.len()
        invariant
            i <= v.len(),
            forall|k: int| 0 <= k < i ==> v.deep_view()[k] != p@,
        decreases v.len() - i,
    {
        if v[i].eq(p) {
            proof {
                assert(v.deep_view()[i as int] == p@);
                assert(v.deep_view().contains(p@));
            }
            return true;
        }
        i += 1;
    }
    proof {
        if v.deep_view().contains(p@) {
            let k = choose|k: int| 0 <= k < v.deep_view().len() && v.deep_view()[k] == p@;
            assert(v.deep_view()[k] != p@);
        }
    }
    false
}

/// Decides oddness of `p` against the paths listed in `present`, which stand
/// for the paths that exist.
pub fn is_odd_given_present(p: &str, present: &Vec<String>) -> (r: bool)
    ensures
        r == is_odd(p@, present.deep_view().to_set()),
{
    if is_image_file(p) {
        let c = replace_extension(p, "nef");
        !contains_path(present, &c)
    } else if is_raw_file(p) {
        let c1 = replace_extension(p, "jpeg");
        let c2 = replace_extension(p, "jpg");
        !contains_path(present, &c1) && !contains_path(present, &c2)
    } else {
        false
    }
}

/// The scan of a listing: the odd entries, in listing order. `files` is the
/// listing of one scanned tree; `present` lists the paths that exist.
pub fn odd_in_snapshot(files: &Vec<String>, present: &Vec<String>) -> (r: Vec<String>)
    ensures
        r.deep_view() == odd_of(files.deep_view(), present.deep_view().to_set()),
{
    proof {
        reveal(Seq::filter);
    }
    let ghost pset = present.deep_view().to_set();
    let mut out: Vec<String> = Vec::new();
    let mut i: usize = 0;
    while i < files.len()
        invariant
            i <= files.len(),
            out.deep_view() == odd_of(files.deep_view().take(i as int), pset),
            pset == present.deep_view().to_set(),
        decreases files.len() - i,
    {
        let ghost prefix = files.deep_view().take(i as int);
        if is_odd_given_present(files[i].as_str(), present) {
            out.push(files[i].clone());
        }
        proof {
            reveal(Seq::filter);
            let next = files.deep_view().take(i + 1int);
            assert(next.drop_last() =~= prefix);
            assert(next.last() == files.deep_view()[i as int]);
            assert(out.deep_view() =~= odd_of(next, pset));
        }
        i += 1;
    }
    proof {
        assert(files.deep_view().take(files@.len() as int) =~= files.deep_view());
    }
    out
}

/// Relies on walkdir::WalkDir: walks the tree rooted at `root` depth first,
/// following symbolic links, and yields the root and every entry reachable
/// below it; an entry that cannot be read is skipped. Nothing is assumed of
/// the listing: it depends on what is on disk.
#[verifier::external_body]
fn walk_tree(root: &str) -> Vec<String> {
    walkdir::WalkDir::new(root)
        .follow_links(true)
        .into_iter()
        .filter_map(|e| e.ok())
        .map(|e| e.path().to_string_lossy().into_owned())
        .collect()
}

/// Relies on std::path::Path::exists: true when the path points at an
/// existing entity on disk, following symbolic links. Nothing is assumed of
/// the answer: it depends on what is on disk.
#[verifier::external_body]
fn path_exists(p: &String) -> bool {
    std::path::Path::new(p.as_str()).exists()
}

/// Decides oddness of `p` against the filesystem: probes which pairing
/// candidates exist and hands the answers to the pure decision. Whatever the
/// probes answer, only an image or raw file can come out odd.
pub fn is_odd_on_disk(p: &String) -> (r: bool)
    ensures
        r ==> is_target_path(p@),
{
    let cands = pair_candidates(p.as_str());
    let mut present: Vec<String> = Vec::new();
    let mut i: usize = 0;
    while i < cands.len()
        invariant
            i <= cands.len(),
        decreases cands.len() - i,
    {
        if path_exists(&cands[i]) {
            present.push(cands[i].clone());
        }
        i += 1;
    }
    is_odd_given_present(p.as_str(), &present)
}

/// Scans the directory trees in `dirs` and returns the odd files found, in
/// directory-argument order and walk order within each tree. Returns `None`
/// when `dirs` is empty (no scan is performed) and when the scan found
/// nothing; a returned list is never empty, and every path on it names an
/// image or raw file.
pub fn find_odd_files(dirs: &Vec<String>) -> (r: Option<Vec<String>>)
    ensures
        dirs@.len() == 0 ==> r is None,
        match r {
            Some(odd) => odd@.len() > 0 && forall|i: int|
                0 <= i < odd@.len() ==> is_target_path(#[trigger] odd.deep_view()[i]),
            None => true,
        },
{
    if dirs.len() == 0 {
        return None;
    }
    let mut result: Vec<String> = Vec::new();
    let mut d: usize = 0;
    while d < dirs.len()
        invariant
            d <= dirs.len(),
            forall|i: int|
                0 <= i < result.deep_view().len() ==> is_target_path(
                    #[trigger] result.deep_view()[i],
                ),
        decreases dirs.len() - d,
    {
        let files = walk_tree(dirs[d].as_str());
        let mut f: usize = 0;
        while f < files.len()
            invariant
                f <= files.len(),
                forall|i: int|
                    0 <= i < result.deep_view().len() ==> is_target_path(
                        #[trigger] result.deep_view()[i],
                    ),
            decreases files.len() - f,
        {
            if is_odd_on_disk(&files[f]) {
                let ghost before = result.deep_view();
                result.push(files[f].clone());
                proof {
                    assert forall|i: int|
                        0 <= i < result.deep_view().len() implies is_target_path(
                        #[trigger] result.deep_view()[i],
                    ) by {
                        if i < before.len() {
                            assert(result.deep_view()[i] == before[i]);
                        } else {
                            assert(result.deep_view()[i] == files@[f as int]@);
                        }
                    }
                }
            }
            f += 1;
        }
        d += 1;
    }
    if result.len() == 0 {
        None
    } else {
        Some(result)
    }
}

/// Law: the scan of a listing holds exactly its odd entries — every path it
/// returns is an odd entry of the listing, every odd entry of the listing is
/// returned, and paired or ignored entries never appear.
pub proof fn lemma_scan_membership(files: Seq<Seq<char>>, present: Set<Seq<char>>, p: Seq<char>)
    ensures
        odd_of(files, present).contains(p) <==> files.contains(p) && is_odd(p, present),
    decreases files.len(),
{
    reveal(Seq::filter);
    if files.len() > 0 {
        let rest = files.drop_last();
        let last = files.last();
        lemma_scan_membership(rest, present, p);
        let sub = odd_of(rest, present);
        if files.contains(p) {
            let i = choose|i: int| 0 <= i < files.len() && files[i] == p;
            if i < files.len() - 1 {
                assert(rest[i] == p);
                assert(rest.contains(p));
            }
        }
        if rest.contains(p) {
            let i = choose|i: int| 0 <= i < rest.len() && rest[i] == p;
            assert(files[i] == p);
        }
        if is_odd(last, present) {
            assert(odd_of(files, present) == sub.push(last));
            if sub.contains(p) {
                let i = choose|i: int| 0 <= i < sub.len() && sub[i] == p;
                assert(sub.push(last)[i] == p);
            }
            if sub.push(last).contains(p) {
                let i = choose|i: int| 0 <= i < sub.push(last).len() && sub.push(last)[i] == p;
                if i < sub.len() {
                    assert(sub[i] == p);
                } else {
                    assert(last == p);
                }
            }
            if last == p {
                assert(sub.push(last)[sub.len() as int] == p);
                assert(files[files.len() - 1] == p);
            }
        } else {
            assert(odd_of(files, present) == sub);
        }
    }
}

/// Law: a listing with pairs and odd entries scans to exactly as many paths as
/// it has odd entries; in particular none of the paired entries adds to the
/// count.
pub proof fn lemma_scan_count(files: Seq<Seq<char>>, present: Set<Seq<char>>)
    ensures
        odd_of(files, present).len() == count_odd(files, present),
    decreases files.len(),
{
    reveal(Seq::filter);
    if files.len() > 0 {
        lemma_scan_count(files.drop_last(), present);
    }
}

/// Law: a listing whose entries are all paired or ignored scans to nothing.
pub proof fn lemma_scan_all_paired(files: Seq<Seq<char>>, present: Set<Seq<char>>)
    requires
        forall|i: int| 0 <= i < files.len() ==> !is_odd(#[trigger] files[i], present),
    ensures
        odd_of(files, present) == Seq::<Seq<char>>::empty(),
    decreases files.len(),
{
    reveal(Seq::filter);
    if files.len() > 0 {
        assert(!is_odd(files[files.len() - 1], present));
        lemma_scan_all_paired(files.drop_last(), present);
    }
    assert(odd_of(files, present) =~= Seq::<Seq<char>>::empty());
}

/// Law: scanning flattens nesting. The odd entries of a listing split in two —
/// say a directory's own files followed by those of a nested directory — are
/// the odd entries of the two parts, in order: an entry of a nested listing is
/// reported exactly as it would be at the root.
pub proof fn lemma_scan_flattens(a: Seq<Seq<char>>, b: Seq<Seq<char>>, present: Set<Seq<char>>)
    ensures
        odd_of(a + b, present) == odd_of(a, present) + odd_of(b, present),
{
    Seq::filter_distributes_over_add(a, b, |f: Seq<char>| is_odd(f, present));
}

} // verus!
