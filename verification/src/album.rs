//! Albums: a directory and the files directly inside it.
//!
//! The scanner hands the library a flat list of discovered file paths;
//! `Album::group_by_parent` turns it into albums, one per directory that
//! holds files. `Album::validate` rejects albums mixing lossless and lossy
//! audio.

use vstd::prelude::*;
use crate::paths::{is_lossless, is_lossy, is_lossless_file, is_lossy_file, parent_spec, parent_of};

verus! {

/// A directory (`path`) together with the files whose immediate parent it is.
#[derive(Debug)]
pub struct Album {
    pub path: String,
    pub files: Vec<String>,
}

/// Some file of the collection has the lossless extension.
pub open spec fn album_has_lossless(files: Seq<String>) -> bool {
    exists|i: int| 0 <= i < files.len() && is_lossless(#[trigger] files[i]@)
}

/// Some file of the collection has the lossy extension.
pub open spec fn album_has_lossy(files: Seq<String>) -> bool {
    exists|i: int| 0 <= i < files.len() && is_lossy(#[trigger] files[i]@)
}

/// An album is valid unless it mixes lossless and lossy audio.
pub open spec fn album_valid(files: Seq<String>) -> bool {
    !(album_has_lossless(files) && album_has_lossy(files))
}

/// `p` occurs in `files`.
pub open spec fn contains_str(files: Seq<String>, p: Seq<char>) -> bool {
    exists|i: int| 0 <= i < files.len() && #[trigger] files[i]@ == p
}

/// `p` occurs among the album's files.
pub open spec fn album_contains(album: Album, p: Seq<char>) -> bool {
    contains_str(album.files@, p)
}

/// Every album holds at least one file.
pub open spec fn albums_nonempty(albums: Seq<Album>) -> bool {
    forall|a: int| 0 <= a < albums.len() ==> #[trigger] albums[a].files@.len() > 0
}

/// Every file of every album lies directly in that album's directory.
pub open spec fn albums_files_match_path(albums: Seq<Album>) -> bool {
    forall|a: int, i: int|
        0 <= a < albums.len() && 0 <= i < albums[a].files@.len() ==> parent_spec(
            #[trigger] albums[a].files@[i]@,
        ) == Some(albums[a].path@)
}

/// No two albums share a directory.
pub open spec fn albums_distinct(albums: Seq<Album>) -> bool {
    forall|a1: int, a2: int|
        #![trigger albums[a1].path@, albums[a2].path@]
        0 <= a1 < a2 < albums.len() ==> albums[a1].path@ != albums[a2].path@
}

/// Every input file with a parent directory appears in an album for that
/// directory.
pub open spec fn albums_cover_files(files: Seq<String>, albums: Seq<Album>) -> bool {
    forall|f: int|
        0 <= f < files.len() && parent_spec(#[trigger] files[f]@) is Some ==> exists|a: int|
            0 <= a < albums.len() && Some(#[trigger] albums[a].path@) == parent_spec(files[f]@)
                && album_contains(albums[a], files[f]@)
}

/// Every album holds every input file of its directory.
pub open spec fn albums_complete(files: Seq<String>, albums: Seq<Album>) -> bool {
    forall|a: int, f: int|
        0 <= a < albums.len() && 0 <= f < files.len() && parent_spec(#[trigger] files[f]@) == Some(
            #[trigger] albums[a].path@,
        ) ==> album_contains(albums[a], files[f]@)
}

/// Every album file comes from the input collection.
pub open spec fn albums_from_files(files: Seq<String>, albums: Seq<Album>) -> bool {
    forall|a: int, i: int|
        0 <= a < albums.len() && 0 <= i < albums[a].files@.len() ==> contains_str(
            files,
            #[trigger] albums[a].files@[i]@,
        )
}

/// The grouping contract: `albums` partitions `files` by parent directory.
pub open spec fn grouped(files: Seq<String>, albums: Seq<Album>) -> bool {
    &&& albums_nonempty(albums)
    &&& albums_files_match_path(albums)
    &&& albums_distinct(albums)
    &&& albums_cover_files(files, albums)
    &&& albums_complete(files, albums)
    &&& albums_from_files(files, albums)
}

impl Album {
    /// An album from its directory and files.
    pub fn new(path: String, files: Vec<String>) -> (album: Album)
        ensures
            album.path == path,
            album.files == files,
    {
        Album { path, files }
    }

    /// True unless the album mixes lossless and lossy audio files
    /// (case-insensitively); other file types never invalidate an album.
    pub fn validate(&self) -> (r: bool)
        ensures
            r == album_valid(self.files@),
    {
        let has_lossless = any_lossless(&self.files);
        let has_lossy = any_lossy(&self.files);
        !(has_lossless && has_lossy)
    }

    /// Groups the discovered files into albums, one per directory that
    /// directly holds files; files without a parent directory are dropped.
    pub fn group_by_parent(files: &Vec<String>) -> (albums: Vec<Album>)
        ensures
            grouped(files@, albums@),
    {
        let mut albums: Vec<Album> = Vec::new();
        let mut k: usize = 0;
        while k < files.len()
            invariant
                k <= files@.len(),
                albums_nonempty(albums@),
                albums_files_match_path(albums@),
                albums_distinct(albums@),
                albums_complete(files@, albums@),
                albums_from_files(files@, albums@),
                forall|f: int|
                    0 <= f < k && parent_spec(#[trigger] files@[f]@) is Some ==> exists|a: int|
                        0 <= a < albums@.len() && Some(#[trigger] albums@[a].path@) == parent_spec(
                            files@[f]@,
                        ) && album_contains(albums@[a], files@[f]@),
            decreases files@.len() - k,
        {
            let ghost albums0 = albums@;
            match parent_of(files[k].as_str()) {
                None => {},
                Some(par) => {
                    let ghost pv = par@;
                    if !album_with_path_exists(&albums, &par) {
                        let members = files_with_parent(files, &par);
                        proof {
                            assert(contains_str(members@, files@[k as int]@));
                        }
                        let album = Album::new(par, members);
                        albums.push(album);
                        proof {
                            assert(albums@[albums@.len() - 1].path@ == pv);
                        }
                    }
                    proof {
                        let a = choose|a: int|
                            0 <= a < albums@.len() && #[trigger] albums@[a].path@ == pv;
                        assert(parent_spec(files@[k as int]@) == Some(albums@[a].path@));
                        assert(album_contains(albums@[a], files@[k as int]@));
                    }
                },
            }
            proof {
                assert forall|f: int|
                    0 <= f < k + 1 && parent_spec(#[trigger] files@[f]@) is Some implies exists|
                    a: int,
                |
                    0 <= a < albums@.len() && Some(#[trigger] albums@[a].path@) == parent_spec(
                        files@[f]@,
                    ) && album_contains(albums@[a], files@[f]@) by {
                    if f < k {
                        let a0 = choose|a: int|
                            0 <= a < albums0.len() && Some(#[trigger] albums0[a].path@)
                                == parent_spec(files@[f]@) && album_contains(albums0[a], files@[f]@);
                        assert(0 <= a0 < albums@.len() && Some(albums@[a0].path@) == parent_spec(
                            files@[f]@,
                        ) && album_contains(albums@[a0], files@[f]@));
                    }
                }
            }
            k = k + 1;
        }
        albums
    }
}

/// Some file of the collection has the lossless extension.
fn any_lossless(files: &Vec<String>) -> (r: bool)
    ensures
        r == album_has_lossless(files@),
{
    let mut k: usize = 0;
    while k < files.len()
        invariant
            k <= files@.len(),
            forall|j: int| 0 <= j < k ==> !is_lossless(#[trigger] files@[j]@),
        decreases files@.len() - k,
    {
        if is_lossless_file(files[k].as_str()) {
            return true;
        }
        k = k + 1;
    }
    false
}

/// Some file of the collection has the lossy extension.
fn any_lossy(files: &Vec<String>) -> (r: bool)
    ensures
        r == album_has_lossy(files@),
{
    let mut k: usize = 0;
    while k < files.len()
        invariant
            k <= files@.len(),
            forall|j: int| 0 <= j < k ==> !is_lossy(#[trigger] files@[j]@),
        decreases files@.len() - k,
    {
        if is_lossy_file(files[k].as_str()) {
            return true;
        }
        k = k + 1;
    }
    false
}

/// Whether some album already has directory `p`.
fn album_with_path_exists(albums: &Vec<Album>, p: &String) -> (r: bool)
    ensures
        r == exists|a: int| 0 <= a < albums@.len() && #[trigger] albums@[a].path@ == p@,
{
    let mut k: usize = 0;
    while k < albums.len()
        invariant
            k <= albums@.len(),
            forall|a: int| 0 <= a < k ==> #[trigger] albums@[a].path@ != p@,
        decreases albums@.len() - k,
    {
        if albums[k].path == *p {
            return true;
        }
        k = k + 1;
    }
    false
}

/// All input files whose parent directory is `dir`.
fn files_with_parent(files: &Vec<String>, dir: &String) -> (out: Vec<String>)
    ensures
        forall|i: int| 0 <= i < out@.len() ==> parent_spec(#[trigger] out@[i]@) == Some(dir@),
        forall|i: int| 0 <= i < out@.len() ==> contains_str(files@, #[trigger] out@[i]@),
        forall|f: int|
            0 <= f < files@.len() && parent_spec(#[trigger] files@[f]@) == Some(dir@)
                ==> contains_str(out@, files@[f]@),
{
    let mut out: Vec<String> = Vec::new();
    let mut k: usize = 0;
    while k < files.len()
        invariant
            k <= files@.len(),
            forall|i: int| 0 <= i < out@.len() ==> parent_spec(#[trigger] out@[i]@) == Some(dir@),
            forall|i: int| 0 <= i < out@.len() ==> contains_str(files@, #[trigger] out@[i]@),
            forall|f: int|
                0 <= f < k && parent_spec(#[trigger] files@[f]@) == Some(dir@) ==> contains_str(
                    out@,
                    files@[f]@,
                ),
        decreases files@.len() - k,
    {
        let keep = match parent_of(files[k].as_str()) {
            Some(par) => par == *dir,
            None => false,
        };
        if keep {
            let ghost out0 = out@;
            out.push(files[k].clone());
            proof {
                assert(out@[out@.len() - 1]@ == files@[k as int]@);
                assert forall|f: int|
                    0 <= f < k + 1 && parent_spec(#[trigger] files@[f]@) == Some(
                        dir@,
                    ) implies contains_str(out@, files@[f]@) by {
                    if f < k {
                        let i = choose|i: int|
                            0 <= i < out0.len() && #[trigger] out0[i]@ == files@[f]@;
                        assert(out@[i]@ == files@[f]@);
                    } else {
                        assert(out@[out@.len() - 1]@ == files@[f]@);
                    }
                }
            }
        }
        k = k + 1;
    }
    out
}

/// An album whose files are of at most one audio format is valid.
pub proof fn lemma_uniform_album_valid(files: Seq<String>)
    requires
        (forall|i: int| 0 <= i < files.len() ==> !is_lossless(#[trigger] files[i]@)) || (forall|
            i: int,
        | 0 <= i < files.len() ==> !is_lossy(#[trigger] files[i]@)),
    ensures
        album_valid(files),
{
}

/// An album holding both a lossless and a lossy file is invalid.
pub proof fn lemma_mixed_album_invalid(files: Seq<String>, i: int, j: int)
    requires
        0 <= i < files.len(),
        0 <= j < files.len(),
        is_lossless(files[i]@),
        is_lossy(files[j]@),
    ensures
        !album_valid(files),
{
    assert(album_has_lossless(files));
    assert(album_has_lossy(files));
}

/// Files of one album share one parent directory: the album's own path.
pub proof fn lemma_album_files_share_parent(albums: Seq<Album>, a: int, i: int, j: int)
    requires
        albums_files_match_path(albums),
        0 <= a < albums.len(),
        0 <= i < albums[a].files@.len(),
        0 <= j < albums[a].files@.len(),
    ensures
        parent_spec(albums[a].files@[i]@) == parent_spec(albums[a].files@[j]@),
{
}

/// Grouped albums partition the files: a path appearing in two albums
/// appears in one and the same album.
pub proof fn lemma_grouping_partitions(
    files: Seq<String>,
    albums: Seq<Album>,
    a1: int,
    a2: int,
    p: Seq<char>,
)
    requires
        grouped(files, albums),
        0 <= a1 < albums.len(),
        0 <= a2 < albums.len(),
        album_contains(albums[a1], p),
        album_contains(albums[a2], p),
    ensures
        a1 == a2,
{
    let i1 = choose|i: int| 0 <= i < albums[a1].files@.len() && #[trigger] albums[a1].files@[i]@ == p;
    let i2 = choose|i: int| 0 <= i < albums[a2].files@.len() && #[trigger] albums[a2].files@[i]@ == p;
    assert(parent_spec(p) == Some(albums[a1].path@));
    assert(parent_spec(p) == Some(albums[a2].path@));
}

} // verus!
