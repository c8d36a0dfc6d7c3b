//! Modrinth's records of resource pack projects and versions, as the
//! API returns them, and the choice of a version's downloadable zip.

use vstd::prelude::*;

use crate::text::{ends_with, str_ends_with};

verus! {

/// The Modrinth API v2 endpoint.
pub const MODRINTH_API_BASE: &'static str = "https://api.modrinth.com/v2";

/// The Minecraft version resource packs are searched for and checked
/// against.
pub const GAME_VERSION: &'static str = "1.8.9";

/// One project of a search result.
pub struct SearchHit {
    pub project_id: String,
    pub slug: String,
    pub title: String,
    pub description: String,
    pub downloads: u64,
    pub icon_url: Option<String>,
}

/// A page of search results.
pub struct SearchResponse {
    pub hits: Vec<SearchHit>,
    pub total_hits: u64,
}

/// The hashes Modrinth reports for a file.
pub struct FileHashes {
    pub sha1: Option<String>,
    pub sha512: Option<String>,
}

/// One downloadable file of a version.
pub struct VersionFile {
    pub hashes: FileHashes,
    pub url: String,
    pub filename: String,
    pub primary: bool,
}

/// One version of a project.
pub struct Version {
    pub id: String,
    pub version_number: String,
    pub game_versions: Vec<String>,
    pub files: Vec<VersionFile>,
}

/// The file is a `.zip` by name.
pub open spec fn is_zip(f: VersionFile) -> bool {
    str_ends_with(f.filename@, ".zip"@)
}

/// The file is a `.zip` marked primary.
pub open spec fn is_primary_zip(f: VersionFile) -> bool {
    f.primary && is_zip(f)
}

/// `files[i]` is the first file satisfying `p`.
pub open spec fn first_with(files: Seq<VersionFile>, i: int, p: spec_fn(VersionFile) -> bool) -> bool {
    &&& 0 <= i < files.len()
    &&& p(files[i])
    &&& forall|j: int| 0 <= j < i ==> !p(#[trigger] files[j])
}

/// The index of the first file satisfying `p`, if any.
fn find_first(files: &Vec<VersionFile>, primary_only: bool) -> (r: Option<usize>)
    ensures
        match r {
            Some(i) => first_with(
                files@,
                i as int,
                if primary_only {
                    |f: VersionFile| is_primary_zip(f)
                } else {
                    |f: VersionFile| is_zip(f)
                },
            ),
            None => forall|j: int|
                0 <= j < files@.len() ==> !(if primary_only {
                    is_primary_zip(#[trigger] files@[j])
                } else {
                    is_zip(files@[j])
                }),
        },
{
    let mut i: usize = 0;
    while i < files.len()
        invariant
            i <= files@.len(),
            forall|j: int|
                0 <= j < i ==> !(if primary_only {
                    is_primary_zip(#[trigger] files@[j])
                } else {
                    is_zip(files@[j])
                }),
        decreases files.len() - i,
    {
        let f = &files[i];
        let zip = ends_with(f.filename.as_str(), ".zip");
        if (!primary_only || f.primary) && zip {
            return Some(i);
        }
        i = i + 1;
    }
    None
}

impl Version {
    /// The version's primary `.zip` file, or its first `.zip` file when
    /// none is marked primary; resource pack versions should have
    /// exactly one download.
    pub fn zip_file(&self) -> (r: Option<&VersionFile>)
        ensures
            (exists|i: int| 0 <= i < self.files@.len() && is_primary_zip(#[trigger] self.files@[i]))
                ==> exists|i: int|
                first_with(self.files@, i, |f: VersionFile| is_primary_zip(f)) && r == Some(
                    &self.files@[i],
                ),
            !(exists|i: int| 0 <= i < self.files@.len() && is_primary_zip(#[trigger] self.files@[i]))
                ==> match r {
                Some(f) => exists|i: int|
                    first_with(self.files@, i, |f: VersionFile| is_zip(f)) && *f == self.files@[i],
                None => forall|j: int| 0 <= j < self.files@.len() ==> !is_zip(#[trigger] self.files@[j]),
            },
    {
        match find_first(&self.files, true) {
            Some(i) => Some(&self.files[i]),
            None => match find_first(&self.files, false) {
                Some(i) => Some(&self.files[i]),
                None => None,
            },
        }
    }
}

} // verus!
