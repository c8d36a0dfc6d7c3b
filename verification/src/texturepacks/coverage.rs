//! How much of the known texture list a pack's zip provides, so the
//! picker can say e.g. "187/240 textures — the rest use fallbacks".
//! A texture counts as provided when some zip entry ends with its path,
//! so a pack zipped with an extra top-level folder still counts.

use vstd::prelude::*;
use vstd::string::StringExecFns;

use crate::text::{ends_with, str_ends_with};
use crate::texturepacks::known_textures::{BLOCK_TEXTURES, ITEM_TEXTURES};

verus! {

/// What a pack covers of the known texture list.
pub struct CoverageReport {
    pub found: usize,
    pub total: usize,
    pub missing_blocks: Vec<String>,
    pub missing_items: Vec<String>,
}

/// The path of texture `name` of `category` ("blocks" or "items")
/// inside a resource pack.
pub open spec fn texture_path(category: Seq<char>, name: Seq<char>) -> Seq<char> {
    "assets/minecraft/textures/"@ + category + "/"@ + name + ".png"@
}

/// Some entry of the zip ends with the texture's path.
pub open spec fn provided(entries: Seq<String>, category: Seq<char>, name: Seq<char>) -> bool {
    exists|i: int| 0 <= i < entries.len() && str_ends_with(#[trigger] entries[i]@, texture_path(category, name))
}

/// How many of `names` the entries provide.
pub open spec fn provided_count(entries: Seq<String>, category: Seq<char>, names: Seq<&str>) -> nat
    decreases names.len(),
{
    if names.len() == 0 {
        0
    } else {
        provided_count(entries, category, names.drop_last()) + if provided(
            entries,
            category,
            names.last()@,
        ) {
            1nat
        } else {
            0nat
        }
    }
}

/// The names the entries do not provide, in list order.
pub open spec fn missing_names(entries: Seq<String>, category: Seq<char>, names: Seq<&str>) -> Seq<Seq<char>>
    decreases names.len(),
{
    if names.len() == 0 {
        Seq::empty()
    } else {
        let rest = missing_names(entries, category, names.drop_last());
        if provided(entries, category, names.last()@) {
            rest
        } else {
            rest.push(names.last()@)
        }
    }
}

/// The views of a list of strings.
pub open spec fn views(v: Seq<String>) -> Seq<Seq<char>> {
    v.map_values(|s: String| s@)
}

/// Every known name is either counted as found or listed as missing,
/// never both: found and missing add up to the list's length.
pub proof fn lemma_found_plus_missing(entries: Seq<String>, category: Seq<char>, names: Seq<&str>)
    ensures
        provided_count(entries, category, names) + missing_names(entries, category, names).len()
            == names.len(),
    decreases names.len(),
{
    if names.len() > 0 {
        lemma_found_plus_missing(entries, category, names.drop_last());
    }
}

/// A zip holding every texture's path (under any top-level folder)
/// covers the whole list: everything found, nothing missing.
pub proof fn lemma_full_coverage(entries: Seq<String>, category: Seq<char>, names: Seq<&str>)
    requires
        forall|k: int| 0 <= k < names.len() ==> provided(entries, category, #[trigger] names[k]@),
    ensures
        provided_count(entries, category, names) == names.len(),
        missing_names(entries, category, names) == Seq::<Seq<char>>::empty(),
    decreases names.len(),
{
    if names.len() > 0 {
        let init = names.drop_last();
        assert forall|k: int| 0 <= k < init.len() implies provided(entries, category, #[trigger] init[k]@) by {
            assert(init[k] == names[k]);
        }
        lemma_full_coverage(entries, category, init);
        assert(provided(entries, category, names[names.len() - 1]@));
    }
}

/// An empty zip provides nothing: nothing found, every name missing.
pub proof fn lemma_empty_pack(category: Seq<char>, names: Seq<&str>)
    ensures
        provided_count(Seq::<String>::empty(), category, names) == 0,
        missing_names(Seq::<String>::empty(), category, names) == names.map_values(|n: &str| n@),
    decreases names.len(),
{
    if names.len() > 0 {
        lemma_empty_pack(category, names.drop_last());
        assert(names.map_values(|n: &str| n@) =~= names.drop_last().map_values(|n: &str| n@).push(
            names.last()@,
        ));
    }
}

/// `assets/minecraft/textures/<category>/<name>.png`.
pub fn category_path(category: &str, name: &str) -> (p: String)
    ensures
        p@ == texture_path(category@, name@),
{
    let mut p = String::from_str("assets/minecraft/textures/");
    p.append(category);
    p.append("/");
    p.append(name);
    p.append(".png");
    p
}

/// Whether some entry ends with `path`.
fn any_ends_with(entries: &[String], path: &str) -> (b: bool)
    ensures
        b == exists|i: int| 0 <= i < entries@.len() && str_ends_with(#[trigger] entries@[i]@, path@),
{
    let mut i: usize = 0;
    while i < entries.len()
        invariant
            i <= entries@.len(),
            forall|j: int| 0 <= j < i ==> !str_ends_with(#[trigger] entries@[j]@, path@),
        decreases entries.len() - i,
    {
        if ends_with(entries[i].as_str(), path) {
            return true;
        }
        i = i + 1;
    }
    false
}

/// Counts the names of `category` the entries provide and lists the
/// others.
fn scan_category(entries: &[String], category: &str, names: &[&str]) -> (r: (usize, Vec<String>))
    ensures
        r.0 <= names@.len(),
        r.0 == provided_count(entries@, category@, names@),
        views(r.1@) == missing_names(entries@, category@, names@),
{
    let mut found: usize = 0;
    let mut missing: Vec<String> = Vec::new();
    let mut i: usize = 0;
    while i < names.len()
        invariant
            i <= names@.len(),
            found <= i,
            found == provided_count(entries@, category@, names@.take(i as int)),
            views(missing@) == missing_names(entries@, category@, names@.take(i as int)),
        decreases names.len() - i,
    {
        let name = names[i];
        let path = category_path(category, name);
        let hit = any_ends_with(entries, path.as_str());
        assert(names@.take(i + 1).drop_last() =~= names@.take(i as int));
        if hit {
            found = found + 1;
        } else {
            let ghost before = missing@;
            missing.push(String::from_str(name));
            assert(views(missing@) =~= views(before).push(name@));
        }
        i = i + 1;
    }
    assert(names@.take(names@.len() as int) =~= names@);
    (found, missing)
}

/// The coverage report of a pack whose zip holds `entries`.
pub fn check_coverage(entries: &[String]) -> (report: CoverageReport)
    ensures
        report.found == provided_count(entries@, "blocks"@, BLOCK_TEXTURES@) + provided_count(
            entries@,
            "items"@,
            ITEM_TEXTURES@,
        ),
        report.total == BLOCK_TEXTURES@.len() + ITEM_TEXTURES@.len(),
        views(report.missing_blocks@) == missing_names(entries@, "blocks"@, BLOCK_TEXTURES@),
        views(report.missing_items@) == missing_names(entries@, "items"@, ITEM_TEXTURES@),
{
    let (found_blocks, missing_blocks) = scan_category(entries, "blocks", BLOCK_TEXTURES.as_slice());
    let (found_items, missing_items) = scan_category(entries, "items", ITEM_TEXTURES.as_slice());
    CoverageReport {
        found: found_blocks + found_items,
        total: BLOCK_TEXTURES.len() + ITEM_TEXTURES.len(),
        missing_blocks,
        missing_items,
    }
}

} // verus!
