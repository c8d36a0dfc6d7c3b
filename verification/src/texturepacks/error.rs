//! What can go wrong while fetching, caching or loading a texture pack.

use vstd::prelude::*;

verus! {

/// `reqwest::Error`, from a request to Modrinth that failed.
#[verifier::external_type_specification]
#[verifier::external_body]
pub struct ExRequestError(reqwest::Error);

/// `zip::result::ZipError`, from reading a pack's archive.
#[verifier::external_type_specification]
#[verifier::external_body]
pub struct ExZipError(zip::result::ZipError);

/// `serde_json::Error`, from a JSON reply or `pack.mcmeta`.
#[verifier::external_type_specification]
#[verifier::external_body]
pub struct ExJsonError(serde_json::Error);

/// `image::ImageError`, from decoding a texture.
#[verifier::external_type_specification]
#[verifier::external_body]
pub struct ExImageError(image::ImageError);

/// Everything that can go wrong with texture packs.
#[derive(Debug)]
pub enum TexturePackError {
    /// A network request to Modrinth failed.
    Request(reqwest::Error),
    Io(std::io::Error),
    Zip(zip::result::ZipError),
    Json(serde_json::Error),
    Image(image::ImageError),
    /// No cache directory could be determined.
    NoCacheDir,
    /// The version has no downloadable `.zip` file.
    NoZipFile,
    /// The downloaded file's SHA-1 is not the one Modrinth reported.
    HashMismatch { expected: String, actual: String },
    /// `pack.mcmeta` is missing or invalid.
    InvalidPackMeta(String),
}

} // verus!
