//! Texture pack bookkeeping: the known 1.8.9 texture names, atlas keys,
//! coverage of a pack's zip, the download cache's naming and hash
//! checks, Modrinth's version records, `pack.mcmeta` metadata, the
//! neutral fallback tiles and the atlas layout.

pub mod archive;
pub mod atlas;
pub mod cache;
pub mod coverage;
pub mod error;
pub mod fallback;
pub mod known_textures;
pub mod load;
pub mod modrinth;
pub mod pack;
