//! What a repository and its releases are.

pub mod release;
pub mod repo;

pub use release::{choose_asset, Asset, FindAssetError, Release};
pub use repo::{Repository, RepositoryError};
