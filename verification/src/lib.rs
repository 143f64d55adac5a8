pub mod allocator;
pub mod contract;
pub mod env;
pub mod error;
pub mod identity;
pub mod level;
pub mod lists;
pub mod model;
pub mod owners;
pub mod record;
pub mod store;
pub mod theorems;
pub mod wellformed;

pub use allocator::IdAllocator;
pub use contract::NFTMergeContract;
pub use env::{Authorization, Env};
pub use error::{Error, Namespace};
pub use identity::Identity;
pub use level::merge_level;
pub use owners::OwnerIndex;
pub use record::{DataKey, MergeRecipe, NFT};
pub use store::{AssetStore, RecipeStore};
