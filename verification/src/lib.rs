pub mod laws;
pub mod node;
pub mod tree;

pub use node::TreeNode;
pub use tree::RemoveResult;
pub use tree::Tree;
pub use tree::TreeType;
pub use tree::WeakRef;
