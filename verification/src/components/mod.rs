pub mod name;
pub mod transform;

pub use name::Name;
pub use transform::Transform;
