pub mod component;
pub mod engine;
pub mod entity;
pub mod query;
pub mod storage;
pub mod world;

pub use component::Component;
pub use entity::EntityId;
pub use query::{
    CompareOp, ComponentFilter, FilterExpr, FilterValue, OrderBy, QueryDescriptor, QueryResult,
    QueryResultRow, SortDirection,
};
pub use storage::ComponentStorage;
pub use world::{EntityMeta, Registered, World};
