//! An entity-component store with generational handles, sparse-set
//! storages and a declarative query engine, verified with Verus.
//!
//! * [`ecs`] holds the store: entity handles, the storage of one component
//!   type, the world that owns entities and storages, the query language and
//!   the engine that evaluates a query against a world.
//! * [`components`] holds the component types that the world knows: the
//!   name and the transform of an entity.
//! * [`scalar`] and [`math`] hold numbers. A number is an IEEE-754 binary64
//!   bit pattern; the library stores, compares and orders numbers and never
//!   calculates with them.
//! * [`json`] holds the values of queried fields; [`text`] the comparison of
//!   strings.
//! * [`subscription`] decides which results of watched queries are news.
//! * [`host`] holds the operations of a host on entities by packed id;
//!   [`picking`] the choice among hits; [`gizmo`] the names of the gizmo's
//!   modes and axes.
//!
//! Every data type has a mathematical view, and every function a contract
//! over those views. The laws that relate several functions are public
//! proof functions beside them.

pub mod components;
pub mod ecs;
pub mod gizmo;
pub mod host;
pub mod json;
pub mod math;
pub mod picking;
pub mod scalar;
pub mod subscription;
pub mod text;

pub use components::{Name, Transform};
pub use ecs::{
    CompareOp, Component, ComponentFilter, ComponentStorage, EntityId, FilterExpr, FilterValue,
    OrderBy, QueryDescriptor, QueryResult, QueryResultRow, SortDirection, World,
};
pub use gizmo::{GizmoAxis, GizmoMode};
pub use json::{FieldMap, JsonNumber, JsonValue};
pub use math::{Quat, Vec3};
pub use scalar::{Order, Scalar};
pub use subscription::{QuerySubscription, QuerySubscriptionManager};
