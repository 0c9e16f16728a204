//! A verified engine for deriving structural JSON Typedef schema documents
//! from declared data types.

pub mod gen;
pub mod model;
pub mod names;
pub mod naming;
pub mod registry;
pub mod schema;

pub use gen::GenError;
pub use gen::Generator;
pub use gen::GeneratorBuilder;
pub use model::Inlining;
pub use names::Names;
pub use registry::Fragment;
pub use registry::FragmentType;
pub use registry::Registry;
pub use registry::TypeId;
pub use registry::TypeInfo;
