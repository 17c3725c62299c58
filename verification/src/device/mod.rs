//! Dynamic device descriptions and exact-revision catalogs.

pub mod catalog;
pub mod schema;

pub use catalog::{
    CatalogLimits, CatalogLoadError, DeviceCatalog, DeviceKey, DeviceProfile,
    ResponseCodeDefinition, ResponseCodeStatus, DEFAULT_MAXIMUM_CATALOG_JSON_BYTES,
    DEFAULT_MAXIMUM_CATALOG_PROFILES, MAXIMUM_CATALOG_JSON_BYTES, MAXIMUM_CATALOG_PROFILES,
    MAXIMUM_PROFILE_COMMANDS, MAXIMUM_PROFILE_TEXT_BYTES,
};
pub use schema::{
    DataSchema, DynamicRecord, DynamicValue, EnumChoice, FieldKind, FieldSpec, NamedValue,
    SchemaError, SchemaErrorView, ValueView, MAXIMUM_SCHEMA_FIELDS, MAXIMUM_SCHEMA_NAME_BYTES,
};
