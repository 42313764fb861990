pub mod cache_config;
pub mod cbor;
pub mod component_api;
pub mod contract_cache;
pub mod disk;
pub mod engine_profile;
pub mod gtbind;
pub mod hashing;
pub mod i18n;
pub mod introspection;
pub mod jsonval;
pub mod keys;
pub mod manager;
pub mod memory;
pub mod metadata;
pub mod metrics;
pub mod operator;
pub mod packsrc;
pub mod provider;
pub mod provider_core_only;
pub mod registry;
pub mod schema_validator;
pub mod strutil;
pub mod templating;
