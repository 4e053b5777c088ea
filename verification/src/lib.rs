//! Upkeep of an artifact registry: what retention deletes, what garbage
//! collection sweeps, and how a hosted rpm repository describes itself.

pub mod text;
pub mod path;
pub mod order;
pub mod versions;
pub mod glob;
pub mod retention;
pub mod json;
pub mod digest;
pub mod table;
pub mod grouping;
pub mod collect;
pub mod collect_laws;
pub mod sidecar;
pub mod retention_run;
pub mod retention_laws;
pub mod docker_gc;
pub mod docker_laws;
pub mod registry_gc;
pub mod phantoms;
pub mod phantom_laws;
pub mod proxy_cache;
pub mod cache_laws;
pub mod gc;
pub mod gc_laws;
pub mod sweep;
pub mod registry_laws;
pub mod rpm_package;
pub mod rpm_record;
pub mod xml;
pub mod repodata;
pub mod repodata_laws;
pub mod element_laws;
pub mod record_laws;
pub mod repomd;
pub mod rpm_repo;
pub mod changes;
pub mod reindex;
pub mod repo_laws;
pub mod cleanup;
pub mod view_laws;
