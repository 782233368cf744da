//! A local store of tasks, artifacts and review annotations.

pub mod app;
pub mod behaviour;
pub mod bind;
pub mod changes;
pub mod cli;
pub mod command_laws;
pub mod dump;
pub mod error;
pub mod export_laws;
pub mod gates;
pub mod grep;
pub mod ident;
pub mod laws;
pub mod like;
pub mod markdown;
pub mod model;
pub mod order;
pub mod output_laws;
pub mod password;
pub mod readback;
pub mod record_laws;
pub mod review;
pub mod schema;
pub mod search_laws;
pub mod server_laws;
pub mod service;
pub mod service_laws;
pub mod skill;
pub mod state;
pub mod store;
pub mod text;
pub mod text_laws;
pub mod web;

pub use crate::app::App;
pub use crate::bind::parse_bind_address;
pub use crate::markdown::render_markdown;
pub use crate::model::{
    Annotation, AnnotationKind, Artifact, ArtifactInfo, GrepMatch, NewAnnotation, Task,
};
pub use crate::service::ServerEndpoint;
pub use crate::skill::AGENT_SKILL;
