//! Ban newsletter logic: embed templates, event selection, text rendering and
//! SQL generation for the ban notification service.

pub mod text;
pub mod i18n;
pub mod embed;
pub mod xml;
pub mod events;
pub mod time;
pub mod render;
pub mod sql;
pub mod channels;
pub mod schema;
pub mod delivery;
