//! Builder and encoder model for HAL (Hypertext Application Language)
//! resources: a payload, a status code, a header multimap and a map from
//! relation name to one or many links.

pub mod header;
pub mod links;
pub mod multimap;
pub mod order;
pub mod relations;
pub mod response;
pub mod status;

pub use header::{HeaderName, HeaderNameError, HeaderValueError, Headers};
pub use links::{Link, LinkView, Links, LinksView};
pub use relations::RelationMap;
pub use response::{HalPayload, HalRespondable, HalView, IntoHal};
pub use status::StatusCode;
