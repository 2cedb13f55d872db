pub mod detect;
pub mod double;
pub mod exemplars;
pub mod geiger;
pub mod github;
pub mod laws;
pub mod order;
pub mod origins;
pub mod pipeline;
pub mod rounding;
pub mod site;
pub mod store;
pub mod sums;
pub mod text;
pub mod text_model;
pub mod types;
