//! Turns declarative API schema documents into generated client modules: a
//! normalizer that resolves internal references and strips null fields, a
//! type resolver that infers a canonical type representation from the many
//! equivalent schema shapes, an assembler that builds each path and
//! method's operation model, and three emitters that render a static type,
//! a runtime validator and a request function from that one representation.
//! Reading control files, fetching documents and writing output stay
//! outside.

pub mod document;
pub mod error_process;
pub mod filters;
pub mod fix_url_param;
pub mod generate_js;
pub mod json;
pub mod open_api_spec;
pub mod open_api_type;
pub mod parse_spec;
pub mod parse_type;
pub mod read_wanted_spec;
pub mod run_gen;
pub mod text;
pub mod utils;
