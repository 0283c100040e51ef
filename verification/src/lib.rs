//! Plan-and-envelope verification core: selectors and predicates over a YAML
//! fact document, a compiled rule evaluator, and a keyed verification stamp.

pub mod text;
pub mod assoc;
pub mod value;
pub mod selector;
pub mod numeric;
pub mod rulespec;
pub mod envelope;
pub mod pattern;
pub mod evaluate;
pub mod datalog;
pub mod tolerance;
pub mod program;
pub mod siphash;
pub mod canonical;
pub mod yaml;
pub mod decode;
pub mod base64url;
pub mod token;
pub mod pipeline;
pub mod plan;
pub mod project;
pub mod terminal;
pub mod prompt;
pub mod research;
pub mod report;
pub mod tool;
pub mod xml;
pub mod toolsets;
pub mod skills;
