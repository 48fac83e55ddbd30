//! Normalises bank-exported transaction rows into five-column budgeting
//! records and rewrites them with declarative rules.

pub mod chain;
pub mod dates;
pub mod decimal;
pub mod matcher;
pub mod parser;
pub mod pattern;
pub mod payees;
pub mod record;
pub mod rule;
pub mod template;
pub mod text;

pub use chain::{MrClean, Rule, Rules};
pub use decimal::DecimalSeparator;
pub use matcher::{Matcher, MatcherBuilder};
pub use parser::{Parser, ReadError};
pub use payees::Payees;
pub use record::{ExtraField, Field, Record, RecordError, YnabRecord};
pub use rule::{ConfigError, Transformer};
pub use template::TemplateError;
