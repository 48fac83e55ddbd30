//! What every rewriting rule offers, and how a rule set can be refused.

use crate::record::{Record, RecordView};
use crate::template::{TemplateError, TemplateFault};
use vstd::prelude::*;

verus! {

/// Why a rule set could not be built.
#[derive(Debug, PartialEq, Eq)]
pub enum ConfigError {
    /// The named search pattern is not a valid regular expression.
    InvalidPattern(String),
    /// An alias of the named payee is not a valid regular expression.
    InvalidAlias(String),
}

/// The mathematical content of a [`ConfigError`].
pub enum ConfigFault {
    InvalidPattern(Seq<char>),
    InvalidAlias(Seq<char>),
}

impl View for ConfigError {
    type V = ConfigFault;

    open spec fn view(&self) -> ConfigFault {
        match self {
            ConfigError::InvalidPattern(source) => ConfigFault::InvalidPattern(source@),
            ConfigError::InvalidAlias(payee) => ConfigFault::InvalidAlias(payee@),
        }
    }
}

/// What a rule makes of a record: the record it leaves and whether it
/// fired, or the template failure that stopped it.
pub type Applied = Result<(RecordView, bool), TemplateFault>;

/// A rule that can rewrite a record.
pub trait Transformer {
    /// Whether the rule applies to the record.
    spec fn matches(&self, r: RecordView) -> bool;

    /// What the rule makes of the record.
    spec fn applied(&self, r: RecordView) -> Applied;

    /// The record as the rule leaves it where a template failure stops it.
    spec fn stopped(&self, r: RecordView) -> RecordView;

    /// Whether the rule applies to `record`.
    fn is_match(&self, record: &Record) -> (yes: bool)
        requires
            record.wf(),
        ensures
            yes == self.matches(record@),
    ;

    /// Applies the rule to `record` and tells whether it fired. A rule that
    /// does not fire leaves the record as it was. A template failure is
    /// returned as the error, and the record then holds what was written
    /// before the failure.
    fn transform(&self, record: &mut Record) -> (fired: Result<bool, TemplateError>)
        requires
            old(record).wf(),
        ensures
            final(record).wf(),
            match self.applied(old(record)@) {
                Ok((after, did)) => fired == Ok::<bool, TemplateError>(did) && final(record)@
                    == after,
                Err(fault) => fired is Err && fired->Err_0@ == fault && final(record)@
                    == self.stopped(old(record)@),
            },
    ;
}

} // verus!
