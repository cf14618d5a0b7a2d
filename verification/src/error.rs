//! The configuration errors: all of them are reported before any conversion
//! runs, and the conversion itself never fails on any input string.

use vstd::prelude::*;
use vstd::string::StringExecFns;

verus! {

/// An invalid configuration handed by a caller.
#[derive(Clone, Debug, PartialEq, Eq)]
pub enum ConversionError {
    /// A supplied style name matches no registry entry.
    UnknownCase { raw: String },
    /// A supplied pattern name matches no catalog entry.
    UnknownPattern { raw: String },
    /// Mutually exclusive options were supplied together: a source style
    /// with a custom boundary string, or a target style with a raw pattern
    /// or delimiter override.
    ConflictingOptions,
    /// No target style or pattern override was given, or no input at all.
    MissingRequired,
}

impl ConversionError {
    /// The error's message.
    pub open spec fn message_spec(self) -> Seq<char> {
        match self {
            ConversionError::UnknownCase { raw } => "'"@ + raw@
                + "' is not a valid case.  See ccase --help for list of cases."@,
            ConversionError::UnknownPattern { raw } => "'"@ + raw@
                + "' is not a valid pattern.  See ccase --help for list of patterns."@,
            ConversionError::ConflictingOptions => "these options cannot be used together"@,
            ConversionError::MissingRequired => "a required option or input is missing"@,
        }
    }

    /// The error's message.
    pub fn message(&self) -> (r: String)
        ensures
            r@ == self.message_spec(),
    {
        match self {
            ConversionError::UnknownCase { raw } => {
                let mut m = String::from_str("'");
                m.append(raw.as_str());
                m.append("' is not a valid case.  See ccase --help for list of cases.");
                m
            },
            ConversionError::UnknownPattern { raw } => {
                let mut m = String::from_str("'");
                m.append(raw.as_str());
                m.append("' is not a valid pattern.  See ccase --help for list of patterns.");
                m
            },
            ConversionError::ConflictingOptions => String::from_str(
                "these options cannot be used together",
            ),
            ConversionError::MissingRequired => String::from_str(
                "a required option or input is missing",
            ),
        }
    }
}

} // verus!
