use vstd::prelude::*;

verus! {

/// Every failure this library reports.
///
/// Errors raised by the underlying event source or sink are carried as their
/// rendered message in `source`; path queries and value conversions carry the
/// offending path or text in `t`.
#[derive(Debug)]
pub enum TreexmlError {
    ElementNotFound { t: String },
    ValueFromStr { t: String },
    ParseError { source: String },
    WriteError { source: String },
}

impl TreexmlError {
    /// A short human-readable description of the error.
    pub fn message(&self) -> (r: String)
        ensures
            r@ == match self {
                TreexmlError::ElementNotFound { t } => "Element not found: '"@ + t@ + "'"@,
                TreexmlError::ValueFromStr { t } => "Value could not be parsed: '"@ + t@ + "'"@,
                TreexmlError::ParseError { source } => "Parse error: '"@ + source@ + "'"@,
                TreexmlError::WriteError { source } => "Write error: '"@ + source@ + "'"@,
            },
    {
        let (head, tail) = match self {
            TreexmlError::ElementNotFound { t } => ("Element not found: '", t),
            TreexmlError::ValueFromStr { t } => ("Value could not be parsed: '", t),
            TreexmlError::ParseError { source } => ("Parse error: '", source),
            TreexmlError::WriteError { source } => ("Write error: '", source),
        };
        let mut r = head.to_owned();
        r.append(tail.as_str());
        r.append("'");
        r
    }
}

} // verus!
