//! Errors, raw stream items, and the `Expandable` capability for input
//! sources that can take more data.

use vstd::prelude::*;
use crate::types::IonType;

verus! {

/// The failures a writer or reader can report. No user-data-driven condition
/// panics.
#[derive(Clone, Copy, Debug, PartialEq, Eq)]
pub enum IonError {
    /// The caller asked the binary encoder for something it cannot represent,
    /// such as a text symbol or a textual annotation.
    IllegalOperation,
    /// The input stream is malformed, truncated, or uses an unsupported
    /// construct (such as shared symbol table imports).
    DecodingError,
}

/// The components a raw reader may encounter in a stream.
#[derive(Debug, Eq, PartialEq, Copy, Clone)]
pub enum RawStreamItem {
    VersionMarker(u8, u8),
    Value(IonType),
    Null(IonType),
    Nothing,
}

impl RawStreamItem {
    /// Returns an appropriate `RawStreamItem` based on the `ion_type` and
    /// nullability.
    pub fn nullable_value(ion_type: IonType, is_null: bool) -> (r: RawStreamItem)
        ensures
            r == if is_null {
                RawStreamItem::Null(ion_type)
            } else {
                RawStreamItem::Value(ion_type)
            },
    {
        if is_null {
            RawStreamItem::Null(ion_type)
        } else {
            RawStreamItem::Value(ion_type)
        }
    }
}

/// Whether an input type supports adding more data.
pub trait Expandable {
    fn expandable(&self) -> bool;
}

impl Expandable for Vec<u8> {
    fn expandable(&self) -> bool {
        true
    }
}

} // verus!
