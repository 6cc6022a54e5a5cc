use vstd::prelude::*;
use crate::gvas::error::{GvasError, gvas_message};
use crate::text::{decimal, push_decimal, push_str};

verus! {

#[derive(Debug)]
pub enum RawDataError {
    Gvas(GvasError),
    /// The decoder finished before consuming every byte: any blob whose layout is not
    /// fully understood is left opaque rather than half-decoded.
    NotExhausted { consumed: usize, total: usize },
}

/// The human-readable description of each error.
pub open spec fn raw_data_message(e: RawDataError) -> Seq<char> {
    match e {
        RawDataError::Gvas(g) => gvas_message(g),
        RawDataError::NotExhausted { consumed, total } => "decoder consumed "@ + decimal(consumed as nat)
            + " of "@ + decimal(total as nat) + " bytes, expected exactly "@ + decimal(total as nat),
    }
}

impl RawDataError {
    /// A one-line, human-readable description.
    pub fn message(&self) -> (r: String)
        ensures
            r@ == raw_data_message(*self),
    {
        match self {
            RawDataError::Gvas(g) => g.message(),
            RawDataError::NotExhausted { consumed, total } => {
                let mut s = String::new();
                push_str(&mut s, "decoder consumed ");
                push_decimal(&mut s, *consumed as u64);
                push_str(&mut s, " of ");
                push_decimal(&mut s, *total as u64);
                push_str(&mut s, " bytes, expected exactly ");
                push_decimal(&mut s, *total as u64);
                assert(s@ =~= raw_data_message(*self));
                s
            },
        }
    }
}

} // verus!
