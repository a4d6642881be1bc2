//! The currency attached to a transaction: a three-character code, opaque to
//! the kernel, and the caller-supplied count of decimal places.
//!
//! The kernel is culture-neutral: it never maps a code to decimal places and
//! never formats money. All arithmetic is on signed 64-bit minor units.

use vstd::prelude::*;

use crate::result::ResultCode;
use crate::strutil::{to_upper, upper_chars};

verus! {

/// The largest decimal-place count a currency may carry.
pub const MAX_DECIMAL_PLACES: u8 = 4;

/// The mathematical content of a `Currency`.
pub ghost struct CurrencyV {
    pub code: Seq<char>,
    pub decimal_places: u8,
}

/// A well-formed currency: a three-character code and at most four decimal
/// places.
pub open spec fn currency_wf(c: CurrencyV) -> bool {
    &&& c.code.len() == 3
    &&& c.decimal_places <= MAX_DECIMAL_PLACES
}

/// A currency as carried by a transaction. The code is stored upper-cased;
/// the decimal places are whatever the caller supplied at transaction start
/// and never change afterwards.
#[derive(Debug, Clone)]
pub struct Currency {
    code: String,
    decimal_places: u8,
}

impl View for Currency {
    type V = CurrencyV;

    closed spec fn view(&self) -> CurrencyV {
        CurrencyV { code: self.code@, decimal_places: self.decimal_places }
    }
}

impl Currency {
    /// Builds a currency from a code and an explicit decimal-place count.
    ///
    /// Fails with `ValidationFailed` exactly when the code is not three
    /// characters long or the decimal places exceed four; the kernel does not
    /// otherwise inspect the code.
    pub fn new(code: &str, decimal_places: u8) -> (r: Result<Currency, ResultCode>)
        ensures
            code@.len() == 3 && decimal_places <= MAX_DECIMAL_PLACES ==> (r matches Ok(c)
                && c@.code == upper_chars(code@) && c@.decimal_places == decimal_places
                && currency_wf(c@)),
            !(code@.len() == 3 && decimal_places <= MAX_DECIMAL_PLACES) ==> r === Err(
                ResultCode::ValidationFailed,
            ),
    {
        if code.unicode_len() != 3 || decimal_places > MAX_DECIMAL_PLACES {
            return Err(ResultCode::ValidationFailed);
        }
        let upper = to_upper(code);
        Ok(Currency { code: upper, decimal_places })
    }

    /// Rebuilds a currency from parts already validated and upper-cased, as
    /// log replay reads them back from a record.
    pub(crate) fn from_parts(code: String, decimal_places: u8) -> (r: Currency)
        requires
            code@.len() == 3,
            decimal_places <= MAX_DECIMAL_PLACES,
        ensures
            r@ == (CurrencyV { code: code@, decimal_places }),
            currency_wf(r@),
    {
        Currency { code, decimal_places }
    }

    /// The decimal-place count supplied when the currency was built.
    pub fn decimal_places(&self) -> (d: u8)
        ensures
            d == self@.decimal_places,
    {
        self.decimal_places
    }

    /// The stored (upper-cased) currency code.
    pub fn code(&self) -> (c: &str)
        ensures
            c@ == self@.code,
    {
        self.code.as_str()
    }
}

} // verus!
