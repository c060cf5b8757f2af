//! Spans of time as configuration values carry them: a count of
//! microseconds, written as amounts with units, `"3 min 10 s"`.

use vstd::prelude::*;

use crate::util::{
    parse_quantity_with_units, spec_parse_quantity, spec_units, ParseQuantityWithUnitsError,
    QuantityOutcome,
};

verus! {

/// The unit names a relative time accepts, each with its length in
/// microseconds.
pub open spec fn spec_relative_units() -> Seq<(Seq<char>, u64)> {
    seq![
        ("us"@, 1u64),
        ("ms"@, 1000u64),
        ("s"@, 1000000u64),
        ("\""@, 1000000u64),
        ("m"@, 60000000u64),
        ("min"@, 60000000u64),
        ("minutes"@, 60000000u64),
        ("'"@, 60000000u64),
        ("h"@, 3600000000u64),
        ("d"@, 86400000000u64),
        ("day"@, 86400000000u64),
        ("days"@, 86400000000u64),
        ("week"@, 604800000000u64),
        ("weeks"@, 604800000000u64),
        ("year"@, 31536000000000u64),
        ("years"@, 31536000000000u64),
        ("a"@, 31536000000000u64),
    ]
}

/// The unit table of `spec_relative_units`, as a value.
fn relative_units() -> (v: Vec<(&'static str, u64)>)
    ensures
        spec_units(v@) == spec_relative_units(),
{
    let mut v: Vec<(&'static str, u64)> = Vec::new();
    v.push(("us", 1));
    v.push(("ms", 1000));
    v.push(("s", 1000000));
    v.push(("\"", 1000000));
    v.push(("m", 60000000));
    v.push(("min", 60000000));
    v.push(("minutes", 60000000));
    v.push(("'", 60000000));
    v.push(("h", 3600000000));
    v.push(("d", 86400000000));
    v.push(("day", 86400000000));
    v.push(("days", 86400000000));
    v.push(("week", 604800000000));
    v.push(("weeks", 604800000000));
    v.push(("year", 31536000000000));
    v.push(("years", 31536000000000));
    v.push(("a", 31536000000000));
    proof {
        assert(spec_units(v@) =~= spec_relative_units());
    }
    v
}

/// A span of time, counted in whole microseconds.
pub struct Relative {
    micros: u64,
}

impl Relative {
    /// The count of microseconds the span stands for.
    pub closed spec fn spec_micros(&self) -> u64 {
        self.micros
    }

    /// A span of exactly `us` microseconds.
    pub fn from_micros(us: u64) -> (r: Relative)
        ensures
            r.spec_micros() == us,
    {
        Relative { micros: us }
    }

    /// The count of microseconds the span stands for.
    pub fn micros(&self) -> (r: u64)
        ensures
            r == self.spec_micros(),
    {
        self.micros
    }

    /// Reads a span written as amounts with units, `"3 min 10 s"`,
    /// against the relative-time unit table.
    pub fn parse(s: &str) -> (r: Result<Relative, ParseQuantityWithUnitsError>)
        ensures
            ({
                let outcome = spec_parse_quantity(s@, spec_relative_units());
                match r {
                    Ok(t) => outcome == (QuantityOutcome::Value { total: t.spec_micros() }),
                    Err(ParseQuantityWithUnitsError::EmptyString) => outcome
                        == QuantityOutcome::Empty,
                    Err(ParseQuantityWithUnitsError::ParseInt) => outcome
                        == QuantityOutcome::ParseInt,
                    Err(ParseQuantityWithUnitsError::MissingUnit) => outcome
                        == QuantityOutcome::MissingUnit,
                    Err(ParseQuantityWithUnitsError::NoSuchUnit { unit }) => outcome == (
                    QuantityOutcome::NoSuchUnit { unit: unit@ }),
                }
            }),
    {
        let units = relative_units();
        match parse_quantity_with_units(s, &units) {
            Ok(v) => Ok(Relative { micros: v }),
            Err(e) => Err(e),
        }
    }
}

impl core::str::FromStr for Relative {
    type Err = ParseQuantityWithUnitsError;

    fn from_str(s: &str) -> Result<Relative, ParseQuantityWithUnitsError> {
        Relative::parse(s)
    }
}

} // verus!
