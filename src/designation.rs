use vstd::prelude::*;

use crate::error::NacaError;

verus! {

broadcast use vstd::string::group_string_axioms;

/// The three numbers that a four-digit designation encodes.
#[derive(Debug, Clone, Copy, PartialEq, Eq, Structural)]
pub struct Designation {
    /// Maximum camber, in percent of the chord (first digit).
    pub max_camber_percent: u8,
    /// Chordwise place of the maximum camber, in tenths of the chord (second digit).
    pub max_camber_location_tenths: u8,
    /// Maximum thickness, in percent of the chord (last two digits).
    pub thickness_percent: u8,
}

pub open spec fn is_decimal_digit(c: char) -> bool {
    '0' <= c && c <= '9'
}

pub open spec fn digit_value(c: char) -> int {
    c as int - '0' as int
}

/// A designation is exactly four decimal digits.
pub open spec fn is_designation(s: Seq<char>) -> bool {
    &&& s.len() == 4
    &&& forall|i: int| 0 <= i < 4 ==> is_decimal_digit(#[trigger] s[i])
}

/// The numbers that a well-formed designation stands for.
pub open spec fn decode(s: Seq<char>) -> Designation
    recommends
        is_designation(s),
{
    Designation {
        max_camber_percent: digit_value(s[0]) as u8,
        max_camber_location_tenths: digit_value(s[1]) as u8,
        thickness_percent: (10 * digit_value(s[2]) + digit_value(s[3])) as u8,
    }
}

impl Designation {
    pub open spec fn wf(&self) -> bool {
        &&& self.max_camber_percent <= 9
        &&& self.max_camber_location_tenths <= 9
        &&& self.thickness_percent <= 99
    }

    /// A symmetric section has neither camber nor a place of maximum camber;
    /// its camber line is the chord itself.
    pub open spec fn spec_is_symmetric(&self) -> bool {
        self.max_camber_percent == 0 && self.max_camber_location_tenths == 0
    }

    #[verifier::when_used_as_spec(spec_is_symmetric)]
    pub fn is_symmetric(&self) -> (r: bool)
        ensures
            r == self.spec_is_symmetric(),
    {
        self.max_camber_percent == 0 && self.max_camber_location_tenths == 0
    }
}

fn digit_of(c: Option<char>) -> (r: Option<u8>)
    ensures
        r == (match c {
            Some(ch) => if is_decimal_digit(ch) { Some(digit_value(ch) as u8) } else { None },
            None => None,
        }),
{
    match c {
        Some(ch) => if '0' <= ch && ch <= '9' {
            Some((ch as u32 - '0' as u32) as u8)
        } else {
            None
        },
        None => None,
    }
}

/// Decodes a four-digit designation such as "2412" into its camber, the
/// place of that camber and the thickness.
pub fn parse_designation(name: &str) -> (r: Result<Designation, NacaError>)
    ensures
        is_designation(name@) ==> r == Ok::<Designation, NacaError>(decode(name@)),
        !is_designation(name@) ==> r == Err::<Designation, NacaError>(NacaError::InvalidDesignation),
        r matches Ok(d) ==> d.wf(),
{
    let mut chars = name.chars();
    let c0 = chars.next();
    let c1 = chars.next();
    let c2 = chars.next();
    let c3 = chars.next();
    let c4 = chars.next();
    match (digit_of(c0), digit_of(c1), digit_of(c2), digit_of(c3), c4) {
        (Some(d0), Some(d1), Some(d2), Some(d3), None) => Ok(Designation {
            max_camber_percent: d0,
            max_camber_location_tenths: d1,
            thickness_percent: 10 * d2 + d3,
        }),
        _ => Err(NacaError::InvalidDesignation),
    }
}

} // verus!
