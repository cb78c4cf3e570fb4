use vstd::prelude::*;

use crate::cca3::{is_code_text, CCA3, InvalidCCA3};
use crate::filters::Region;

verus! {

/// A country's common and official names.
#[derive(Debug, PartialEq)]
pub struct Name {
    pub common: String,
    pub official: String,
}

/// A currency's symbol and name.
#[derive(Debug, PartialEq)]
pub struct Currency {
    pub symbol: String,
    pub name: String,
}

/// Links to a country's flag images, with an optional description.
#[derive(Debug, PartialEq)]
pub struct Flags {
    pub png: String,
    pub svg: String,
    pub alt: Option<String>,
}

/// The summary of one country shown in the list.
///
/// `area_bits` is the IEEE-754 single-precision bit pattern of the area in
/// square kilometres. A valid area (see `is_area_bits`) is a non-negative
/// number or positive infinity, with zero written as positive zero; on such
/// patterns the integer order is exactly the numeric order.
#[derive(Debug, PartialEq)]
pub struct CountryOverview {
    pub name: Name,
    pub cca3: CCA3,
    pub independent: bool,
    pub un_member: bool,
    pub region: Region,
    pub sub_region: String,
    pub area_bits: u32,
    pub population: u32,
    pub flags: Flags,
}

/// The full record of one country, as its detail view shows it. The area is
/// held as in `CountryOverview`; the maps go from a currency code to the
/// currency and from a language code to the language's name.
#[derive(Debug, PartialEq)]
pub struct Country {
    pub name: Name,
    pub currencies: Option<std::collections::HashMap<String, Currency>>,
    pub capital: Option<Vec<String>>,
    pub region: String,
    pub sub_region: Option<String>,
    pub languages: Option<std::collections::HashMap<String, String>>,
    pub borders: Option<Vec<CCA3>>,
    pub area_bits: u32,
    pub population: u32,
    pub flags: Flags,
}

/// A neighbouring country as shown in a country's detail view.
#[derive(Debug, PartialEq)]
pub struct NeighbouringCountry {
    pub name: Name,
    pub flags: Flags,
    pub cca3: CCA3,
}

/// A country summary as received, before its region and code are checked.
#[derive(Debug, PartialEq)]
pub struct RawCountryOverview {
    pub name: Name,
    pub cca3: String,
    pub independent: bool,
    pub un_member: bool,
    pub region: String,
    pub sub_region: String,
    pub area_bits: u32,
    pub population: u32,
    pub flags: Flags,
}

/// Why a received record was left out of the working collection, with the
/// offending value.
#[derive(Debug, PartialEq)]
pub enum ValidationError {
    InvalidRegion(String),
    InvalidCountryCode(String),
    /// The bit pattern of an area that is negative or not a number.
    InvalidArea(u32),
}

/// Bit pattern of the single-precision positive infinity; every pattern above
/// it is a NaN or has the sign bit set.
pub const POSITIVE_INFINITY_BITS: u32 = 0x7F80_0000;

/// Bit pattern of the single-precision negative zero.
pub const NEGATIVE_ZERO_BITS: u32 = 0x8000_0000;

/// `b` is the pattern of a non-negative, non-NaN area with zero as positive
/// zero. On such patterns the integer order is the numeric order.
pub open spec fn is_area_bits(b: u32) -> bool {
    b <= POSITIVE_INFINITY_BITS
}

/// `b` is the pattern of an area that a record may arrive with: a valid
/// pattern, or negative zero.
pub open spec fn is_received_area(b: u32) -> bool {
    b <= POSITIVE_INFINITY_BITS || b == NEGATIVE_ZERO_BITS
}

/// The received area pattern `b` with negative zero written as positive zero.
pub open spec fn normalized_area(b: u32) -> u32 {
    if b == NEGATIVE_ZERO_BITS {
        0
    } else {
        b
    }
}

/// Every record of `cs` carries a valid area pattern.
pub open spec fn all_areas_valid(cs: Seq<CountryOverview>) -> bool {
    forall|i: int| 0 <= i < cs.len() ==> is_area_bits(#[trigger] cs[i].area_bits)
}

fn copy_text(s: &String) -> (r: String)
    ensures
        r == *s,
{
    s.clone()
}

impl Clone for Name {
    fn clone(&self) -> (r: Self)
        ensures
            r == *self,
    {
        Name { common: copy_text(&self.common), official: copy_text(&self.official) }
    }
}

impl Clone for Currency {
    fn clone(&self) -> (r: Self)
        ensures
            r == *self,
    {
        Currency { symbol: copy_text(&self.symbol), name: copy_text(&self.name) }
    }
}

impl Clone for Flags {
    fn clone(&self) -> (r: Self)
        ensures
            r == *self,
    {
        let alt = match &self.alt {
            Some(a) => Some(copy_text(a)),
            None => None,
        };
        Flags { png: copy_text(&self.png), svg: copy_text(&self.svg), alt }
    }
}

impl Clone for CountryOverview {
    fn clone(&self) -> (r: Self)
        ensures
            r == *self,
    {
        CountryOverview {
            name: self.name.clone(),
            cca3: self.cca3,
            independent: self.independent,
            un_member: self.un_member,
            region: self.region,
            sub_region: copy_text(&self.sub_region),
            area_bits: self.area_bits,
            population: self.population,
            flags: self.flags.clone(),
        }
    }
}

impl Clone for NeighbouringCountry {
    fn clone(&self) -> (r: Self)
        ensures
            r == *self,
    {
        NeighbouringCountry { name: self.name.clone(), flags: self.flags.clone(), cca3: self.cca3 }
    }
}

/// Whether `raw` has a known region name, a valid country code and an area
/// that is neither negative nor NaN.
pub open spec fn is_valid_record(raw: RawCountryOverview) -> bool {
    (exists|g: Region| g.name_spec() == raw.region@) && is_code_text(raw.cca3@)
        && is_received_area(raw.area_bits)
}

/// The checked record for a valid `raw`, field for field.
pub open spec fn validated_from(raw: RawCountryOverview, c: CountryOverview) -> bool {
    &&& c.name == raw.name
    &&& c.cca3.view() == raw.cca3@
    &&& c.independent == raw.independent
    &&& c.un_member == raw.un_member
    &&& c.region.name_spec() == raw.region@
    &&& c.sub_region == raw.sub_region
    &&& c.area_bits == normalized_area(raw.area_bits)
    &&& is_area_bits(c.area_bits)
    &&& c.population == raw.population
    &&& c.flags == raw.flags
}

/// Checks the region, the country code and the area of a received record, in
/// that order. A negative zero area is kept as positive zero.
pub fn validate_record(raw: RawCountryOverview) -> (r: Result<CountryOverview, ValidationError>)
    ensures
        r is Ok <==> is_valid_record(raw),
        r matches Ok(c) ==> validated_from(raw, c),
        r matches Err(ValidationError::InvalidRegion(v)) ==> v == raw.region
            && forall|g: Region| g.name_spec() != raw.region@,
        r matches Err(ValidationError::InvalidCountryCode(v)) ==> v == raw.cca3
            && (exists|g: Region| g.name_spec() == raw.region@) && !is_code_text(raw.cca3@),
        r matches Err(ValidationError::InvalidArea(v)) ==> v == raw.area_bits
            && (exists|g: Region| g.name_spec() == raw.region@) && is_code_text(raw.cca3@)
            && !is_received_area(raw.area_bits),
{
    let region = match Region::from_name(raw.region.as_str()) {
        Some(g) => g,
        None => {
            return Err(ValidationError::InvalidRegion(raw.region));
        },
    };
    let cca3 = match CCA3::from_str(raw.cca3.as_str()) {
        Ok(c) => c,
        Err(InvalidCCA3) => {
            return Err(ValidationError::InvalidCountryCode(raw.cca3));
        },
    };
    let area_bits = if raw.area_bits == NEGATIVE_ZERO_BITS {
        0
    } else if raw.area_bits <= POSITIVE_INFINITY_BITS {
        raw.area_bits
    } else {
        return Err(ValidationError::InvalidArea(raw.area_bits));
    };
    Ok(
        CountryOverview {
            name: raw.name,
            cca3,
            independent: raw.independent,
            un_member: raw.un_member,
            region,
            sub_region: raw.sub_region,
            area_bits,
            population: raw.population,
            flags: raw.flags,
        },
    )
}

/// The valid records of `s`, in order.
pub open spec fn valid_only(s: Seq<RawCountryOverview>) -> Seq<RawCountryOverview>
    decreases s.len(),
{
    if s.len() == 0 {
        s
    } else {
        let rest = valid_only(s.drop_last());
        if is_valid_record(s.last()) {
            rest.push(s.last())
        } else {
            rest
        }
    }
}

/// The invalid records of `s`, in order.
pub open spec fn invalid_only(s: Seq<RawCountryOverview>) -> Seq<RawCountryOverview>
    decreases s.len(),
{
    if s.len() == 0 {
        s
    } else {
        let rest = invalid_only(s.drop_last());
        if is_valid_record(s.last()) {
            rest
        } else {
            rest.push(s.last())
        }
    }
}

/// The warning for an invalid record: its region if that is unknown, else
/// its country code if that is invalid, else its area.
pub open spec fn warning_for(raw: RawCountryOverview) -> ValidationError {
    if !exists|g: Region| g.name_spec() == raw.region@ {
        ValidationError::InvalidRegion(raw.region)
    } else if !is_code_text(raw.cca3@) {
        ValidationError::InvalidCountryCode(raw.cca3)
    } else {
        ValidationError::InvalidArea(raw.area_bits)
    }
}

/// Checks every received record: the valid ones are kept in order, and for
/// each invalid one a warning is collected instead.
pub fn validate_records(raws: Vec<RawCountryOverview>) -> (r: (
    Vec<CountryOverview>,
    Vec<ValidationError>,
))
    ensures
        r.0@.len() + r.1@.len() == raws@.len(),
        r.1@.len() == invalid_only(raws@).len(),
        forall|k: int| 0 <= k < r.1@.len() ==> r.1@[k] == warning_for(#[trigger] invalid_only(raws@)[k]),
        r.0@.len() == valid_only(raws@).len(),
        forall|k: int|
            0 <= k < r.0@.len() ==> validated_from(
                #[trigger] valid_only(raws@)[k],
                r.0@[k],
            ),
{
    let ghost input = raws@;
    let mut rest = raws;
    let mut kept: Vec<CountryOverview> = Vec::new();
    let mut warnings: Vec<ValidationError> = Vec::new();
    let mut i: usize = 0;
    let n = rest.len();
    proof {
        assert(input.subrange(0, n as int) =~= input);
    }
    while i < n
        invariant
            n == input.len(),
            i <= n,
            rest@ == input.subrange(i as int, n as int),
            kept@.len() + warnings@.len() == i,
            kept@.len() == valid_only(input.subrange(0, i as int)).len(),
            warnings@.len() == invalid_only(input.subrange(0, i as int)).len(),
            forall|k: int|
                0 <= k < warnings@.len() ==> warnings@[k] == warning_for(
                    #[trigger] invalid_only(input.subrange(0, i as int))[k],
                ),
            forall|k: int|
                0 <= k < kept@.len() ==> validated_from(
                    #[trigger] valid_only(input.subrange(0, i as int))[k],
                    kept@[k],
                ),
        decreases n - i,
    {
        let raw = rest.remove(0);
        proof {
            assert(raw == input[i as int]);
            assert(input.subrange(0, i + 1) =~= input.subrange(0, i as int).push(raw));
            assert(input.subrange(0, i + 1).drop_last() =~= input.subrange(0, i as int));
            assert(rest@ =~= input.subrange(i + 1, n as int));
        }
        match validate_record(raw) {
            Ok(c) => kept.push(c),
            Err(e) => warnings.push(e),
        }
        i = i + 1;
    }
    proof {
        assert(input.subrange(0, n as int) =~= input);
    }
    (kept, warnings)
}

} // verus!
