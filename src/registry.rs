//! The registry: canonical entries and country associations, with lookups by
//! numeric code, alphabetic code and country.
use vstd::prelude::*;

use crate::document::CurrencyDoc;
use crate::entries::{
    has_alpha, has_identifier, has_number, in_order, is_stable_order, normalized, stable_order,
    BuildError, CanonicalEntry, CountryAssociation, EntryModel, EntrySet,
};
use crate::text::same_chars;
use vstd::string::{is_ascii, StringSliceAdditionalSpecFns};
use vstd::utf8::{encode_scalar, encode_utf8, is_ascii_chars, is_ascii_chars_encode_utf8};

verus! {

/// Errors of the registry's lookups.
#[derive(Clone, Copy, Debug, PartialEq, Eq, Hash, PartialOrd, Ord)]
pub enum Error {
    /// The code given is not a correct string or numeric code.
    InvalidCode,
    /// The code string given is the wrong length to be a currency code.
    InvalidLength,
    /// The code string given contains non-ASCII characters.
    InvalidCharset,
    /// The country in question does not have a universal currency.
    NoUniversalCurrency,
}

impl Error {
    /// Whether this error is of the `InvalidCode` variant.
    pub fn is_invalid_code(&self) -> (r: bool)
        ensures
            r == (*self == Error::InvalidCode),
    {
        matches!(self, Error::InvalidCode)
    }

    /// Whether this error is of the `InvalidLength` variant.
    pub fn is_invalid_length(&self) -> (r: bool)
        ensures
            r == (*self == Error::InvalidLength),
    {
        matches!(self, Error::InvalidLength)
    }

    /// Whether this error is of the `InvalidCharset` variant.
    pub fn is_invalid_charset(&self) -> (r: bool)
        ensures
            r == (*self == Error::InvalidCharset),
    {
        matches!(self, Error::InvalidCharset)
    }

    /// Whether this error is of the `NoUniversalCurrency` variant.
    pub fn is_no_universal_currency(&self) -> (r: bool)
        ensures
            r == (*self == Error::NoUniversalCurrency),
    {
        matches!(self, Error::NoUniversalCurrency)
    }
}

impl CanonicalEntry {
    /// The three-letter code.
    pub fn alpha_code(&self) -> (r: &str)
        ensures
            r@ == self.alpha_code@,
    {
        self.alpha_code.as_str()
    }

    /// The numeric code.
    pub fn number(&self) -> (r: u16)
        ensures
            r == self.number,
    {
        self.number
    }

    /// The currency name.
    pub fn name(&self) -> (r: &str)
        ensures
            r@ == self.name@,
    {
        self.name.as_str()
    }

    /// Whether the currency is a fund.
    pub fn is_fund(&self) -> (r: bool)
        ensures
            r == self.is_fund,
    {
        self.is_fund
    }

    /// The number of decimal places of the minor unit, if there is one.
    pub fn minor_unit(&self) -> (r: Option<u8>)
        ensures
            r == self.minor_unit,
    {
        self.minor_unit
    }
}

/// The country identifier that the country registry gives a numeric code.
pub uninterp spec fn numeric_country(code: u16) -> Option<Seq<char>>;

/// The country identifier that the country registry gives a two-letter code.
pub uninterp spec fn alpha2_country(code: Seq<char>) -> Option<Seq<char>>;

/// The country identifier that the country registry gives a three-letter code.
pub uninterp spec fn alpha3_country(code: Seq<char>) -> Option<Seq<char>>;

/// Relies on iso3166_static's `Numeric::from_u16`, and on the variant name
/// that the type's derived `Debug` writes, which is the country identifier.
#[verifier::external_body]
fn numeric_country_ident(code: u16) -> (r: Option<String>)
    ensures
        match r {
            Some(s) => numeric_country(code) == Some(s@),
            None => numeric_country(code) is None,
        },
{
    match iso3166_static::Numeric::from_u16(code) {
        Ok(c) => Some(format!("{c:?}")),
        Err(_) => None,
    }
}

/// Relies on iso3166_static's `Alpha2::from_str_slice`, and on the variant
/// name that the type's derived `Debug` writes, which is the country identifier.
#[verifier::external_body]
fn alpha2_country_ident(code: &str) -> (r: Option<String>)
    ensures
        match r {
            Some(s) => alpha2_country(code@) == Some(s@),
            None => alpha2_country(code@) is None,
        },
{
    match iso3166_static::Alpha2::from_str_slice(code) {
        Ok(c) => Some(format!("{c:?}")),
        Err(_) => None,
    }
}

/// Relies on iso3166_static's `Alpha3::from_str_slice`, and on the variant
/// name that the type's derived `Debug` writes, which is the country identifier.
#[verifier::external_body]
fn alpha3_country_ident(code: &str) -> (r: Option<String>)
    ensures
        match r {
            Some(s) => alpha3_country(code@) == Some(s@),
            None => alpha3_country(code@) is None,
        },
{
    match iso3166_static::Alpha3::from_str_slice(code) {
        Ok(c) => Some(format!("{c:?}")),
        Err(_) => None,
    }
}

/// The canonical entries and country associations behind all lookups.
#[derive(Clone, Debug)]
pub struct Registry {
    /// The entries and associations, as normalized from the source.
    pub set: EntrySet,
}

impl Registry {
    /// What the entries of the registry hold, ascending by number.
    pub open spec fn model(&self) -> Seq<EntryModel> {
        self.set.model()
    }

    /// The country associations.
    pub open spec fn countries(&self) -> Seq<CountryAssociation> {
        self.set.countries@
    }

    /// Whether the entries are ascending by number with distinct codes and
    /// identifiers, each country is associated once, and with an entry.
    pub open spec fn wf(&self) -> bool {
        self.set.wf()
    }

    /// Whether country `c` uses the entry `e`.
    pub open spec fn uses(&self, c: Seq<char>, e: EntryModel) -> bool {
        self.model().contains(e) && exists|j: int|
            0 <= j < self.countries().len() && (#[trigger] self.countries()[j]).country@ == c
                && self.countries()[j].currency@ == e.identifier
    }

    /// Whether country `c` uses some entry of the registry.
    pub open spec fn has_currency(&self, c: Seq<char>) -> bool {
        exists|e: EntryModel| self.uses(c, e)
    }

    /// Whether `r` is the outcome of looking up numeric code `code`.
    pub open spec fn resolves_number(&self, code: u16, r: Result<&CanonicalEntry, Error>) -> bool {
        match r {
            Ok(e) => e@.number == code && self.model().contains(e@),
            Err(x) => x == Error::InvalidCode && !has_number(self.model(), code),
        }
    }

    /// Whether `r` is the outcome of looking up alphabetic code `code`.
    pub open spec fn resolves_alpha(&self, code: &str, r: Result<&CanonicalEntry, Error>) -> bool {
        if code.spec_bytes().len() != 3 {
            r matches Err(x) && x == Error::InvalidLength
        } else if !is_ascii(code) {
            r matches Err(x) && x == Error::InvalidCharset
        } else {
            match r {
                Ok(e) => e@.alpha_code == code@ && self.model().contains(e@),
                Err(x) => x == Error::InvalidCode && !has_alpha(self.model(), code@),
            }
        }
    }

    /// Whether `r` is the outcome of looking up the currency of the country
    /// identified by `c`.
    pub open spec fn resolves_country(&self, c: Seq<char>, r: Result<&CanonicalEntry, Error>) -> bool {
        match r {
            Ok(e) => self.uses(c, e@),
            Err(x) => x == Error::NoUniversalCurrency && !self.has_currency(c),
        }
    }

    /// Whether `r` is the outcome of looking up the currency of the country
    /// that the country registry may name `c`.
    pub open spec fn resolves_country_opt(
        &self,
        c: Option<Seq<char>>,
        r: Result<&CanonicalEntry, Error>,
    ) -> bool {
        match c {
            None => r matches Err(x) && x == Error::NoUniversalCurrency,
            Some(c) => self.resolves_country(c, r),
        }
    }

    /// Compiles a document into a registry. The canonical entries come from
    /// its rows in ascending order of number (rows without one first, equal
    /// numbers in source order), the first row of each number kept; each
    /// country is associated with the currency of its last qualifying row in
    /// source order.
    pub fn build(doc: &CurrencyDoc) -> (r: Result<Registry, BuildError>)
        ensures
            exists|order: Seq<usize>|
                is_stable_order(doc.table.entries@, order) && match r {
                    Ok(reg) => reg.set.is_normalized(doc.table.entries@, order),
                    Err(x) => normalized(in_order(doc.table.entries@, order)) == Err::<
                        Seq<EntryModel>,
                        BuildError,
                    >(x),
                },
            r matches Ok(reg) ==> reg.wf(),
    {
        let rows = doc.table().entries();
        let order = stable_order(rows);
        match EntrySet::from_entries(rows, order.as_slice()) {
            Ok(set) => Ok(Registry { set }),
            Err(x) => Err(x),
        }
    }

    /// The entry with numeric code `code`.
    pub fn from_numeric(&self, code: u16) -> (r: Result<&CanonicalEntry, Error>)
        ensures
            self.resolves_number(code, r),
    {
        let entries = &self.set.entries;
        let ghost s = self.model();
        let mut i: usize = 0;
        while i < entries.len()
            invariant
                i <= entries@.len(),
                s == self.model(),
                entries == &self.set.entries,
                s == entries@.map_values(|e: CanonicalEntry| e@),
                forall|j: int| 0 <= j < i ==> (#[trigger] s[j]).number != code,
            decreases entries@.len() - i,
        {
            if entries[i].number == code {
                assert(s[i as int] == entries@[i as int]@);
                assert(s.contains(entries@[i as int]@));
                return Ok(&entries[i]);
            }
            i = i + 1;
        }
        Err(Error::InvalidCode)
    }

    /// The entry with alphabetic code `code`.
    pub fn from_alpha(&self, code: &str) -> (r: Result<&CanonicalEntry, Error>)
        ensures
            self.resolves_alpha(code, r),
    {
        if code.as_bytes().len() != 3 {
            return Err(Error::InvalidLength);
        }
        if !code.is_ascii() {
            return Err(Error::InvalidCharset);
        }
        let entries = &self.set.entries;
        let ghost s = self.model();
        let mut i: usize = 0;
        while i < entries.len()
            invariant
                i <= entries@.len(),
                s == self.model(),
                entries == &self.set.entries,
                s == entries@.map_values(|e: CanonicalEntry| e@),
                forall|j: int| 0 <= j < i ==> (#[trigger] s[j]).alpha_code != code@,
                code.spec_bytes().len() == 3,
                is_ascii(code),
            decreases entries@.len() - i,
        {
            if same_chars(entries[i].alpha_code.as_str(), code) {
                assert(s[i as int] == entries@[i as int]@);
                assert(s.contains(entries@[i as int]@));
                return Ok(&entries[i]);
            }
            i = i + 1;
        }
        Err(Error::InvalidCode)
    }

    /// The entry that the country identified by `country` uses.
    pub fn from_country(&self, country: &str) -> (r: Result<&CanonicalEntry, Error>)
        requires
            self.wf(),
        ensures
            self.resolves_country(country@, r),
    {
        let countries = &self.set.countries;
        let entries = &self.set.entries;
        let ghost s = self.model();
        let ghost cs = self.countries();
        let mut j: usize = 0;
        while j < countries.len()
            invariant
                j <= cs.len(),
                cs == countries@,
                self.wf(),
                cs == self.countries(),
                s == self.model(),
                entries == &self.set.entries,
                s == entries@.map_values(|e: CanonicalEntry| e@),
                forall|k: int| 0 <= k < j ==> (#[trigger] cs[k]).country@ != country@,
            decreases cs.len() - j,
        {
            if same_chars(countries[j].country.as_str(), country) {
                let currency = countries[j].currency.as_str();
                let mut i: usize = 0;
                while i < entries.len()
                    invariant
                        i <= entries@.len(),
                        s == self.model(),
                        entries == &self.set.entries,
                        s == entries@.map_values(|e: CanonicalEntry| e@),
                        forall|k: int| 0 <= k < i ==> (#[trigger] s[k]).identifier != currency@,
                        j < cs.len(),
                        self.wf(),
                        cs == self.countries(),
                        cs[j as int].country@ == country@,
                        cs[j as int].currency@ == currency@,
                    decreases entries@.len() - i,
                {
                    if same_chars(entries[i].identifier.as_str(), currency) {
                        assert(s[i as int] == entries@[i as int]@);
                        assert(s.contains(s[i as int]));
                        assert(self.uses(country@, entries[i as int]@));
                        return Ok(&entries[i]);
                    }
                    i = i + 1;
                }
                assert forall|e: EntryModel| !self.uses(country@, e) by {
                    if self.uses(country@, e) {
                        let k = choose|k: int|
                            0 <= k < cs.len() && (#[trigger] cs[k]).country@ == country@
                                && cs[k].currency@ == e.identifier;
                        assert(k == j as int);
                        let q = choose|q: int| 0 <= q < s.len() && s[q] == e;
                        assert(s[q].identifier != currency@);
                    }
                }
                return Err(Error::NoUniversalCurrency);
            }
            j = j + 1;
        }
        Err(Error::NoUniversalCurrency)
    }

    /// The entry that the country with ISO 3166 numeric code `code` uses.
    pub fn from_country_numeric(&self, code: u16) -> (r: Result<&CanonicalEntry, Error>)
        requires
            self.wf(),
        ensures
            self.resolves_country_opt(numeric_country(code), r),
    {
        match numeric_country_ident(code) {
            Some(c) => self.from_country(c.as_str()),
            None => Err(Error::NoUniversalCurrency),
        }
    }

    /// The entry that the country with ISO 3166 two-letter code `code` uses.
    pub fn from_country_alpha2(&self, code: &str) -> (r: Result<&CanonicalEntry, Error>)
        requires
            self.wf(),
        ensures
            self.resolves_country_opt(alpha2_country(code@), r),
    {
        match alpha2_country_ident(code) {
            Some(c) => self.from_country(c.as_str()),
            None => Err(Error::NoUniversalCurrency),
        }
    }

    /// The entry that the country with ISO 3166 three-letter code `code` uses.
    pub fn from_country_alpha3(&self, code: &str) -> (r: Result<&CanonicalEntry, Error>)
        requires
            self.wf(),
        ensures
            self.resolves_country_opt(alpha3_country(code@), r),
    {
        match alpha3_country_ident(code) {
            Some(c) => self.from_country(c.as_str()),
            None => Err(Error::NoUniversalCurrency),
        }
    }
}

/// Every character takes at least one byte in UTF-8.
proof fn lemma_utf8_len(chars: Seq<char>)
    ensures
        encode_utf8(chars).len() >= chars.len(),
    decreases chars.len(),
{
    if chars.len() > 0 {
        lemma_utf8_len(chars.drop_first());
        assert(encode_scalar(chars[0] as u32).len() >= 1);
    }
}

/// Looking up the numeric code of an entry gives that entry.
pub proof fn lemma_numeric_round_trip(reg: &Registry, i: int, r: Result<&CanonicalEntry, Error>)
    requires
        reg.wf(),
        0 <= i < reg.model().len(),
        reg.resolves_number(reg.model()[i].number, r),
    ensures
        r matches Ok(e) && e@ == reg.model()[i],
{
    let s = reg.model();
    assert(has_number(s, s[i].number));
    if let Ok(e) = r {
        let j = choose|j: int| 0 <= j < s.len() && s[j] == e@;
        if j != i {
            assert(s[j].number != s[i].number);
        }
    }
}

/// Looking up the alphabetic code of an entry gives that entry.
pub proof fn lemma_alpha_round_trip(
    reg: &Registry,
    i: int,
    code: &str,
    r: Result<&CanonicalEntry, Error>,
)
    requires
        reg.wf(),
        0 <= i < reg.model().len(),
        code@ == reg.model()[i].alpha_code,
        reg.resolves_alpha(code, r),
    ensures
        r matches Ok(e) && e@ == reg.model()[i],
{
    let s = reg.model();
    assert(is_ascii_chars(code@));
    is_ascii_chars_encode_utf8(code@);
    assert(code.spec_bytes().len() == 3);
    assert(has_alpha(s, code@));
    if let Ok(e) = r {
        let j = choose|j: int| 0 <= j < s.len() && s[j] == e@;
        if j != i {
            assert(s[j].alpha_code != s[i].alpha_code);
        }
    }
}

/// No two entries of a registry share a numeric code or an alphabetic code.
pub proof fn lemma_codes_distinct(reg: &Registry, i: int, j: int)
    requires
        reg.wf(),
        0 <= i < reg.model().len(),
        0 <= j < reg.model().len(),
        i != j,
    ensures
        reg.model()[i].number != reg.model()[j].number,
        reg.model()[i].alpha_code != reg.model()[j].alpha_code,
{
    let s = reg.model();
    if i < j {
        assert(s[i].number < s[j].number);
    } else {
        assert(s[j].number < s[i].number);
    }
}

/// An alphabetic lookup of four characters fails on its length, and one of
/// three bytes that are not all ASCII fails on its character set; neither
/// fails as an unknown code.
pub proof fn lemma_alpha_rejects(reg: &Registry, code: &str, r: Result<&CanonicalEntry, Error>)
    requires
        reg.resolves_alpha(code, r),
    ensures
        code@.len() == 4 ==> r == Err::<&CanonicalEntry, Error>(Error::InvalidLength),
        code.spec_bytes().len() == 3 && !is_ascii(code) ==> r == Err::<&CanonicalEntry, Error>(
            Error::InvalidCharset,
        ),
        code@.len() == 4 || !is_ascii(code) ==> r != Err::<&CanonicalEntry, Error>(
            Error::InvalidCode,
        ),
{
    lemma_utf8_len(code@);
}

/// A country that is associated with a currency resolves to that currency's
/// entry.
pub proof fn lemma_country_resolves(
    reg: &Registry,
    j: int,
    r: Result<&CanonicalEntry, Error>,
)
    requires
        reg.wf(),
        0 <= j < reg.countries().len(),
        reg.resolves_country(reg.countries()[j].country@, r),
    ensures
        r matches Ok(e) && e@.identifier == reg.countries()[j].currency@ && reg.model().contains(
            e@,
        ),
{
    let s = reg.model();
    let cs = reg.countries();
    assert(has_identifier(s, cs[j].currency@));
    let i = choose|i: int| 0 <= i < s.len() && (#[trigger] s[i]).identifier == cs[j].currency@;
    assert(s.contains(s[i]));
    assert(reg.uses(cs[j].country@, s[i]));
    if let Ok(e) = r {
        let k = choose|k: int|
            0 <= k < cs.len() && (#[trigger] cs[k]).country@ == cs[j].country@ && cs[k].currency@
                == e@.identifier;
        assert(k == j);
    }
}

} // verus!
