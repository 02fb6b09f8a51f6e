//! The document model: the published currency list as a tree of optional
//! fields, read as it stands in the source.
use vstd::prelude::*;

use crate::text::{parse_u8, parsed_u8, same_chars, trim, trimmed};

verus! {

/// The fields of a date read from the document, by year, month and day.
pub uninterp spec fn parsed_date(s: Seq<char>, format: Seq<char>) -> Option<(i32, u32, u32)>;

/// Relies on chrono's `NaiveDate::parse_from_str`: the date that `s` spells in
/// `format`, if any, as year, month (1 to 12) and day (1 to 31).
#[verifier::external_body]
fn parse_date(s: &str, format: &str) -> (r: Option<(i32, u32, u32)>)
    ensures
        r == parsed_date(s@, format@),
        r matches Some(t) ==> 1 <= t.1 <= 12 && 1 <= t.2 <= 31,
{
    match chrono::NaiveDate::parse_from_str(s, format) {
        Ok(d) => Some((chrono::Datelike::year(&d), chrono::Datelike::month(&d), chrono::Datelike::day(&d))),
        Err(_) => None,
    }
}

/// A calendar date.
#[derive(Clone, Copy, Debug, PartialEq, Eq, Hash)]
pub struct Date {
    pub year: i32,
    pub month: u32,
    pub day: u32,
}

/// The publication date is not written `YYYY-MM-DD`.
#[derive(Clone, Copy, Debug, PartialEq, Eq, Hash)]
pub struct DateFormatError;

/// The currency document.
#[derive(Clone, Debug)]
pub struct CurrencyDoc {
    /// The table of currency entries.
    pub table: CurrencyTable,
    /// The date this document was published, as written.
    pub published: String,
}

/// The currency table.
#[derive(Clone, Debug)]
pub struct CurrencyTable {
    /// The entries, in the order of the source.
    pub entries: Vec<CurrencyEntry>,
}

/// One row of the currency table.
#[derive(Clone, Debug)]
pub struct CurrencyEntry {
    /// The name of the country.
    pub country: String,
    /// The name of the currency.
    pub name: Option<CurrencyName>,
    /// The 3-character currency code.
    pub currency: Option<String>,
    /// The numeric currency code.
    pub number: Option<u16>,
    /// The minor unit decimal places, as written.
    pub minor_unit: Option<String>,
}

/// A currency name.
#[derive(Clone, Debug)]
pub struct CurrencyName {
    /// Whether the currency is a fund, where the source says.
    pub is_fund: Option<bool>,
    /// The currency name, as written.
    pub name: String,
}

/// The minor unit that a raw minor-unit text stands for: none for `N.A.` or
/// an empty text, else the text read as a byte-sized number, if it is one.
pub open spec fn minor_unit_of(raw: Option<Seq<char>>) -> Option<u8> {
    match raw {
        None => None,
        Some(m) => {
            let t = trimmed(m);
            if t == "N.A."@ || t.len() == 0 {
                None
            } else {
                parsed_u8(t)
            }
        },
    }
}

/// Whether a raw minor-unit text is neither absent, `N.A.`, empty, nor a
/// byte-sized number.
pub open spec fn minor_unit_malformed(raw: Option<Seq<char>>) -> bool {
    match raw {
        None => false,
        Some(m) => {
            let t = trimmed(m);
            !(t == "N.A."@ || t.len() == 0) && parsed_u8(t) is None
        },
    }
}

/// The raw minor-unit text of an entry, as a sequence of characters.
pub open spec fn raw_minor_unit(e: CurrencyEntry) -> Option<Seq<char>> {
    match e.minor_unit {
        None => None,
        Some(m) => Some(m@),
    }
}

impl CurrencyDoc {
    /// A document of `table`, published on `published`.
    pub fn new(table: CurrencyTable, published: String) -> (r: Self)
        ensures
            r.table == table,
            r.published == published,
    {
        CurrencyDoc { table, published }
    }

    /// The table contained within this document.
    pub fn table(&self) -> (r: &CurrencyTable)
        ensures
            *r == self.table,
    {
        &self.table
    }

    /// The date this document was published, read strictly as `YYYY-MM-DD`.
    pub fn published(&self) -> (r: Result<Date, DateFormatError>)
        ensures
            match parsed_date(self.published@, "%Y-%m-%d"@) {
                Some(t) => r == Ok::<Date, DateFormatError>(Date { year: t.0, month: t.1, day: t.2 }),
                None => r == Err::<Date, DateFormatError>(DateFormatError),
            },
    {
        match parse_date(self.published.as_str(), "%Y-%m-%d") {
            Some(t) => Ok(Date { year: t.0, month: t.1, day: t.2 }),
            None => Err(DateFormatError),
        }
    }
}

impl CurrencyTable {
    /// A table of `entries`.
    pub fn new(entries: Vec<CurrencyEntry>) -> (r: Self)
        ensures
            r.entries == entries,
    {
        CurrencyTable { entries }
    }

    /// The entries of this table, in the order of the source.
    pub fn entries(&self) -> (r: &[CurrencyEntry])
        ensures
            r@ == self.entries@,
    {
        self.entries.as_slice()
    }
}

impl CurrencyEntry {
    /// A row of the currency table.
    pub fn new(
        country: String,
        name: Option<CurrencyName>,
        currency: Option<String>,
        number: Option<u16>,
        minor_unit: Option<String>,
    ) -> (r: Self)
        ensures
            r.country == country,
            r.name == name,
            r.currency == currency,
            r.number == number,
            r.minor_unit == minor_unit,
    {
        CurrencyEntry { country, name, currency, number, minor_unit }
    }

    /// The country name, trimmed.
    pub fn country(&self) -> (r: &str)
        ensures
            r@ == trimmed(self.country@),
    {
        trim(self.country.as_str())
    }

    /// The currency name.
    pub fn name(&self) -> (r: Option<&CurrencyName>)
        ensures
            r is Some <==> self.name is Some,
            r matches Some(n) ==> *n == self.name->Some_0,
    {
        match &self.name {
            Some(n) => Some(n),
            None => None,
        }
    }

    /// The currency code, trimmed; absent where the country has no universal
    /// currency.
    pub fn currency(&self) -> (r: Option<&str>)
        ensures
            r is Some <==> self.currency is Some,
            r matches Some(c) ==> c@ == trimmed(self.currency->Some_0@),
    {
        match &self.currency {
            Some(c) => Some(trim(c.as_str())),
            None => None,
        }
    }

    /// The numeric currency code.
    pub fn number(&self) -> (r: Option<u16>)
        ensures
            r == self.number,
    {
        self.number
    }

    /// The minor unit decimal places, if applicable.
    pub fn minor_unit(&self) -> (r: Option<u8>)
        ensures
            r == minor_unit_of(raw_minor_unit(*self)),
    {
        match &self.minor_unit {
            None => None,
            Some(m) => {
                let t = trim(m.as_str());
                if same_chars(t, "N.A.") || t.unicode_len() == 0 {
                    None
                } else {
                    parse_u8(t)
                }
            },
        }
    }

    /// Whether the minor-unit text is present but neither `N.A.`, empty, nor
    /// a byte-sized number.
    pub fn minor_unit_is_malformed(&self) -> (r: bool)
        ensures
            r == minor_unit_malformed(raw_minor_unit(*self)),
    {
        match &self.minor_unit {
            None => false,
            Some(m) => {
                let t = trim(m.as_str());
                if same_chars(t, "N.A.") || t.unicode_len() == 0 {
                    false
                } else {
                    parse_u8(t).is_none()
                }
            },
        }
    }
}

impl CurrencyName {
    /// A currency name; `is_fund` is what the source says, if anything.
    pub fn new(is_fund: Option<bool>, name: String) -> (r: Self)
        ensures
            r.is_fund == is_fund,
            r.name == name,
    {
        CurrencyName { is_fund, name }
    }

    /// Whether the currency is a fund; false where the source does not say.
    pub fn is_fund(&self) -> (r: bool)
        ensures
            r == (self.is_fund == Some(true)),
    {
        match self.is_fund {
            Some(f) => f,
            None => false,
        }
    }

    /// The currency name, trimmed.
    pub fn name(&self) -> (r: &str)
        ensures
            r@ == trimmed(self.name@),
    {
        trim(self.name.as_str())
    }
}

} // verus!
