use iso4217::document::{CurrencyDoc, CurrencyEntry, CurrencyName, CurrencyTable, Date, DateFormatError};
use iso4217::entries::{stable_order, BuildError, EntrySet};
use iso4217::identifiers::{associates, country_ident, currency_ident};
use iso4217::registry::{Error, Registry};
use iso4217::text::{decimal_string, parse_u8, replace};

fn row(country: &str, name: Option<(&str, Option<bool>)>, code: Option<&str>, number: Option<u16>, minor: Option<&str>) -> CurrencyEntry {
    CurrencyEntry::new(
        country.to_string(),
        name.map(|(n, f)| CurrencyName::new(f, n.to_string())),
        code.map(|c| c.to_string()),
        number,
        minor.map(|m| m.to_string()),
    )
}

fn doc(rows: Vec<CurrencyEntry>) -> CurrencyDoc {
    CurrencyDoc::new(CurrencyTable::new(rows), "2026-01-01".to_string())
}

fn sample() -> CurrencyDoc {
    doc(vec![
        row("SWITZERLAND", Some(("Swiss Franc", None)), Some("CHF"), Some(756), Some("2")),
        row("UNITED STATES OF AMERICA (THE)", Some(("US Dollar (Next day)", Some(true))), Some("USN"), Some(997), Some("2")),
        row("FRANCE", Some(("Euro", None)), Some("EUR"), Some(978), Some("2")),
        row("ANTARCTICA", None, None, None, None),
        row("GERMANY", Some(("Euro", None)), Some("EUR"), Some(978), Some("2")),
        row("UNITED STATES OF AMERICA (THE)", Some(("US Dollar", None)), Some("USD"), Some(840), Some("2")),
        row("INTERNATIONAL MONETARY FUND (IMF)", Some(("SDR (Special Drawing Right)", None)), Some("XDR"), Some(960), Some("N.A.")),
        row("ZZ01_Bond Markets Unit European_EURCO", Some(("Bond Markets Unit European Composite Unit (EURCO)", None)), Some("XBA"), Some(955), Some("N.A.")),
        row("JAPAN", Some(("Yen", None)), Some("JPY"), Some(392), Some("0")),
    ])
}

fn registry() -> Registry {
    Registry::build(&sample()).expect("registry")
}

#[test]
fn for_country() {
    let reg = registry();
    let no_currency: [u16; 3] = [10, 239, 275];
    for i in 1..=899u16 {
        let numeric = reg.from_country_numeric(i);
        if no_currency.contains(&i) {
            assert_eq!(Error::NoUniversalCurrency, numeric.expect_err("no currency"));
        }
    }
    for (alpha2, alpha3) in [("AQ", "ATA"), ("GS", "SGS"), ("PS", "PSE")] {
        assert_eq!(Error::NoUniversalCurrency, reg.from_country_alpha2(alpha2).expect_err("no currency"));
        assert_eq!(Error::NoUniversalCurrency, reg.from_country_alpha3(alpha3).expect_err("no currency"));
    }
    let known = [
        (756, "CH", "CHE", "CHF"),
        (250, "FR", "FRA", "EUR"),
        (276, "DE", "DEU", "EUR"),
        (840, "US", "USA", "USD"),
        (392, "JP", "JPN", "JPY"),
    ];
    for (numeric, alpha2, alpha3, code) in known {
        assert_eq!(reg.from_country_numeric(numeric).expect("by number").alpha_code(), code);
        assert_eq!(reg.from_country_alpha2(alpha2).expect("by two letters").alpha_code(), code);
        assert_eq!(reg.from_country_alpha3(alpha3).expect("by three letters").alpha_code(), code);
    }
}

#[test]
fn antarctica_has_no_universal_currency() {
    let reg = registry();
    assert_eq!(reg.from_country_numeric(10).unwrap_err(), Error::NoUniversalCurrency);
}

#[test]
fn eurozone_member_resolves_alike() {
    let reg = registry();
    let a = reg.from_country_numeric(276).expect("Germany by number");
    let b = reg.from_country_alpha2("DE").expect("Germany by two letters");
    let c = reg.from_country_alpha3("DEU").expect("Germany by three letters");
    assert_eq!(a.number(), 978);
    assert_eq!(b.number(), 978);
    assert_eq!(c.number(), 978);
    assert_eq!(a.identifier, "Euro");
}

#[test]
fn round_trip_by_number_and_code() {
    let reg = registry();
    for e in reg.set.entries.iter() {
        assert_eq!(reg.from_numeric(e.number()).unwrap().alpha_code(), e.alpha_code());
        assert_eq!(reg.from_alpha(e.alpha_code()).unwrap().number(), e.number());
    }
    assert_eq!(reg.from_numeric(1).unwrap_err(), Error::InvalidCode);
    assert_eq!(reg.from_numeric(u16::MAX).unwrap_err(), Error::InvalidCode);
    assert_eq!(reg.from_numeric(392).unwrap().minor_unit(), Some(0));
    assert_eq!(reg.from_numeric(960).unwrap().minor_unit(), None);
    assert_eq!(reg.from_numeric(756).unwrap().name(), "Swiss Franc");
}

#[test]
fn canonical_entries_unique_and_sorted() {
    let reg = registry();
    let numbers: Vec<u16> = reg.set.entries.iter().map(|e| e.number()).collect();
    assert_eq!(numbers, vec![392, 756, 840, 955, 960, 978, 997]);
    let mut codes: Vec<&str> = reg.set.entries.iter().map(|e| e.alpha_code()).collect();
    codes.sort();
    codes.dedup();
    assert_eq!(codes.len(), 7);
}

#[test]
fn alpha_rejects_length_and_charset() {
    let reg = registry();
    assert_eq!(reg.from_alpha("EURO").unwrap_err(), Error::InvalidLength);
    assert_eq!(reg.from_alpha("").unwrap_err(), Error::InvalidLength);
    assert_eq!(reg.from_alpha("éa").unwrap_err(), Error::InvalidCharset);
    assert_eq!(reg.from_alpha("XYZ").unwrap_err(), Error::InvalidCode);
    assert_eq!(reg.from_alpha("eur").unwrap_err(), Error::InvalidCode);
}

#[test]
fn usn_is_fund() {
    let reg = registry();
    let usn = reg.from_alpha("USN").unwrap();
    assert!(usn.is_fund());
    assert!(!reg.from_alpha("USD").unwrap().is_fund());
    assert_eq!(usn.doc, " US Dollar (Next day) (USN, 997, Fund)");
    assert_eq!(reg.from_alpha("EUR").unwrap().doc, " Euro (EUR, 978)");
}

#[test]
fn first_row_of_a_number_wins() {
    let d = doc(vec![
        row("B", Some(("Same", None)), Some("SAM"), Some(5), Some("1")),
        row("A", Some(("Same", None)), Some("SAM"), Some(5), Some("2")),
    ]);
    let reg = Registry::build(&d).unwrap();
    assert_eq!(reg.set.entries.len(), 1);
    assert_eq!(reg.set.entries[0].minor_unit(), Some(1));
    let conflicting = doc(vec![
        row("B", Some(("Second", None)), Some("BBB"), Some(5), Some("1")),
        row("A", Some(("First", None)), Some("AAA"), Some(5), Some("2")),
    ]);
    assert_eq!(Registry::build(&conflicting).unwrap_err(), BuildError::ConflictingRow(5));
}

#[test]
fn last_row_of_a_country_in_source_order_wins() {
    let d = doc(vec![
        row("PANAMA", Some(("US Dollar", None)), Some("USD"), Some(840), Some("2")),
        row("PANAMA", Some(("Balboa", None)), Some("PAB"), Some(590), Some("2")),
    ]);
    let reg = Registry::build(&d).unwrap();
    assert_eq!(reg.set.countries.len(), 1);
    assert_eq!(reg.set.countries[0].country, "Panama");
    assert_eq!(reg.set.countries[0].currency, "Balboa");
    assert_eq!(reg.from_country("Panama").unwrap().alpha_code(), "PAB");
    let numbers: Vec<u16> = reg.set.entries.iter().map(|e| e.number()).collect();
    assert_eq!(numbers, vec![590, 840]);
}

#[test]
fn associations_exclude_funds_reserved_and_non_countries() {
    let reg = registry();
    let names: Vec<&str> = reg.set.countries.iter().map(|c| c.country.as_str()).collect();
    assert!(names.contains(&"UnitedStatesOfAmerica"));
    assert!(!names.iter().any(|n| n.starts_with("Zz")));
    assert!(!names.contains(&"InternationalMonetaryFundImf"));
    assert_eq!(reg.from_country("UnitedStatesOfAmerica").unwrap().alpha_code(), "USD");
    assert!(!associates("EuropeanUnion", false));
    assert!(!associates("Zz07NoCurrency", false));
    assert!(!associates("Chile", true));
    assert!(associates("Chile", false));
}

#[test]
fn build_errors() {
    let bad_minor = doc(vec![row("X", Some(("Thing", None)), Some("XXA"), Some(1), Some("many"))]);
    assert_eq!(Registry::build(&bad_minor).unwrap_err(), BuildError::MalformedMinorUnit(1));
    let bad_code = doc(vec![row("X", Some(("Thing", None)), Some("XX"), Some(2), None)]);
    assert_eq!(Registry::build(&bad_code).unwrap_err(), BuildError::MalformedAlphaCode(2));
    let digit_code = doc(vec![row("X", Some(("Thing", None)), Some("X1Z"), Some(2), None)]);
    assert_eq!(Registry::build(&digit_code).unwrap_err(), BuildError::MalformedAlphaCode(2));
    let dup_code = doc(vec![
        row("X", Some(("Thing", None)), Some("XXA"), Some(3), None),
        row("Y", Some(("Other", None)), Some("XXA"), Some(4), None),
    ]);
    assert_eq!(Registry::build(&dup_code).unwrap_err(), BuildError::DuplicateAlphaCode(4));
    let dup_ident = doc(vec![
        row("X", Some(("Thing", None)), Some("XXA"), Some(3), None),
        row("Y", Some(("Thing", None)), Some("XXB"), Some(4), None),
    ]);
    assert_eq!(Registry::build(&dup_ident).unwrap_err(), BuildError::DuplicateIdentifier(4));
    let non_ascii = doc(vec![row("POLAND", Some(("Złoty", None)), Some("PLN"), Some(985), Some("2"))]);
    assert_eq!(Registry::build(&non_ascii).unwrap_err(), BuildError::NonAsciiCurrencyIdentifier(985));
    let non_ascii_country = doc(vec![row("ÎLE", Some(("Franc", None)), Some("XFF"), Some(7), Some("2"))]);
    assert_eq!(Registry::build(&non_ascii_country).unwrap_err(), BuildError::NonAsciiCountryIdentifier(7));
}

#[test]
fn identifiers() {
    assert_eq!(currency_ident("US Dollar", "USD"), "UsDollar");
    assert_eq!(currency_ident("  Bolívar Soberano ", "VES"), "BolivarSoberano");
    assert_eq!(currency_ident("Bolívar Soberano", "VED"), "BolivarDigital");
    assert_eq!(country_ident("KOREA (THE REPUBLIC OF)"), "SouthKorea");
    assert_eq!(country_ident("BOLIVIA (PLURINATIONAL STATE OF)"), "Bolivia");
    assert_eq!(country_ident("RÉUNION"), "Reunion");
    assert_eq!(country_ident("NETHERLANDS (THE)"), "Netherlands");
    assert_eq!(country_ident("RUSSIAN FEDERATION (THE)"), "Russia");
}

#[test]
fn entry_accessors() {
    let e = row("  FRANCE ", Some((" Euro ", None)), Some(" EUR "), Some(978), Some(" N.A. "));
    assert_eq!(e.country(), "FRANCE");
    assert_eq!(e.currency(), Some("EUR"));
    assert_eq!(e.number(), Some(978));
    assert_eq!(e.minor_unit(), None);
    assert_eq!(e.name().unwrap().name(), "Euro");
    assert!(!e.name().unwrap().is_fund());
    assert_eq!(row("X", None, None, None, Some("")).minor_unit(), None);
    assert_eq!(row("X", None, None, None, Some("3")).minor_unit(), Some(3));
    assert_eq!(row("X", None, None, None, Some("x")).minor_unit(), None);
    assert!(row("X", None, None, None, Some("x")).minor_unit_is_malformed());
    assert!(!row("X", None, None, None, Some("N.A.")).minor_unit_is_malformed());
    let d = sample();
    assert_eq!(d.table().entries().len(), 9);
}

#[test]
fn published_date() {
    assert_eq!(sample().published(), Ok(Date { year: 2026, month: 1, day: 1 }));
    let bad = CurrencyDoc::new(CurrencyTable::new(vec![]), "01/01/2026".to_string());
    assert_eq!(bad.published(), Err(DateFormatError));
}

#[test]
fn numerals() {
    assert_eq!(parse_u8("255"), Some(255));
    assert_eq!(parse_u8("+7"), Some(7));
    assert_eq!(parse_u8("256"), None);
    assert_eq!(parse_u8("-1"), None);
    assert_eq!(parse_u8(""), None);
    assert_eq!(parse_u8("+"), None);
    assert_eq!(decimal_string(0), "0");
    assert_eq!(decimal_string(978), "978");
    assert_eq!(decimal_string(65535), "65535");
}

#[test]
fn ordering_is_stable() {
    let rows = vec![
        row("A", None, None, Some(9), None),
        row("B", None, None, None, None),
        row("C", None, None, Some(3), None),
        row("D", None, None, Some(9), None),
    ];
    assert_eq!(stable_order(&rows), vec![1, 2, 0, 3]);
    let set = EntrySet::from_entries(&rows, &[1, 2, 0, 3]).unwrap();
    assert!(set.entries.is_empty());
}

#[test]
fn error_predicates() {
    assert!(Error::InvalidCode.is_invalid_code());
    assert!(Error::InvalidLength.is_invalid_length());
    assert!(Error::InvalidCharset.is_invalid_charset());
    assert!(Error::NoUniversalCurrency.is_no_universal_currency());
    assert!(!Error::InvalidCode.is_no_universal_currency());
}

#[test]
fn replacement() {
    assert_eq!(replace("aaa", "aa", "b"), "ba");
    assert_eq!(replace("abc", "x", "y"), "abc");
    assert_eq!(replace("CôteDIvoire", "CôteDIvoire", "CoteDIvoire"), "CoteDIvoire");
    assert_eq!(replace("A(THE)B(THE)", "(THE)", ""), "AB");
}
