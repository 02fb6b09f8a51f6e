//! Symbolic identifiers derived from currency and country names, with the
//! fixed substitution tables that keep them ASCII and aligned with the
//! country registry's naming.
use vstd::prelude::*;

use crate::text::{
    begins_with, pascal_case, replace, replaced, same_chars, to_pascal_case, trim, trimmed,
};

verus! {

/// The identifier of a currency named `name` with code `alpha`.
pub open spec fn currency_identifier(name: Seq<char>, alpha: Seq<char>) -> Seq<char> {
    let id = replaced(pascal_case(trimmed(name)), "BolívarSoberano"@, "BolivarSoberano"@);
    if id == "BolivarSoberano"@ && alpha == "VED"@ {
        "BolivarDigital"@
    } else {
        id
    }
}

/// The pascal-case form of a country name, before renaming.
pub open spec fn country_pascal(country: Seq<char>) -> Seq<char> {
    let a = replaced(country, "(THE)"@, ""@);
    let b = replaced(a, "(PLURINATIONAL STATE OF)"@, ""@);
    pascal_case(trimmed(b))
}

/// The renames that take diacritics out of a pascal-case country name.
pub open spec fn country_plain(p: Seq<char>) -> Seq<char> {
    let s1 = replaced(p, "ÅlandIslands"@, "AlandIslands"@);
    let s2 = replaced(s1, "CôteDIvoire"@, "CoteDIvoire"@);
    let s3 = replaced(s2, "Curaçao"@, "Curacao"@);
    let s4 = replaced(s3, "CongoTheDemocraticRepublicOfThe"@, "DemocraticRepublicOfTheCongo"@);
    let s5 = replaced(s4, "IranIslamicRepublicOf"@, "Iran"@);
    let s6 = replaced(s5, "KoreaTheDemocraticPeopleSRepublicOf"@, "NorthKorea"@);
    let s7 = replaced(s6, "KoreaTheRepublicOf"@, "SouthKorea"@);
    let s8 = replaced(s7, "LaoPeopleSDemocraticRepublic"@, "Laos"@);
    let s9 = replaced(s8, "MicronesiaFederatedStatesOf"@, "Micronesia"@);
    replaced(s9, "MoldovaTheRepublicOf"@, "Moldova"@)
}

/// The renames that align a country name with the country registry's naming.
pub open spec fn country_aligned(p: Seq<char>) -> Seq<char> {
    let s1 = replaced(p, "Réunion"@, "Reunion"@);
    let s2 = replaced(s1, "RussianFederation"@, "Russia"@);
    let s3 = replaced(s2, "SaintBarthélemy"@, "SaintBarthelemy"@);
    let s4 = replaced(s3, "SyrianArabRepublic"@, "Syria"@);
    let s5 = replaced(s4, "TaiwanProvinceOfChina"@, "Taiwan"@);
    let s6 = replaced(s5, "TanzaniaUnitedRepublicOf"@, "Tanzania"@);
    let s7 = replaced(
        s6,
        "UnitedKingdomOfGreatBritainAndNorthernIreland"@,
        "UnitedKingdom"@,
    );
    let s8 = replaced(s7, "Türki̇ye"@, "Turkey"@);
    let s9 = replaced(s8, "VenezuelaBolivarianRepublicOf"@, "Venezuela"@);
    replaced(s9, "VirginIslandsBritish"@, "BritishVirginIslands"@)
}

/// The identifier of a country named `country`.
pub open spec fn country_identifier(country: Seq<char>) -> Seq<char> {
    country_aligned(country_plain(country_pascal(country)))
}

/// Whether a country identifier names a supranational or regional body
/// rather than a country.
pub open spec fn is_non_country(c: Seq<char>) -> bool {
    c == "ArabMonetaryFund"@
    || c == "EuropeanUnion"@
    || c == "InternationalMonetaryFundImf"@
    || c == "MemberCountriesOfTheAfricanDevelopmentBankGroup"@
    || c == "SistemaUnitarioDeCompensacionRegionalDePagosSucre"@
}

/// Whether a country identifier is one of the reserved, user-assigned codes.
pub open spec fn is_reserved_country(c: Seq<char>) -> bool {
    2 <= c.len() && c.subrange(0, 2) == "Zz"@
}

/// Whether a row of country `c` and fund status `fund` associates the
/// country with its currency.
pub open spec fn is_associated(c: Seq<char>, fund: bool) -> bool {
    !is_reserved_country(c) && !is_non_country(c) && !fund
}

/// The identifier of a currency named `name` with code `alpha`.
pub fn currency_ident(name: &str, alpha: &str) -> (r: String)
    ensures
        r@ == currency_identifier(name@, alpha@),
{
    proof {
        reveal_strlit("BolívarSoberano");
    }
    let p = to_pascal_case(trim(name));
    let id = replace(p.as_str(), "BolívarSoberano", "BolivarSoberano");
    if same_chars(id.as_str(), "BolivarSoberano") && same_chars(alpha, "VED") {
        String::from_str("BolivarDigital")
    } else {
        id
    }
}

fn country_plain_exec(p: String) -> (r: String)
    ensures
        r@ == country_plain(p@),
{
    proof {
        reveal_strlit("ÅlandIslands");
        reveal_strlit("CôteDIvoire");
        reveal_strlit("Curaçao");
        reveal_strlit("CongoTheDemocraticRepublicOfThe");
        reveal_strlit("IranIslamicRepublicOf");
        reveal_strlit("KoreaTheDemocraticPeopleSRepublicOf");
        reveal_strlit("KoreaTheRepublicOf");
        reveal_strlit("LaoPeopleSDemocraticRepublic");
        reveal_strlit("MicronesiaFederatedStatesOf");
        reveal_strlit("MoldovaTheRepublicOf");
    }
    let s = replace(p.as_str(), "ÅlandIslands", "AlandIslands");
    let s = replace(s.as_str(), "CôteDIvoire", "CoteDIvoire");
    let s = replace(s.as_str(), "Curaçao", "Curacao");
    let s = replace(s.as_str(), "CongoTheDemocraticRepublicOfThe", "DemocraticRepublicOfTheCongo");
    let s = replace(s.as_str(), "IranIslamicRepublicOf", "Iran");
    let s = replace(s.as_str(), "KoreaTheDemocraticPeopleSRepublicOf", "NorthKorea");
    let s = replace(s.as_str(), "KoreaTheRepublicOf", "SouthKorea");
    let s = replace(s.as_str(), "LaoPeopleSDemocraticRepublic", "Laos");
    let s = replace(s.as_str(), "MicronesiaFederatedStatesOf", "Micronesia");
    replace(s.as_str(), "MoldovaTheRepublicOf", "Moldova")
}

fn country_aligned_exec(p: String) -> (r: String)
    ensures
        r@ == country_aligned(p@),
{
    proof {
        reveal_strlit("Réunion");
        reveal_strlit("RussianFederation");
        reveal_strlit("SaintBarthélemy");
        reveal_strlit("SyrianArabRepublic");
        reveal_strlit("TaiwanProvinceOfChina");
        reveal_strlit("TanzaniaUnitedRepublicOf");
        reveal_strlit("UnitedKingdomOfGreatBritainAndNorthernIreland");
        reveal_strlit("Türki̇ye");
        reveal_strlit("VenezuelaBolivarianRepublicOf");
        reveal_strlit("VirginIslandsBritish");
    }
    let s = replace(p.as_str(), "Réunion", "Reunion");
    let s = replace(s.as_str(), "RussianFederation", "Russia");
    let s = replace(s.as_str(), "SaintBarthélemy", "SaintBarthelemy");
    let s = replace(s.as_str(), "SyrianArabRepublic", "Syria");
    let s = replace(s.as_str(), "TaiwanProvinceOfChina", "Taiwan");
    let s = replace(s.as_str(), "TanzaniaUnitedRepublicOf", "Tanzania");
    let s = replace(
        s.as_str(),
        "UnitedKingdomOfGreatBritainAndNorthernIreland",
        "UnitedKingdom",
    );
    let s = replace(s.as_str(), "Türki̇ye", "Turkey");
    let s = replace(s.as_str(), "VenezuelaBolivarianRepublicOf", "Venezuela");
    replace(s.as_str(), "VirginIslandsBritish", "BritishVirginIslands")
}

/// The identifier of a country named `country`.
pub fn country_ident(country: &str) -> (r: String)
    ensures
        r@ == country_identifier(country@),
{
    proof {
        reveal_strlit("(THE)");
        reveal_strlit("(PLURINATIONAL STATE OF)");
    }
    let a = replace(country, "(THE)", "");
    let b = replace(a.as_str(), "(PLURINATIONAL STATE OF)", "");
    let p = to_pascal_case(trim(b.as_str()));
    country_aligned_exec(country_plain_exec(p))
}

/// Whether a row of country identifier `country` and fund status `fund`
/// associates the country with its currency.
pub fn associates(country: &str, fund: bool) -> (r: bool)
    ensures
        r == is_associated(country@, fund),
{
    let non_country = same_chars(country, "ArabMonetaryFund")
        || same_chars(country, "EuropeanUnion")
        || same_chars(country, "InternationalMonetaryFundImf")
        || same_chars(country, "MemberCountriesOfTheAfricanDevelopmentBankGroup")
        || same_chars(country, "SistemaUnitarioDeCompensacionRegionalDePagosSucre");
    proof {
        reveal_strlit("Zz");
    }
    let reserved = begins_with(country, "Zz");
    !reserved && !non_country && !fund
}

} // verus!
