//! The entry normalizer and country mapper: raw rows become canonical
//! entries, one per numeric code, and an association of countries with the
//! currency identifiers they use.
use vstd::prelude::*;

use crate::document::{minor_unit_malformed, minor_unit_of, raw_minor_unit, CurrencyEntry};
use crate::identifiers::{
    associates, country_ident, country_identifier, currency_ident, currency_identifier,
    is_associated,
};
use crate::text::{decimal, decimal_string, same_chars, trimmed};
use vstd::utf8::is_ascii_chars;

verus! {

/// What a canonical entry holds, as mathematical values.
pub ghost struct EntryModel {
    pub identifier: Seq<char>,
    pub alpha_code: Seq<char>,
    pub number: u16,
    pub name: Seq<char>,
    pub is_fund: bool,
    pub minor_unit: Option<u8>,
    pub doc: Seq<char>,
}

/// One currency of the registry, after normalization.
#[derive(Clone, Debug)]
pub struct CanonicalEntry {
    /// The ASCII symbolic name derived from the currency name.
    pub identifier: String,
    /// The three-letter code.
    pub alpha_code: String,
    /// The numeric code.
    pub number: u16,
    /// The currency name.
    pub name: String,
    /// Whether the currency is a fund.
    pub is_fund: bool,
    /// The number of decimal places of the minor unit, if there is one.
    pub minor_unit: Option<u8>,
    /// A one-line human-readable summary.
    pub doc: String,
}

impl View for CanonicalEntry {
    type V = EntryModel;

    open spec fn view(&self) -> EntryModel {
        EntryModel {
            identifier: self.identifier@,
            alpha_code: self.alpha_code@,
            number: self.number,
            name: self.name@,
            is_fund: self.is_fund,
            minor_unit: self.minor_unit,
            doc: self.doc@,
        }
    }
}

/// A country and the identifier of the currency it uses.
#[derive(Clone, Debug)]
pub struct CountryAssociation {
    /// The country identifier, as the country registry names it.
    pub country: String,
    /// The identifier of a canonical entry.
    pub currency: String,
}

/// Why the source data cannot be compiled into a registry; each names the
/// numeric code of the row at fault.
#[derive(Clone, Copy, Debug, PartialEq, Eq)]
pub enum BuildError {
    /// The currency identifier is not ASCII after substitution.
    NonAsciiCurrencyIdentifier(u16),
    /// The country identifier is not ASCII after substitution.
    NonAsciiCountryIdentifier(u16),
    /// The alphabetic code is not three ASCII letters.
    MalformedAlphaCode(u16),
    /// The minor unit is neither `N.A.`, empty, nor a byte-sized number.
    MalformedMinorUnit(u16),
    /// The alphabetic code is already bound to another numeric code.
    DuplicateAlphaCode(u16),
    /// The currency identifier is already taken by another numeric code.
    DuplicateIdentifier(u16),
    /// The row repeats a numeric code with another alphabetic code or
    /// currency identifier than the entry kept for it.
    ConflictingRow(u16),
}

/// The canonical entries and the country associations of a registry.
#[derive(Clone, Debug)]
pub struct EntrySet {
    /// The canonical entries, one per numeric code.
    pub entries: Vec<CanonicalEntry>,
    /// The countries and the currency identifiers they use, each country once.
    pub countries: Vec<CountryAssociation>,
}

/// The documentation line of a currency.
pub open spec fn doc_line(name: Seq<char>, alpha: Seq<char>, number: u16, fund: bool) -> Seq<char> {
    " "@ + name + " ("@ + alpha + ", "@ + decimal(number as nat) + (if fund {
        ", Fund"@
    } else {
        ""@
    }) + ")"@
}

/// Whether a row names a currency: it has a code, a number and a name.
pub open spec fn names_currency(e: CurrencyEntry) -> bool {
    e.currency is Some && e.number is Some && e.name is Some
}

/// The trimmed alphabetic code of a row that names a currency.
pub open spec fn row_alpha(e: CurrencyEntry) -> Seq<char> {
    trimmed(e.currency->Some_0@)
}

/// The trimmed currency name of a row that names a currency.
pub open spec fn row_name(e: CurrencyEntry) -> Seq<char> {
    trimmed(e.name->Some_0.name@)
}

/// Whether a row that names a currency marks it as a fund.
pub open spec fn row_fund(e: CurrencyEntry) -> bool {
    e.name->Some_0.is_fund == Some(true)
}

/// The currency identifier of a row that names a currency.
pub open spec fn row_identifier(e: CurrencyEntry) -> Seq<char> {
    currency_identifier(row_name(e), row_alpha(e))
}

/// The country identifier of a row.
pub open spec fn row_country(e: CurrencyEntry) -> Seq<char> {
    country_identifier(trimmed(e.country@))
}

/// The canonical entry that a row that names a currency stands for.
pub open spec fn row_entry(e: CurrencyEntry) -> EntryModel {
    EntryModel {
        identifier: row_identifier(e),
        alpha_code: row_alpha(e),
        number: e.number->Some_0,
        name: row_name(e),
        is_fund: row_fund(e),
        minor_unit: minor_unit_of(raw_minor_unit(e)),
        doc: doc_line(row_name(e), row_alpha(e), e.number->Some_0, row_fund(e)),
    }
}

/// Whether an entry of `s` has numeric code `n`.
pub open spec fn has_number(s: Seq<EntryModel>, n: u16) -> bool {
    exists|i: int| 0 <= i < s.len() && (#[trigger] s[i]).number == n
}

/// Whether an entry of `s` has alphabetic code `a`.
pub open spec fn has_alpha(s: Seq<EntryModel>, a: Seq<char>) -> bool {
    exists|i: int| 0 <= i < s.len() && (#[trigger] s[i]).alpha_code == a
}

/// Whether an entry of `s` has identifier `id`.
pub open spec fn has_identifier(s: Seq<EntryModel>, id: Seq<char>) -> bool {
    exists|i: int| 0 <= i < s.len() && (#[trigger] s[i]).identifier == id
}

/// Whether `c` is an ASCII letter.
pub open spec fn is_letter(c: char) -> bool {
    ('A' <= c && c <= 'Z') || ('a' <= c && c <= 'z')
}

/// Whether `a` is a well-formed alphabetic code: three ASCII letters.
pub open spec fn is_alpha_code(a: Seq<char>) -> bool {
    a.len() == 3 && forall|i: int| 0 <= i < a.len() ==> is_letter(#[trigger] a[i])
}

/// Whether an entry of `s` has numeric code `n`, alphabetic code `a` and
/// identifier `id`.
pub open spec fn has_entry(s: Seq<EntryModel>, n: u16, a: Seq<char>, id: Seq<char>) -> bool {
    exists|i: int|
        0 <= i < s.len() && (#[trigger] s[i]).number == n && s[i].alpha_code == a
            && s[i].identifier == id
}

/// The effect of one row on the canonical entries so far.
pub open spec fn normalize_row(s: Seq<EntryModel>, e: CurrencyEntry) -> Result<Seq<EntryModel>, BuildError> {
    if !names_currency(e) {
        Ok(s)
    } else {
        let number = e.number->Some_0;
        let alpha = row_alpha(e);
        let id = row_identifier(e);
        if !is_ascii_chars(id) {
            Err(BuildError::NonAsciiCurrencyIdentifier(number))
        } else if !is_ascii_chars(row_country(e)) {
            Err(BuildError::NonAsciiCountryIdentifier(number))
        } else if has_number(s, number) {
            if has_entry(s, number, alpha, id) {
                Ok(s)
            } else {
                Err(BuildError::ConflictingRow(number))
            }
        } else if !is_alpha_code(alpha) {
            Err(BuildError::MalformedAlphaCode(number))
        } else if minor_unit_malformed(raw_minor_unit(e)) {
            Err(BuildError::MalformedMinorUnit(number))
        } else if has_alpha(s, alpha) {
            Err(BuildError::DuplicateAlphaCode(number))
        } else if has_identifier(s, id) {
            Err(BuildError::DuplicateIdentifier(number))
        } else {
            Ok(s.push(row_entry(e)))
        }
    }
}

/// The canonical entries of `rows` taken in order: the first row of each
/// numeric code is kept, and the first row at fault stops it.
pub open spec fn normalized(rows: Seq<CurrencyEntry>) -> Result<Seq<EntryModel>, BuildError>
    decreases rows.len(),
{
    if rows.len() == 0 {
        Ok(Seq::empty())
    } else {
        match normalized(rows.drop_last()) {
            Err(x) => Err(x),
            Ok(s) => normalize_row(s, rows.last()),
        }
    }
}

/// The currency identifier of each associated country: every qualifying row,
/// in source order, overrides what earlier rows gave its country.
pub open spec fn associations(rows: Seq<CurrencyEntry>) -> Map<Seq<char>, Seq<char>>
    decreases rows.len(),
{
    if rows.len() == 0 {
        Map::empty()
    } else {
        let m = associations(rows.drop_last());
        let e = rows.last();
        if names_currency(e) && is_associated(row_country(e), row_fund(e)) {
            m.insert(row_country(e), row_identifier(e))
        } else {
            m
        }
    }
}

/// Whether `cs` lists each key of `m` exactly once, with its value.
pub open spec fn lists_map(cs: Seq<CountryAssociation>, m: Map<Seq<char>, Seq<char>>) -> bool {
    &&& forall|i: int, j: int|
        0 <= i < cs.len() && 0 <= j < cs.len() && i != j ==> (#[trigger] cs[i]).country@
            != (#[trigger] cs[j]).country@
    &&& forall|i: int|
        0 <= i < cs.len() ==> m.contains_key((#[trigger] cs[i]).country@) && m[cs[i].country@]
            == cs[i].currency@
    &&& forall|k: Seq<char>|
        m.contains_key(k) ==> exists|i: int| 0 <= i < cs.len() && (#[trigger] cs[i]).country@ == k
}

/// Whether `s` lists each country at most once.
pub open spec fn countries_unique(s: Seq<CountryAssociation>) -> bool {
    forall|i: int, j: int|
        0 <= i < s.len() && 0 <= j < s.len() && i != j ==> (#[trigger] s[i]).country@ != (
        #[trigger] s[j]).country@
}

/// The rows of `rows` in the order `order` gives.
pub open spec fn in_order(rows: Seq<CurrencyEntry>, order: Seq<usize>) -> Seq<CurrencyEntry> {
    order.map_values(|k: usize| rows[k as int])
}

/// The sort key of a row: rows without a number come first.
pub open spec fn row_key(e: CurrencyEntry) -> int {
    match e.number {
        None => -1,
        Some(n) => n as int,
    }
}

/// Whether position `t` occurs in `order`.
pub open spec fn occurs(order: Seq<usize>, t: int) -> bool {
    exists|a: int| 0 <= a < order.len() && order[a] == t
}

/// Whether `order` lists every position of `rows` once, ascending by number,
/// and by position in `rows` among equal numbers.
pub open spec fn is_stable_order(rows: Seq<CurrencyEntry>, order: Seq<usize>) -> bool {
    &&& order.len() == rows.len()
    &&& forall|a: int| 0 <= a < order.len() ==> (#[trigger] order[a]) < rows.len()
    &&& forall|t: int| 0 <= t < rows.len() ==> #[trigger] occurs(order, t)
    &&& forall|a: int, b: int|
        0 <= a < b < order.len() ==> row_key(rows[#[trigger] order[a] as int]) < row_key(
            rows[#[trigger] order[b] as int],
        ) || (row_key(rows[order[a] as int]) == row_key(rows[order[b] as int]) && order[a]
            < order[b])
}

/// Whether the entries of `s` are ascending by number, with distinct codes
/// and identifiers, alphabetic codes of three ASCII letters and ASCII
/// identifiers.
pub open spec fn entries_wf(s: Seq<EntryModel>) -> bool {
    &&& forall|i: int, j: int| 0 <= i < j < s.len() ==> (#[trigger] s[i]).number < (#[trigger] s[j]).number
    &&& forall|i: int, j: int|
        0 <= i < s.len() && 0 <= j < s.len() && i != j ==> (#[trigger] s[i]).alpha_code != (
        #[trigger] s[j]).alpha_code
    &&& forall|i: int, j: int|
        0 <= i < s.len() && 0 <= j < s.len() && i != j ==> (#[trigger] s[i]).identifier != (
        #[trigger] s[j]).identifier
    &&& forall|i: int|
        0 <= i < s.len() ==> is_alpha_code((#[trigger] s[i]).alpha_code) && is_ascii_chars(
            s[i].alpha_code,
        ) && is_ascii_chars(s[i].identifier)
}

/// Whether the rows of `rows` are ascending by their sort key.
pub open spec fn rows_ascending(rows: Seq<CurrencyEntry>) -> bool {
    forall|a: int, b: int| 0 <= a < b < rows.len() ==> row_key(#[trigger] rows[a]) <= row_key(#[trigger] rows[b])
}

/// Normalizing rows ascending by number gives entries ascending by number,
/// with distinct numbers, codes and identifiers.
pub proof fn lemma_normalized_wf(rows: Seq<CurrencyEntry>)
    requires
        rows_ascending(rows),
    ensures
        normalized(rows) matches Ok(s) ==> entries_wf(s) && (forall|i: int|
            0 <= i < s.len() ==> rows.len() > 0 && (#[trigger] s[i]).number as int
                <= row_key(rows.last())),
    decreases rows.len(),
{
    if rows.len() > 0 {
        let pre = rows.drop_last();
        assert(rows_ascending(pre)) by {
            assert forall|a: int, b: int| 0 <= a < b < pre.len() implies row_key(#[trigger] pre[a]) <= row_key(#[trigger] pre[b]) by {
                assert(pre[a] == rows[a] && pre[b] == rows[b]);
            }
        }
        lemma_normalized_wf(pre);
        if let Ok(s) = normalized(pre) {
            if pre.len() > 0 {
                assert(row_key(pre.last()) <= row_key(rows.last())) by {
                    assert(pre.last() == rows[rows.len() - 2]);
                }
            }
            let e = rows.last();
            if let Ok(s2) = normalize_row(s, e) {
                if s2.len() > s.len() {
                    assert(s2 == s.push(row_entry(e)));
                    assert(!has_number(s, e.number->Some_0));
                    let a = row_alpha(e);
                    assert forall|i: int| 0 <= i < a.len() implies '\0' <= #[trigger] a[i] <= '\u{7f}' by {
                        assert(is_letter(a[i]));
                    }
                    assert forall|i: int| 0 <= i < s.len() implies (#[trigger] s[i]).number < e.number->Some_0 by {
                        assert(s[i].number != e.number->Some_0);
                    }
                    assert forall|i: int, j: int| 0 <= i < s2.len() && 0 <= j < s2.len() && i != j
                        implies (#[trigger] s2[i]).alpha_code != (#[trigger] s2[j]).alpha_code by {
                        if i == s.len() {
                            assert(s2[j] == s[j]);
                        } else if j == s.len() {
                            assert(s2[i] == s[i]);
                        }
                    }
                    assert forall|i: int, j: int| 0 <= i < s2.len() && 0 <= j < s2.len() && i != j
                        implies (#[trigger] s2[i]).identifier != (#[trigger] s2[j]).identifier by {
                        if i == s.len() {
                            assert(s2[j] == s[j]);
                        } else if j == s.len() {
                            assert(s2[i] == s[i]);
                        }
                    }
                }
            }
        }
    }
}

/// When normalizing succeeds, every row that names a currency agrees with
/// a canonical entry on number, code and identifier, and its country
/// identifier is ASCII.
pub proof fn lemma_rows_have_entries(rows: Seq<CurrencyEntry>)
    ensures
        normalized(rows) matches Ok(s) ==> forall|t: int|
            0 <= t < rows.len() && names_currency(#[trigger] rows[t]) ==> has_entry(
                s,
                rows[t].number->Some_0,
                row_alpha(rows[t]),
                row_identifier(rows[t]),
            ),
    decreases rows.len(),
{
    if rows.len() > 0 {
        let pre = rows.drop_last();
        lemma_rows_have_entries(pre);
        if let Ok(s) = normalized(pre) {
            if let Ok(s2) = normalize_row(s, rows.last()) {
                assert forall|t: int| 0 <= t < rows.len() && names_currency(#[trigger] rows[t]) implies has_entry(
                    s2,
                    rows[t].number->Some_0,
                    row_alpha(rows[t]),
                    row_identifier(rows[t]),
                ) by {
                    let e = rows[t];
                    if t < pre.len() {
                        assert(pre[t] == e);
                        let i = choose|i: int|
                            0 <= i < s.len() && (#[trigger] s[i]).number == e.number->Some_0
                                && s[i].alpha_code == row_alpha(e) && s[i].identifier == row_identifier(e);
                        if s2.len() > s.len() {
                            assert(s2 == s.push(row_entry(rows.last())));
                            assert(s2[i] == s[i]);
                        }
                    } else if s2.len() > s.len() {
                        assert(s2 == s.push(row_entry(e)));
                        assert(s2[s.len() as int] == row_entry(e));
                    }
                }
            }
        }
    }
}

/// Once a prefix of the rows is at fault, so are the rows.
proof fn lemma_error_persists(rows: Seq<CurrencyEntry>, k: int, x: BuildError)
    requires
        0 <= k <= rows.len(),
        normalized(rows.take(k)) == Err::<Seq<EntryModel>, BuildError>(x),
    ensures
        normalized(rows) == Err::<Seq<EntryModel>, BuildError>(x),
    decreases rows.len() - k,
{
    if k < rows.len() {
        assert(rows.take(k + 1).drop_last() =~= rows.take(k));
        lemma_error_persists(rows, k + 1, x);
    } else {
        assert(rows.take(k) =~= rows);
    }
}

impl EntrySet {
    /// What the entries of this set hold.
    pub open spec fn model(&self) -> Seq<EntryModel> {
        self.entries@.map_values(|e: CanonicalEntry| e@)
    }

    /// Whether this set is what normalizing `rows` gives: the entries from
    /// the rows in the order `order` gives, the associations from the rows in
    /// source order.
    pub open spec fn is_normalized(&self, rows: Seq<CurrencyEntry>, order: Seq<usize>) -> bool {
        normalized(in_order(rows, order)) matches Ok(s) && self.model() == s && lists_map(
            self.countries@,
            associations(rows),
        )
    }

    /// Whether the entries are ascending by number with distinct codes and
    /// identifiers, each country is listed once, and each association names
    /// an entry.
    pub open spec fn wf(&self) -> bool {
        &&& entries_wf(self.model())
        &&& countries_unique(self.countries@)
        &&& forall|j: int|
            0 <= j < self.countries@.len() ==> has_identifier(
                self.model(),
                (#[trigger] self.countries@[j]).currency@,
            )
    }

    /// Normalizes `rows`: the canonical entries come from the rows taken in
    /// the stable order `order`, keeping the first row of each numeric code;
    /// each country is associated with the currency of its last qualifying
    /// row in source order.
    pub fn from_entries(rows: &[CurrencyEntry], order: &[usize]) -> (r: Result<EntrySet, BuildError>)
        requires
            is_stable_order(rows@, order@),
        ensures
            match r {
                Ok(set) => set.is_normalized(rows@, order@) && set.wf(),
                Err(x) => normalized(in_order(rows@, order@)) == Err::<Seq<EntryModel>, BuildError>(x),
            },
    {
        let ghost sorted = in_order(rows@, order@);
        proof {
            assert(rows_ascending(sorted)) by {
                assert forall|a: int, b: int| 0 <= a < b < sorted.len() implies row_key(
                    #[trigger] sorted[a],
                ) <= row_key(#[trigger] sorted[b]) by {
                    assert(sorted[a] == rows@[order@[a] as int]);
                    assert(sorted[b] == rows@[order@[b] as int]);
                }
            }
            lemma_normalized_wf(sorted);
            lemma_rows_have_entries(sorted);
        }
        let mut entries: Vec<CanonicalEntry> = Vec::new();
        let mut k: usize = 0;
        while k < order.len()
            invariant
                k <= order@.len(),
                sorted == in_order(rows@, order@),
                is_stable_order(rows@, order@),
                normalized(sorted.take(k as int)) matches Ok(s) && entries@.map_values(
                    |e: CanonicalEntry| e@,
                ) == s,
            decreases order@.len() - k,
        {
            let ghost prefix = sorted.take(k as int);
            assert(sorted.take(k as int + 1).drop_last() =~= prefix);
            let e = &rows[order[k]];
            assert(*e == sorted[k as int]);
            let ghost s = normalized(prefix)->Ok_0;
            assert(normalized(sorted.take(k as int + 1)) == normalize_row(s, sorted[k as int]));
            match (e.currency(), e.number(), e.name()) {
                (Some(alpha), Some(number), Some(name)) => {
                    let id = currency_ident(name.name(), alpha);
                    let failure = if !id.is_ascii() {
                        Some(BuildError::NonAsciiCurrencyIdentifier(number))
                    } else if !country_ident(e.country()).is_ascii() {
                        Some(BuildError::NonAsciiCountryIdentifier(number))
                    } else if contains_number(&entries, number) {
                        if contains_entry(&entries, number, alpha, id.as_str()) {
                            None
                        } else {
                            Some(BuildError::ConflictingRow(number))
                        }
                    } else if !is_letter_code(alpha) {
                        Some(BuildError::MalformedAlphaCode(number))
                    } else if e.minor_unit_is_malformed() {
                        Some(BuildError::MalformedMinorUnit(number))
                    } else if contains_alpha(&entries, alpha) {
                        Some(BuildError::DuplicateAlphaCode(number))
                    } else if contains_identifier(&entries, id.as_str()) {
                        Some(BuildError::DuplicateIdentifier(number))
                    } else {
                        let fund = name.is_fund();
                        let doc = doc_string(name.name(), alpha, number, fund);
                        let entry = CanonicalEntry {
                            identifier: id,
                            alpha_code: String::from_str(alpha),
                            number,
                            name: String::from_str(name.name()),
                            is_fund: fund,
                            minor_unit: e.minor_unit(),
                            doc,
                        };
                        entries.push(entry);
                        assert(entries@.map_values(|e: CanonicalEntry| e@) =~= s.push(
                            row_entry(sorted[k as int]),
                        ));
                        None
                    };
                    if let Some(x) = failure {
                        proof {
                            lemma_error_persists(sorted, k as int + 1, x);
                        }
                        return Err(x);
                    }
                },
                _ => {},
            }
            k = k + 1;
        }
        assert(sorted.take(order@.len() as int) =~= sorted);
        let ghost s = normalized(sorted)->Ok_0;
        let mut countries: Vec<CountryAssociation> = Vec::new();
        let mut k: usize = 0;
        while k < rows.len()
            invariant
                k <= rows@.len(),
                sorted == in_order(rows@, order@),
                is_stable_order(rows@, order@),
                normalized(sorted) == Ok::<Seq<EntryModel>, BuildError>(s),
                forall|t: int|
                    0 <= t < sorted.len() && names_currency(#[trigger] sorted[t]) ==> has_entry(
                        s,
                        sorted[t].number->Some_0,
                        row_alpha(sorted[t]),
                        row_identifier(sorted[t]),
                    ),
                entries@.map_values(|e: CanonicalEntry| e@) == s,
                lists_map(countries@, associations(rows@.take(k as int))),
                forall|c: Seq<char>|
                    associations(rows@.take(k as int)).contains_key(c) ==> has_identifier(
                        s,
                        #[trigger] associations(rows@.take(k as int))[c],
                    ),
            decreases rows@.len() - k,
        {
            let ghost prefix = rows@.take(k as int);
            assert(rows@.take(k as int + 1).drop_last() =~= prefix);
            let e = &rows[k];
            assert(rows@.take(k as int + 1).last() == rows@[k as int]);
            match (e.currency(), e.number(), e.name()) {
                (Some(alpha), Some(_), Some(name)) => {
                    assert(occurs(order@, k as int));
                    let ghost a = choose|a: int| 0 <= a < order@.len() && order@[a] == k as int;
                    assert(sorted[a] == rows@[k as int]);
                    let id = currency_ident(name.name(), alpha);
                    let country = country_ident(e.country());
                    if associates(country.as_str(), name.is_fund()) {
                        proof {
                            let i = choose|i: int|
                                0 <= i < s.len() && (#[trigger] s[i]).number == sorted[a].number->Some_0
                                    && s[i].alpha_code == row_alpha(sorted[a]) && s[i].identifier
                                    == row_identifier(sorted[a]);
                            assert(has_identifier(s, id@));
                        }
                        associate(&mut countries, country, id, Ghost(associations(prefix)));
                    }
                },
                _ => {},
            }
            k = k + 1;
        }
        assert(rows@.take(rows@.len() as int) =~= rows@);
        let set = EntrySet { entries, countries };
        assert forall|j: int| 0 <= j < set.countries@.len() implies has_identifier(
            set.model(),
            (#[trigger] set.countries@[j]).currency@,
        ) by {
            let c = set.countries@[j].country@;
            assert(associations(rows@).contains_key(c));
        }
        Ok(set)
    }
}

/// Whether `a` is three ASCII letters.
fn is_letter_code(a: &str) -> (r: bool)
    ensures
        r == is_alpha_code(a@),
{
    if a.unicode_len() != 3 {
        return false;
    }
    let mut i: usize = 0;
    while i < 3
        invariant
            a@.len() == 3,
            i <= 3,
            forall|j: int| 0 <= j < i ==> is_letter(#[trigger] a@[j]),
        decreases 3 - i,
    {
        let c = a.get_char(i);
        if !(('A' <= c && c <= 'Z') || ('a' <= c && c <= 'z')) {
            assert(!is_letter(a@[i as int]));
            return false;
        }
        i = i + 1;
    }
    true
}

/// Whether an entry of `entries` has numeric code `number`, alphabetic code
/// `alpha` and identifier `id`.
fn contains_entry(entries: &Vec<CanonicalEntry>, number: u16, alpha: &str, id: &str) -> (r: bool)
    ensures
        r == has_entry(entries@.map_values(|e: CanonicalEntry| e@), number, alpha@, id@),
{
    let ghost s = entries@.map_values(|e: CanonicalEntry| e@);
    let mut i: usize = 0;
    while i < entries.len()
        invariant
            i <= entries@.len(),
            s == entries@.map_values(|e: CanonicalEntry| e@),
            forall|j: int|
                0 <= j < i ==> !((#[trigger] s[j]).number == number && s[j].alpha_code == alpha@
                    && s[j].identifier == id@),
        decreases entries@.len() - i,
    {
        if entries[i].number == number && same_chars(entries[i].alpha_code.as_str(), alpha)
            && same_chars(entries[i].identifier.as_str(), id) {
            assert(s[i as int] == entries@[i as int]@);
            return true;
        }
        i = i + 1;
    }
    false
}

fn key_of(e: &CurrencyEntry) -> (r: i32)
    ensures
        r as int == row_key(*e),
{
    match e.number {
        None => -1,
        Some(n) => n as i32,
    }
}

/// The positions of `rows` ordered ascending by number, rows without a
/// number first, and in their own order among equal numbers.
pub fn stable_order(rows: &[CurrencyEntry]) -> (order: Vec<usize>)
    ensures
        is_stable_order(rows@, order@),
{
    let n = rows.len();
    let mut order: Vec<usize> = Vec::new();
    let mut k: usize = 0;
    while k < n
        invariant
            n == rows@.len(),
            k <= n,
            order@.len() == k,
            forall|a: int| 0 <= a < order@.len() ==> (#[trigger] order@[a]) < k,
            forall|t: int| 0 <= t < k ==> #[trigger] occurs(order@, t),
            forall|a: int, b: int|
                0 <= a < b < order@.len() ==> row_key(rows@[#[trigger] order@[a] as int]) < row_key(
                    rows@[#[trigger] order@[b] as int],
                ) || (row_key(rows@[order@[a] as int]) == row_key(rows@[order@[b] as int])
                    && order@[a] < order@[b]),
        decreases n - k,
    {
        let key = key_of(&rows[k]);
        let mut j: usize = 0;
        while j < order.len() && key_of(&rows[order[j]]) <= key
            invariant
                n == rows@.len(),
                k < n,
                order@.len() == k,
                j <= order@.len(),
                forall|a: int| 0 <= a < order@.len() ==> (#[trigger] order@[a]) < k,
                forall|a: int| 0 <= a < j ==> row_key(rows@[(#[trigger] order@[a]) as int]) <= key,
                key as int == row_key(rows@[k as int]),
                forall|a: int, b: int|
                    0 <= a < b < order@.len() ==> row_key(rows@[#[trigger] order@[a] as int]) < row_key(
                        rows@[#[trigger] order@[b] as int],
                    ) || (row_key(rows@[order@[a] as int]) == row_key(rows@[order@[b] as int])
                        && order@[a] < order@[b]),
            decreases order@.len() - j,
        {
            j = j + 1;
        }
        let ghost before = order@;
        assert forall|a: int| j <= a < before.len() implies row_key(rows@[(#[trigger] before[a]) as int]) > key by {
            if a > j {
                assert(row_key(rows@[before[j as int] as int]) <= row_key(rows@[before[a] as int]));
            }
        }
        order.insert(j, k);
        assert(order@ == before.insert(j as int, k));
        assert forall|t: int| 0 <= t < k + 1 implies #[trigger] occurs(order@, t) by {
            if t == k {
                assert(order@[j as int] == t);
            } else {
                assert(occurs(before, t));
                let a = choose|a: int| 0 <= a < before.len() && before[a] == t;
                if a < j {
                    assert(order@[a] == t);
                } else {
                    assert(order@[a + 1] == t);
                }
            }
        }
        assert forall|a: int, b: int|
            0 <= a < b < order@.len() implies row_key(rows@[#[trigger] order@[a] as int]) < row_key(
                rows@[#[trigger] order@[b] as int],
            ) || (row_key(rows@[order@[a] as int]) == row_key(rows@[order@[b] as int])
                && order@[a] < order@[b]) by {
            if a < j && b == j {
                assert(row_key(rows@[before[a] as int]) <= key);
            } else if a < j && b > j {
                assert(order@[b] == before[b - 1]);
            } else if a == j {
                assert(order@[b] == before[b - 1]);
                assert(row_key(rows@[before[b - 1] as int]) > key);
            } else if a > j {
                assert(order@[a] == before[a - 1]);
                assert(order@[b] == before[b - 1]);
            }
        }
        k = k + 1;
    }
    order
}

/// Sets `country` to use `currency` in `countries`, which lists `m`.
fn associate(
    countries: &mut Vec<CountryAssociation>,
    country: String,
    currency: String,
    Ghost(m): Ghost<Map<Seq<char>, Seq<char>>>,
)
    requires
        lists_map(old(countries)@, m),
    ensures
        lists_map(final(countries)@, m.insert(country@, currency@)),
{
    let n = countries.len();
    let mut i: usize = 0;
    while i < n
        invariant
            n == countries@.len(),
            i <= n,
            lists_map(countries@, m),
            forall|j: int| 0 <= j < i ==> (#[trigger] countries@[j]).country@ != country@,
        decreases n - i,
    {
        if same_chars(countries[i].country.as_str(), country.as_str()) {
            let ghost before = countries@;
            countries.set(i, CountryAssociation { country, currency });
            let ghost m2 = m.insert(country@, currency@);
            assert(before[i as int].country@ == country@);
            assert forall|a: int, b: int|
                0 <= a < countries@.len() && 0 <= b < countries@.len() && a != b implies
                (#[trigger] countries@[a]).country@ != (#[trigger] countries@[b]).country@ by {
                assert(countries@[a].country@ == before[a].country@);
                assert(countries@[b].country@ == before[b].country@);
            }
            assert forall|a: int| 0 <= a < countries@.len() implies m2.contains_key(
                (#[trigger] countries@[a]).country@) && m2[countries@[a].country@]
                == countries@[a].currency@ by {
                if a != i {
                    assert(before[a].country@ != before[i as int].country@);
                }
            }
            assert forall|k: Seq<char>| m2.contains_key(k)
                implies exists|j: int| 0 <= j < countries@.len() && (#[trigger] countries@[j]).country@ == k by {
                if k == country@ {
                    assert(countries@[i as int].country@ == k);
                } else {
                    let j = choose|j: int| 0 <= j < before.len() && (#[trigger] before[j]).country@ == k;
                    assert(countries@[j].country@ == k);
                }
            }
            assert(lists_map(countries@, m2));
            return;
        }
        i = i + 1;
    }
    let ghost before = countries@;
    countries.push(CountryAssociation { country, currency });
    let ghost m2 = m.insert(country@, currency@);
    assert(countries@[n as int].country@ == country@);
    assert forall|k: Seq<char>| m2.contains_key(k)
        implies exists|j: int| 0 <= j < countries@.len() && (#[trigger] countries@[j]).country@ == k by {
        if k == country@ {
            assert(countries@[n as int].country@ == k);
        } else {
            assert(m.contains_key(k));
            let j = choose|j: int| 0 <= j < before.len() && (#[trigger] before[j]).country@ == k;
            assert(countries@[j] == before[j]);
            assert(countries@[j].country@ == k);
        }
    }
    assert(lists_map(countries@, m2));
}

/// Whether an entry of `entries` has numeric code `number`.
fn contains_number(entries: &Vec<CanonicalEntry>, number: u16) -> (r: bool)
    ensures
        r == has_number(entries@.map_values(|e: CanonicalEntry| e@), number),
{
    let ghost s = entries@.map_values(|e: CanonicalEntry| e@);
    let mut i: usize = 0;
    while i < entries.len()
        invariant
            i <= entries@.len(),
            s == entries@.map_values(|e: CanonicalEntry| e@),
            forall|j: int| 0 <= j < i ==> (#[trigger] s[j]).number != number,
        decreases entries@.len() - i,
    {
        if entries[i].number == number {
            assert(s[i as int].number == number);
            return true;
        }
        i = i + 1;
    }
    false
}

/// Whether an entry of `entries` has alphabetic code `alpha`.
fn contains_alpha(entries: &Vec<CanonicalEntry>, alpha: &str) -> (r: bool)
    ensures
        r == has_alpha(entries@.map_values(|e: CanonicalEntry| e@), alpha@),
{
    let ghost s = entries@.map_values(|e: CanonicalEntry| e@);
    let mut i: usize = 0;
    while i < entries.len()
        invariant
            i <= entries@.len(),
            s == entries@.map_values(|e: CanonicalEntry| e@),
            forall|j: int| 0 <= j < i ==> (#[trigger] s[j]).alpha_code != alpha@,
        decreases entries@.len() - i,
    {
        if same_chars(entries[i].alpha_code.as_str(), alpha) {
            assert(s[i as int].alpha_code == alpha@);
            return true;
        }
        i = i + 1;
    }
    false
}

/// Whether an entry of `entries` has identifier `id`.
fn contains_identifier(entries: &Vec<CanonicalEntry>, id: &str) -> (r: bool)
    ensures
        r == has_identifier(entries@.map_values(|e: CanonicalEntry| e@), id@),
{
    let ghost s = entries@.map_values(|e: CanonicalEntry| e@);
    let mut i: usize = 0;
    while i < entries.len()
        invariant
            i <= entries@.len(),
            s == entries@.map_values(|e: CanonicalEntry| e@),
            forall|j: int| 0 <= j < i ==> (#[trigger] s[j]).identifier != id@,
        decreases entries@.len() - i,
    {
        if same_chars(entries[i].identifier.as_str(), id) {
            assert(s[i as int].identifier == id@);
            return true;
        }
        i = i + 1;
    }
    false
}

/// The documentation line of a currency.
pub fn doc_string(name: &str, alpha: &str, number: u16, fund: bool) -> (r: String)
    ensures
        r@ == doc_line(name@, alpha@, number, fund),
{
    let mut s = String::from_str(" ");
    s.append(name);
    s.append(" (");
    s.append(alpha);
    s.append(", ");
    let digits = decimal_string(number);
    s.append(digits.as_str());
    if fund {
        s.append(", Fund");
    } else {
        s.append("");
    }
    s.append(")");
    s
}

} // verus!
