//! Matching a place name typed by a user against the names of a place.
//!
//! A query names a city, optionally followed by a comma or a space and then
//! a country (its name or a two- or three-letter code), a state, or a state
//! and a country. Queries are compared in lower case.
use vstd::prelude::*;

use crate::text::{append, push_char};
use vstd::string::StrSliceExecFns;

verus! {

/// The lower-case form of `s`, as Unicode defines it.
pub uninterp spec fn lower_of(s: Seq<char>) -> Seq<char>;

/// Relies on `str::to_lowercase`: its result depends on the characters of
/// the string alone.
#[verifier::external_body]
fn lowercase(s: &str) -> (r: String)
    ensures
        r@ == lower_of(s@),
{
    s.to_lowercase()
}

/// True when `name`, already in lower case, is exactly the lower-case form of
/// a country's name or code.
pub fn check_country(name: &str, country: &str) -> (r: bool)
    ensures
        r == (name@ == lower_of(country@)),
{
    let country = lowercase(country);
    let name = name.to_owned();
    name == country
}

/// The names by which a city is known.
pub struct CityNames {
    pub city: String,
    pub city_ascii: String,
    pub country: String,
    pub iso2: String,
    pub iso3: String,
    pub admin_name: String,
}

/// True of the characters with Unicode's `White_Space` property.
pub open spec fn white_space(c: char) -> bool {
    let u = c as u32;
    (0x09 <= u <= 0x0D) || u == 0x20 || u == 0x85 || u == 0xA0 || u == 0x1680 || (0x2000 <= u
        <= 0x200A) || u == 0x2028 || u == 0x2029 || u == 0x202F || u == 0x205F || u == 0x3000
}

/// `s` without its leading white space.
pub open spec fn trim_start(s: Seq<char>) -> Seq<char>
    decreases s.len(),
{
    if s.len() > 0 && white_space(s[0]) {
        trim_start(s.drop_first())
    } else {
        s
    }
}

/// `s` without its trailing white space.
pub open spec fn trim_end(s: Seq<char>) -> Seq<char>
    decreases s.len(),
{
    if s.len() > 0 && white_space(s.last()) {
        trim_end(s.drop_last())
    } else {
        s
    }
}

/// `s` without white space at either end.
pub open spec fn trim(s: Seq<char>) -> Seq<char> {
    trim_end(trim_start(s))
}

/// `s` without its leading commas.
pub open spec fn skip_commas(s: Seq<char>) -> Seq<char>
    decreases s.len(),
{
    if s.len() > 0 && s[0] == ',' {
        skip_commas(s.drop_first())
    } else {
        s
    }
}

/// True when `name` names one of the countries of `row`.
pub open spec fn names_country(name: Seq<char>, row: CityNames) -> bool {
    name == lower_of(row.country@) || name == lower_of(row.iso2@) || name == lower_of(row.iso3@)
}

/// What follows a place's name in a query: nothing but white space, or a
/// comma or space and then a part that `tail_ok` accepts.
pub open spec fn after_name(rest: Seq<char>, tail_ok: bool) -> bool {
    if trim(rest).len() == 0 {
        true
    } else if rest[0] == ',' || rest[0] == ' ' {
        tail_ok
    } else {
        false
    }
}

/// The part of a query after a place's name and its separator.
pub open spec fn tail_of(rest: Seq<char>) -> Seq<char> {
    trim(skip_commas(rest))
}

/// True when `name` is the lower-case `state`, alone or followed by a country
/// of `row`.
pub open spec fn names_state(name: Seq<char>, state: Seq<char>, row: CityNames) -> bool {
    let st = lower_of(state);
    let rest = name.subrange(st.len() as int, name.len() as int);
    st.is_prefix_of(name) && after_name(rest, names_country(tail_of(rest), row))
}

/// True when `name` is the lower-case `city`, alone or followed by a country,
/// a state, or a state and a country of `row`.
pub open spec fn names_city(name: Seq<char>, city: Seq<char>, row: CityNames) -> bool {
    let cl = lower_of(city);
    let rest = name.subrange(cl.len() as int, name.len() as int);
    let tail = tail_of(rest);
    cl.is_prefix_of(name) && after_name(
        rest,
        names_country(tail, row) || (row.admin_name@.len() > 0 && tail == lower_of(row.admin_name@))
            || names_state(tail, row.admin_name@, row),
    )
}

/// True when `c` is a white-space character.
fn is_white_space(c: char) -> (r: bool)
    ensures
        r == white_space(c),
{
    let u = c as u32;
    (0x09 <= u && u <= 0x0D) || u == 0x20 || u == 0x85 || u == 0xA0 || u == 0x1680 || (0x2000 <= u
        && u <= 0x200A) || u == 0x2028 || u == 0x2029 || u == 0x202F || u == 0x205F || u == 0x3000
}

/// `s` without white space at either end.
fn trim_str(s: &str) -> (r: &str)
    ensures
        r@ == trim(s@),
{
    let mut t = s;
    while t.unicode_len() > 0 && is_white_space(t.get_char(0))
        invariant
            trim_start(t@) == trim_start(s@),
        decreases t@.len(),
    {
        let n = t.unicode_len();
        let ghost before = t@;
        t = t.substring_char(1, n);
        assert(t@ =~= before.drop_first());
    }
    let ghost front = t@;
    while t.unicode_len() > 0 && is_white_space(t.get_char(t.unicode_len() - 1))
        invariant
            trim_end(t@) == trim_end(front),
            front == trim_start(s@),
        decreases t@.len(),
    {
        let n = t.unicode_len();
        let ghost before = t@;
        t = t.substring_char(0, n - 1);
        assert(t@ =~= before.drop_last());
    }
    t
}

/// `s` without its leading commas.
fn skip_commas_str(s: &str) -> (r: &str)
    ensures
        r@ == skip_commas(s@),
{
    let mut t = s;
    while t.unicode_len() > 0 && t.get_char(0) == ','
        invariant
            skip_commas(t@) == skip_commas(s@),
        decreases t@.len(),
    {
        let n = t.unicode_len();
        let ghost before = t@;
        t = t.substring_char(1, n);
        assert(t@ =~= before.drop_first());
    }
    t
}

/// What follows `prefix` in `name`, if `name` starts with it.
fn strip_prefix_str<'a>(name: &'a str, prefix: &str) -> (r: Option<&'a str>)
    ensures
        r is Some <==> prefix@.is_prefix_of(name@),
        r matches Some(rest) ==> rest@ == name@.subrange(prefix@.len() as int, name@.len() as int),
{
    let n = name.unicode_len();
    let m = prefix.unicode_len();
    if m > n {
        return None;
    }
    let mut k: usize = 0;
    while k < m
        invariant
            n == name@.len(),
            m == prefix@.len(),
            m <= n,
            k <= m,
            forall|j: int| 0 <= j < k ==> prefix@[j] == name@[j],
        decreases m - k,
    {
        if prefix.get_char(k) != name.get_char(k) {
            return None;
        }
        k = k + 1;
    }
    assert(prefix@ =~= name@.subrange(0, m as int));
    Some(name.substring_char(m, n))
}

/// Whether `rest`, what follows a place's name in a query, is empty but for
/// white space (`Some(true)`), or starts another part (`None`), or neither
/// (`Some(false)`).
fn settle_rest(rest: &str) -> (r: Option<bool>)
    ensures
        r == Some(true) <==> trim(rest@).len() == 0,
        r is None <==> trim(rest@).len() != 0 && (rest@[0] == ',' || rest@[0] == ' '),
        forall|b: bool| #[trigger] after_name(rest@, b) == (r == Some(true) || (r is None && b)),
{
    let t = trim_str(rest);
    if t.unicode_len() == 0 {
        Some(true)
    } else {
        proof {
            lemma_trim_empty(rest@);
        }
        let c = rest.get_char(0);
        if c == ',' || c == ' ' {
            None
        } else {
            Some(false)
        }
    }
}

proof fn lemma_trim_start_empty(s: Seq<char>)
    ensures
        s.len() == 0 ==> trim_start(s).len() == 0,
        trim_start(s).len() <= s.len(),
    decreases s.len(),
{
    if s.len() > 0 && white_space(s[0]) {
        lemma_trim_start_empty(s.drop_first());
    }
}

proof fn lemma_trim_end_empty(s: Seq<char>)
    ensures
        s.len() == 0 ==> trim_end(s).len() == 0,
        trim_end(s).len() <= s.len(),
    decreases s.len(),
{
    if s.len() > 0 && white_space(s.last()) {
        lemma_trim_end_empty(s.drop_last());
    }
}

proof fn lemma_trim_empty(s: Seq<char>)
    ensures
        trim(s).len() != 0 ==> s.len() != 0,
{
    lemma_trim_start_empty(s);
    lemma_trim_end_empty(trim_start(s));
}

/// True when `name` names one of the countries of `row`.
pub fn check_countries(name: &str, row: &CityNames) -> (r: bool)
    ensures
        r == names_country(name@, *row),
{
    check_country(name, row.country.as_str()) || check_country(name, row.iso2.as_str())
        || check_country(name, row.iso3.as_str())
}

/// True when `name`, in lower case, is `state` alone or followed by a
/// country of `row`.
pub fn check_state(name: &str, state: &str, row: &CityNames) -> (r: bool)
    ensures
        r == names_state(name@, state@, *row),
{
    let state = lowercase(state);
    match strip_prefix_str(name, state.as_str()) {
        Some(rest) => match settle_rest(rest) {
            Some(b) => b,
            None => {
                let tail = trim_str(skip_commas_str(rest));
                check_countries(tail, row)
            },
        },
        None => false,
    }
}

/// True when `name`, in lower case, is `city` alone or followed by a
/// country, a state, or a state and a country of `row`.
pub fn check_city(name: &str, city: &str, row: &CityNames) -> (r: bool)
    ensures
        r == names_city(name@, city@, *row),
{
    let city_low = lowercase(city);
    match strip_prefix_str(name, city_low.as_str()) {
        Some(rest) => match settle_rest(rest) {
            Some(b) => b,
            None => {
                let tail = trim_str(skip_commas_str(rest));
                check_countries(tail, row) || (row.admin_name.unicode_len() > 0 && check_country(
                    tail,
                    row.admin_name.as_str(),
                )) || check_state(tail, row.admin_name.as_str(), row)
            },
        },
        None => false,
    }
}

/// True when `name` names the city of `row` by either of its names.
pub open spec fn names_row(name: Seq<char>, row: CityNames) -> bool {
    names_city(name, row.city@, row) || names_city(name, row.city_ascii@, row)
}

/// The indices, in order, of the first `n` rows that `name` names.
pub open spec fn matching_rows(name: Seq<char>, rows: Seq<CityNames>, n: int) -> Seq<usize>
    decreases n,
{
    if n <= 0 {
        Seq::empty()
    } else if names_row(name, rows[n - 1]) {
        matching_rows(name, rows, n - 1).push((n - 1) as usize)
    } else {
        matching_rows(name, rows, n - 1)
    }
}

/// The indices, in order, of the rows whose city `name` (in lower case)
/// names.
pub fn match_to_city(name: &str, locations: &[CityNames]) -> (r: Vec<usize>)
    ensures
        r@ == matching_rows(name@, locations@, locations@.len() as int),
{
    let mut out: Vec<usize> = Vec::new();
    let mut i: usize = 0;
    while i < locations.len()
        invariant
            i <= locations@.len(),
            out@ == matching_rows(name@, locations@, i as int),
        decreases locations@.len() - i,
    {
        let row = &locations[i];
        if check_city(name, row.city.as_str(), row) || check_city(name, row.city_ascii.as_str(), row) {
            out.push(i);
        }
        i = i + 1;
    }
    out
}

/// How many of the first `n` found rows have country code `code`.
pub open spec fn code_count(rows: Seq<CityNames>, found: Seq<usize>, code: Seq<char>, n: int) -> nat
    decreases n,
{
    if n <= 0 {
        0
    } else {
        code_count(rows, found, code, n - 1) + (if rows[found[n - 1] as int].iso2@ == code {
            1nat
        } else {
            0nat
        })
    }
}

/// The line that suggests `row`: `  * City, CODE`, or with the state before
/// the code, `  * City, State, CODE`, when `with_state`.
pub open spec fn suggestion(row: CityNames, with_state: bool) -> Seq<char> {
    seq![' ', ' ', '*', ' '] + row.city@ + seq![',', ' '] + (if with_state {
        row.admin_name@ + seq![',', ' ']
    } else {
        Seq::empty()
    }) + row.iso2@
}

/// One line per found row, in order, suggesting it to the user; a row shows
/// its state when another found row shares its country code.
pub fn city_suggestions(rows: &[CityNames], found: &[usize]) -> (r: Vec<String>)
    requires
        forall|k: int| 0 <= k < found@.len() ==> (#[trigger] found@[k]) < rows@.len(),
    ensures
        r@.len() == found@.len(),
        forall|k: int|
            0 <= k < found@.len() ==> (#[trigger] r@[k])@ == suggestion(
                rows@[found@[k] as int],
                code_count(rows@, found@, rows@[found@[k] as int].iso2@, found@.len() as int) > 1,
            ),
{
    let mut out: Vec<String> = Vec::new();
    let mut k: usize = 0;
    while k < found.len()
        invariant
            forall|j: int| 0 <= j < found@.len() ==> (#[trigger] found@[j]) < rows@.len(),
            k <= found@.len(),
            out@.len() == k,
            forall|a: int|
                0 <= a < k ==> (#[trigger] out@[a])@ == suggestion(
                    rows@[found@[a] as int],
                    code_count(rows@, found@, rows@[found@[a] as int].iso2@, found@.len() as int) > 1,
                ),
        decreases found@.len() - k,
    {
        let row = &rows[found[k]];
        let mut count: usize = 0;
        let mut j: usize = 0;
        while j < found.len()
            invariant
                forall|i: int| 0 <= i < found@.len() ==> (#[trigger] found@[i]) < rows@.len(),
                j <= found@.len(),
                count == code_count(rows@, found@, row.iso2@, j as int),
                count <= j,
            decreases found@.len() - j,
        {
            if rows[found[j]].iso2 == row.iso2 {
                count = count + 1;
            }
            j = j + 1;
        }
        let mut line = String::new();
        append(&mut line, "  * ");
        append(&mut line, row.city.as_str());
        append(&mut line, ", ");
        if count > 1 {
            append(&mut line, row.admin_name.as_str());
            append(&mut line, ", ");
        }
        append(&mut line, row.iso2.as_str());
        proof {
            reveal_strlit("  * ");
            reveal_strlit(", ");
            assert(line@ =~= suggestion(*row, count > 1));
        }
        out.push(line);
        k = k + 1;
    }
    out
}

/// Where a position comes from, given which of latitude, longitude and city
/// were supplied.
#[derive(Clone, Copy, Debug, PartialEq, Eq)]
pub enum LocationSource {
    /// Nothing was supplied.
    Missing,
    /// Only one of latitude and longitude, and no city.
    HalfCoordinates,
    /// A city, and not both coordinates.
    City,
    /// Both coordinates and no city.
    Coordinates,
    /// Both coordinates and a city.
    Ambiguous,
}

/// Decides where a position comes from: a city is looked up unless both
/// coordinates are given too, which is ambiguous; coordinates are taken only
/// in pairs.
pub fn choose_location(has_lat: bool, has_long: bool, has_city: bool) -> (r: LocationSource)
    ensures
        r == (if has_lat && has_long {
            if has_city {
                LocationSource::Ambiguous
            } else {
                LocationSource::Coordinates
            }
        } else if has_city {
            LocationSource::City
        } else if has_lat || has_long {
            LocationSource::HalfCoordinates
        } else {
            LocationSource::Missing
        }),
{
    if has_lat && has_long {
        if has_city {
            LocationSource::Ambiguous
        } else {
            LocationSource::Coordinates
        }
    } else if has_city {
        LocationSource::City
    } else if has_lat || has_long {
        LocationSource::HalfCoordinates
    } else {
        LocationSource::Missing
    }
}

} // verus!
