//! The country directory: the tree of regions and countries, and lookups by
//! label and by code.

use vstd::prelude::*;
use vstd::string::*;
use crate::acl::Ownership;
use crate::errors::Error;
use crate::text::{has_letters, is_letters, normal, same_code};
use crate::search::{
    any, first_index, is_first, lemma_first_index, lemma_first_index_is, position_where,
};

verus! {

/// One node of the country tree. `label` identifies it everywhere else;
/// `level` is its depth below the root it hangs from.
pub struct Country {
    pub label: String,
    pub parent_label: Option<String>,
    pub level: u32,
    pub alpha2: String,
    pub alpha3: String,
    pub numeric: u32,
}

/// What is needed to add a country.
pub struct NewCountry {
    pub label: String,
    pub parent_label: Option<String>,
    pub level: u32,
    pub alpha2: String,
    pub alpha3: String,
    pub numeric: u32,
}

/// The keys a country can be looked up by.
pub enum CountrySearch {
    Label(String),
    Alpha2(String),
    Alpha3(String),
    Numeric(u32),
}

impl Clone for Country {
    fn clone(&self) -> (copy: Self)
        ensures
            copy == *self,
    {
        Country {
            label: self.label.clone(),
            parent_label: match &self.parent_label {
                Some(p) => Some(p.clone()),
                None => None,
            },
            level: self.level,
            alpha2: self.alpha2.clone(),
            alpha3: self.alpha3.clone(),
            numeric: self.numeric,
        }
    }
}

impl Ownership for Country {
    open spec fn owner_key_spec(&self) -> Option<i32> {
        None
    }

    fn owner_key(&self) -> (key: Option<i32>) {
        None
    }
}

/// The countries with the label.
pub open spec fn has_label(label: Seq<char>) -> spec_fn(Country) -> bool {
    |c: Country| c.label@ == label
}

/// The countries with the alpha-2 code, codes being held by their normal
/// form: `ru` and `RU` are one code.
pub open spec fn has_alpha2(code: Seq<char>) -> spec_fn(Country) -> bool {
    |c: Country| normal(c.alpha2@) == normal(code)
}

/// The countries with the alpha-3 code, codes being held by their normal
/// form: `rus` and `RUS` are one code.
pub open spec fn has_alpha3(code: Seq<char>) -> spec_fn(Country) -> bool {
    |c: Country| normal(c.alpha3@) == normal(code)
}

/// The countries with the numeric code.
pub open spec fn has_numeric(code: u32) -> spec_fn(Country) -> bool {
    |c: Country| c.numeric == code
}

/// The countries a search key selects.
pub open spec fn search_predicate(search: CountrySearch) -> spec_fn(Country) -> bool {
    match search {
        CountrySearch::Label(l) => has_label(l@),
        CountrySearch::Alpha2(c) => has_alpha2(c@),
        CountrySearch::Alpha3(c) => has_alpha3(c@),
        CountrySearch::Numeric(n) => has_numeric(n),
    }
}

/// The country at `i` is a root at level 0, or hangs one level below a
/// country that was entered before it.
pub open spec fn parent_ok(countries: Seq<Country>, i: int) -> bool {
    match countries[i].parent_label {
        None => countries[i].level == 0,
        Some(p) => exists|j: int|
            0 <= j < i && (#[trigger] countries[j]).label@ == p@ && countries[i].level
                == countries[j].level + 1,
    }
}

/// Labels and codes identify a country; alpha codes do so in normal form.
pub open spec fn keys_unique(countries: Seq<Country>) -> bool {
    forall|i: int, j: int|
        0 <= i < j < countries.len() ==> {
            &&& (#[trigger] countries[i]).label@ != (#[trigger] countries[j]).label@
            &&& normal(countries[i].alpha2@) != normal(countries[j].alpha2@)
            &&& normal(countries[i].alpha3@) != normal(countries[j].alpha3@)
            &&& countries[i].numeric != countries[j].numeric
        }
}

/// Only the country entered first has no parent: the tree has one root.
pub open spec fn one_root(countries: Seq<Country>) -> bool {
    forall|i: int| 0 < i < countries.len() ==> (#[trigger] countries[i]).parent_label is Some
}

/// The directory's invariant.
pub open spec fn well_formed(countries: Seq<Country>) -> bool {
    &&& keys_unique(countries)
    &&& one_root(countries)
    &&& forall|i: int| 0 <= i < countries.len() ==> #[trigger] parent_ok(countries, i)
}

/// The codes of a new country are well formed: the alpha-2 code is two
/// ASCII letters and the alpha-3 code three, or the country has none of
/// that kind and the code is empty.
pub open spec fn codes_well_formed(new: NewCountry) -> bool {
    &&& new.alpha2@.len() == 0 || is_letters(new.alpha2@, 2)
    &&& new.alpha3@.len() == 0 || is_letters(new.alpha3@, 3)
}

/// Checks a new country before anything is done with it: a malformed code
/// is refused with `Validate`.
pub fn validate_new_country(new: &NewCountry) -> (r: Result<(), Error>)
    ensures
        r == (if codes_well_formed(*new) {
            Ok::<(), Error>(())
        } else {
            Err::<(), Error>(Error::Validate)
        }),
{
    let alpha2_ok = new.alpha2.as_str().unicode_len() == 0 || has_letters(&new.alpha2, 2);
    let alpha3_ok = new.alpha3.as_str().unicode_len() == 0 || has_letters(&new.alpha3, 3);
    if alpha2_ok && alpha3_ok {
        Ok(())
    } else {
        Err(Error::Validate)
    }
}

/// The record a new country is stored as.
pub open spec fn country_of(new: NewCountry) -> Country {
    Country {
        label: new.label,
        parent_label: new.parent_label,
        level: new.level,
        alpha2: new.alpha2,
        alpha3: new.alpha3,
        numeric: new.numeric,
    }
}

/// One of the new country's keys is taken already.
pub open spec fn key_taken(countries: Seq<Country>, new: NewCountry) -> bool {
    ||| any(countries, has_label(new.label@))
    ||| any(countries, has_alpha2(new.alpha2@))
    ||| any(countries, has_alpha3(new.alpha3@))
    ||| any(countries, has_numeric(new.numeric))
}

/// Why a new country is refused, if it is: `Validate` where a key is
/// taken, where the level does not fit the parent, or where it has no
/// parent though the directory has its root already; `NotFound` where the
/// parent is missing.
pub open spec fn create_refusal(countries: Seq<Country>, new: NewCountry) -> Option<Error> {
    if key_taken(countries, new) {
        Some(Error::Validate)
    } else {
        match new.parent_label {
            None => if countries.len() == 0 && new.level == 0 {
                None
            } else {
                Some(Error::Validate)
            },
            Some(p) => match first_index(countries, has_label(p@)) {
                None => Some(Error::NotFound),
                Some(j) => if new.level == countries[j].level + 1 {
                    None
                } else {
                    Some(Error::Validate)
                },
            },
        }
    }
}

/// Whether the country is one the search key selects.
pub fn matches_search(country: &Country, search: &CountrySearch) -> (hit: bool)
    ensures
        hit == search_predicate(*search)(*country),
{
    match search {
        CountrySearch::Label(l) => country.label == *l,
        CountrySearch::Alpha2(c) => same_code(&country.alpha2, c),
        CountrySearch::Alpha3(c) => same_code(&country.alpha3, c),
        CountrySearch::Numeric(n) => country.numeric == *n,
    }
}

/// The position of the first country the search key selects.
pub fn position(countries: &Vec<Country>, search: &CountrySearch) -> (found: Option<usize>)
    ensures
        match found {
            Some(i) => first_index(countries@, search_predicate(*search)) == Some(i as int),
            None => first_index(countries@, search_predicate(*search)) is None,
        },
{
    let test = |c: &Country| -> (hit: bool)
        ensures
            hit == search_predicate(*search)(*c),
    {
        matches_search(c, search)
    };
    position_where(countries, Ghost(search_predicate(*search)), test)
}

/// The position of the first country with the label.
pub fn label_position(countries: &Vec<Country>, label: &String) -> (found: Option<usize>)
    ensures
        match found {
            Some(i) => first_index(countries@, has_label(label@)) == Some(i as int),
            None => first_index(countries@, has_label(label@)) is None,
        },
{
    let test = |c: &Country| -> (hit: bool)
        ensures
            hit == (c.label@ == label@),
    {
        c.label == *label
    };
    position_where(countries, Ghost(has_label(label@)), test)
}

/// The countries known to the service, in the order they were entered.
pub struct CountryDirectory {
    countries: Vec<Country>,
}

impl CountryDirectory {
    /// The directory's invariant holds. Every directory made by `new` and
    /// grown by `create` satisfies it.
    pub open spec fn wf(&self) -> bool {
        well_formed(self@)
    }

    /// The countries in entry order.
    pub closed spec fn view(&self) -> Seq<Country> {
        self.countries@
    }

    /// An empty directory.
    pub fn new() -> (directory: Self)
        ensures
            directory@ == Seq::<Country>::empty(),
            directory.wf(),
    {
        CountryDirectory { countries: Vec::new() }
    }

    /// The stored records.
    pub(crate) fn rows(&self) -> (rows: &Vec<Country>)
        ensures
            rows@ == self@,
    {
        &self.countries
    }

    /// How many countries the directory holds.
    pub fn len(&self) -> (n: usize)
        ensures
            n == self@.len(),
    {
        self.countries.len()
    }

    /// The country at a position of the entry order.
    pub fn get(&self, i: usize) -> (country: Option<Country>)
        ensures
            country == (if i < self@.len() {
                Some(self@[i as int])
            } else {
                None
            }),
    {
        if i < self.countries.len() {
            Some(self.countries[i].clone())
        } else {
            None
        }
    }

    /// Looks a country up by label or code. The first match in entry order
    /// is returned; `NotFound` when nothing matches.
    pub fn resolve(&self, search: &CountrySearch) -> (r: Result<Country, Error>)
        ensures
            r == match first_index(self@, search_predicate(*search)) {
                Some(i) => Ok::<Country, Error>(self@[i]),
                None => Err::<Country, Error>(Error::NotFound),
            },
    {
        match position(&self.countries, search) {
            Some(i) => Ok(self.countries[i].clone()),
            None => Err(Error::NotFound),
        }
    }

    /// The country with the label, if there is one.
    pub fn find(&self, label: &String) -> (r: Option<Country>)
        ensures
            r == match first_index(self@, has_label(label@)) {
                Some(i) => Some(self@[i]),
                None => None,
            },
    {
        match label_position(&self.countries, label) {
            Some(i) => Some(self.countries[i].clone()),
            None => None,
        }
    }

    /// The alpha-3 code as the directory holds it, for a code given in any
    /// case; none where no country has the code.
    pub fn alpha3_of(&self, code: &String) -> (stored: Option<String>)
        ensures
            stored == match first_index(self@, has_alpha3(code@)) {
                Some(i) => Some(self@[i].alpha3),
                None => None,
            },
            stored is Some <==> any(self@, has_alpha3(code@)),
    {
        let search = CountrySearch::Alpha3(code.clone());
        proof {
            lemma_first_index(self.countries@, has_alpha3(code@));
        }
        match position(&self.countries, &search) {
            Some(i) => Some(self.countries[i].alpha3.clone()),
            None => None,
        }
    }

    /// Adds a country. A key that is taken, a level that does not fit the
    /// parent and a second country without parent are refused with
    /// `Validate`, a missing parent with `NotFound`; the directory is then
    /// unchanged.
    pub fn create(&mut self, new: NewCountry) -> (r: Result<Country, Error>)
        requires
            old(self).wf(),
        ensures
            final(self).wf(),
            match create_refusal(old(self)@, new) {
                Some(e) => r == Err::<Country, Error>(e) && final(self)@ == old(self)@,
                None => r == Ok::<Country, Error>(country_of(new)) && final(self)@ == old(self)@.push(
                    country_of(new),
                ),
            },
    {
        let ghost before = self.countries@;
        let by_label = CountrySearch::Label(new.label.clone());
        let by_alpha2 = CountrySearch::Alpha2(new.alpha2.clone());
        let by_alpha3 = CountrySearch::Alpha3(new.alpha3.clone());
        let by_numeric = CountrySearch::Numeric(new.numeric);
        proof {
            lemma_first_index(before, has_label(new.label@));
            lemma_first_index(before, has_alpha2(new.alpha2@));
            lemma_first_index(before, has_alpha3(new.alpha3@));
            lemma_first_index(before, has_numeric(new.numeric));
        }
        if position(&self.countries, &by_label).is_some() || position(
            &self.countries,
            &by_alpha2,
        ).is_some() || position(&self.countries, &by_alpha3).is_some() || position(
            &self.countries,
            &by_numeric,
        ).is_some() {
            return Err(Error::Validate);
        }
        let ghost parent: int;
        match &new.parent_label {
            None => {
                if self.countries.len() != 0 || new.level != 0 {
                    return Err(Error::Validate);
                }
                proof {
                    parent = 0;
                }
            },
            Some(p) => {
                match label_position(&self.countries, p) {
                    None => {
                        return Err(Error::NotFound);
                    },
                    Some(j) => {
                        let parent_level = self.countries[j].level;
                        if new.level == 0 || new.level - 1 != parent_level {
                            return Err(Error::Validate);
                        }
                        proof {
                            parent = j as int;
                        }
                    },
                }
            },
        }
        let country = Country {
            label: new.label,
            parent_label: new.parent_label,
            level: new.level,
            alpha2: new.alpha2,
            alpha3: new.alpha3,
            numeric: new.numeric,
        };
        let copy = country.clone();
        proof {
            lemma_push_keeps_well_formed(before, country, parent);
        }
        self.countries.push(country);
        Ok(copy)
    }
}

/// Entering a country whose keys are free and whose parent is at `parent`
/// one level above, or which is the first and has none, keeps the directory
/// well formed.
pub proof fn lemma_push_keeps_well_formed(countries: Seq<Country>, country: Country, parent: int)
    requires
        well_formed(countries),
        !any(countries, has_label(country.label@)),
        !any(countries, has_alpha2(country.alpha2@)),
        !any(countries, has_alpha3(country.alpha3@)),
        !any(countries, has_numeric(country.numeric)),
        match country.parent_label {
            None => country.level == 0 && countries.len() == 0,
            Some(p) => 0 <= parent < countries.len() && countries[parent].label@ == p@
                && country.level == countries[parent].level + 1,
        },
    ensures
        well_formed(countries.push(country)),
{
    let after = countries.push(country);
    let n = countries.len() as int;
    assert forall|i: int, j: int| 0 <= i < j < after.len() implies {
        &&& (#[trigger] after[i]).label@ != (#[trigger] after[j]).label@
        &&& normal(after[i].alpha2@) != normal(after[j].alpha2@)
        &&& normal(after[i].alpha3@) != normal(after[j].alpha3@)
        &&& after[i].numeric != after[j].numeric
    } by {
        if j < n {
            assert(after[i] == countries[i] && after[j] == countries[j]);
        } else {
            assert(after[i] == countries[i]);
            assert(!has_label(country.label@)(countries[i]));
            assert(!has_alpha2(country.alpha2@)(countries[i]));
            assert(!has_alpha3(country.alpha3@)(countries[i]));
            assert(!has_numeric(country.numeric)(countries[i]));
        }
    }
    assert forall|i: int| 0 < i < after.len() implies (#[trigger] after[i]).parent_label is Some by {
        if i < n {
            assert(after[i] == countries[i]);
        }
    }
    assert forall|i: int| 0 <= i < after.len() implies #[trigger] parent_ok(after, i) by {
        if i < n {
            assert(parent_ok(countries, i));
            assert(after[i] == countries[i]);
            if countries[i].parent_label is Some {
                let p = countries[i].parent_label->Some_0;
                let j = choose|j: int|
                    0 <= j < i && (#[trigger] countries[j]).label@ == p@ && countries[i].level
                        == countries[j].level + 1;
                assert(after[j] == countries[j]);
            }
        } else {
            if country.parent_label is Some {
                assert(after[parent] == countries[parent]);
            }
        }
    }
}


/// The position of the parent of the country at `i`, if it names one that
/// the directory holds.
pub open spec fn parent_index(countries: Seq<Country>, i: int) -> Option<int> {
    match countries[i].parent_label {
        None => None,
        Some(p) => first_index(countries, has_label(p@)),
    }
}

/// The position reached from `i` by following the parent link `hops` times.
pub open spec fn ancestor(countries: Seq<Country>, i: int, hops: nat) -> Option<int>
    decreases hops,
{
    if hops == 0 {
        Some(i)
    } else {
        match parent_index(countries, i) {
            None => None,
            Some(p) => ancestor(countries, p, (hops - 1) as nat),
        }
    }
}

/// The country at `i` has no parent.
pub open spec fn is_root(countries: Seq<Country>, i: int) -> bool {
    countries[i].parent_label is None
}

/// In a well-formed directory the parent link of a country leads to the
/// country entered before it that carries the parent label.
pub proof fn lemma_parent_index(countries: Seq<Country>, i: int)
    requires
        well_formed(countries),
        0 <= i < countries.len(),
        countries[i].parent_label is Some,
    ensures
        parent_index(countries, i) matches Some(j) && 0 <= j < i && countries[j].label@
            == countries[i].parent_label->Some_0@ && countries[i].level == countries[j].level + 1,
{
    let p = countries[i].parent_label->Some_0;
    assert(parent_ok(countries, i));
    let j = choose|j: int|
        0 <= j < i && (#[trigger] countries[j]).label@ == p@ && countries[i].level
            == countries[j].level + 1;
    assert forall|k: int| 0 <= k < j implies !has_label(p@)(#[trigger] countries[k]) by {
        assert(countries[k].label@ != countries[j].label@);
    }
    assert(is_first(countries, has_label(p@), j));
    lemma_first_index_is(countries, has_label(p@), j);
}

/// Following parent links from any country reaches a root after exactly
/// `level` hops and not before: the chain has no cycle.
pub proof fn lemma_parent_chain_reaches_root(countries: Seq<Country>, i: int)
    requires
        well_formed(countries),
        0 <= i < countries.len(),
    ensures
        ancestor(countries, i, countries[i].level as nat) matches Some(r) && 0 <= r
            < countries.len() && is_root(countries, r),
        forall|hops: nat|
            hops < countries[i].level ==> (#[trigger] ancestor(countries, i, hops) matches Some(a)
                && 0 <= a < countries.len() && !is_root(countries, a)),
    decreases i,
{
    assert(parent_ok(countries, i));
    if countries[i].parent_label is Some {
        lemma_parent_index(countries, i);
        let j = parent_index(countries, i)->Some_0;
        lemma_parent_chain_reaches_root(countries, j);
        assert forall|hops: nat| hops < countries[i].level implies (#[trigger] ancestor(
            countries,
            i,
            hops,
        ) matches Some(a) && 0 <= a < countries.len() && !is_root(countries, a)) by {
            if hops > 0 {
                assert(ancestor(countries, i, hops) == ancestor(countries, j, (hops - 1) as nat));
            }
        }
    }
}

} // verus!
