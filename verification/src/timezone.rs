//! The timezone index: the records, the index by name and the index by
//! country, with the rules by which they are filled and read.

use crate::normalize::{normalize_string, normalized};
use crate::text::{split, split_on, split_words, starts_with_hash, texts, words};
use crate::timezone_laws::{
    lemma_add_country_lines_wf, lemma_add_country_timezone_wf, lemma_add_timezone_wf,
    lemma_add_zone_lines_wf, lemma_overrides_wf,
};
use vstd::hash_map::StringHashMap;
use vstd::prelude::*;
use vstd::string::StringExecFns;

verus! {

/// One timezone: its Olson name as the source spells it, and its POSIX rule.
#[derive(Debug)]
pub struct Timezone {
    pub olson: String,
    pub posix: String,
}

/// What a `Timezone` holds, as plain text.
pub struct Zone {
    pub olson: Seq<char>,
    pub posix: Seq<char>,
}

impl View for Timezone {
    type V = Zone;

    open spec fn view(&self) -> Zone {
        Zone { olson: self.olson@, posix: self.posix@ }
    }
}

/// Why a load was given up.
#[derive(Debug)]
pub enum LoadError {
    /// The name, in normal form, is in the index already.
    DuplicateTimezone { olson: String },
    /// A country was to be tied to a name that the index does not hold.
    UnknownTimezone { country: String, olson: String },
    /// The country is tied to that timezone already.
    DuplicateCountryTimezone { country: String, olson: String },
}

/// What a `LoadError` holds, as plain text.
pub enum Fault {
    DuplicateTimezone { olson: Seq<char> },
    UnknownTimezone { country: Seq<char>, olson: Seq<char> },
    DuplicateCountryTimezone { country: Seq<char>, olson: Seq<char> },
}

impl View for LoadError {
    type V = Fault;

    open spec fn view(&self) -> Fault {
        match self {
            LoadError::DuplicateTimezone { olson } => Fault::DuplicateTimezone { olson: olson@ },
            LoadError::UnknownTimezone { country, olson } => Fault::UnknownTimezone {
                country: country@,
                olson: olson@,
            },
            LoadError::DuplicateCountryTimezone {
                country,
                olson,
            } => Fault::DuplicateCountryTimezone { country: country@, olson: olson@ },
        }
    }
}

impl Fault {
    /// The sentence that reports the fault.
    pub open spec fn message(self) -> Seq<char> {
        match self {
            Fault::DuplicateTimezone { olson } => "Timezone '"@ + olson
                + "' already added to database"@,
            Fault::UnknownTimezone { country, olson } => "Attempted to add country '"@ + country
                + "' to nonexistent timezone '"@ + olson + "'"@,
            Fault::DuplicateCountryTimezone { country, olson } => "Country '"@ + country
                + "' already contains timezone '"@ + olson + "'"@,
        }
    }
}

impl LoadError {
    /// The sentence that reports the error.
    pub fn message(&self) -> (text: String)
        ensures
            text@ == self@.message(),
    {
        match self {
            LoadError::DuplicateTimezone { olson } => {
                let mut text = String::from_str("Timezone '");
                text.append(olson.as_str());
                text.append("' already added to database");
                text
            },
            LoadError::UnknownTimezone { country, olson } => {
                let mut text = String::from_str("Attempted to add country '");
                text.append(country.as_str());
                text.append("' to nonexistent timezone '");
                text.append(olson.as_str());
                text.append("'");
                text
            },
            LoadError::DuplicateCountryTimezone { country, olson } => {
                let mut text = String::from_str("Country '");
                text.append(country.as_str());
                text.append("' already contains timezone '");
                text.append(olson.as_str());
                text.append("'");
                text
            },
        }
    }
}

/// The index as a mathematical value.
#[verifier::ext_equal]
pub struct Model {
    /// The records, in the order in which they were added.
    pub zones: Seq<Zone>,
    /// From a name in normal form to the place of its record in `zones`.
    pub olson: Map<Seq<char>, usize>,
    /// From a country code in normal form to the places of its records, in
    /// the order in which they were tied to it.
    pub countries: Map<Seq<char>, Seq<usize>>,
}

/// The records of `zones` at the places `places`, in that order; a place
/// beyond the end of `zones` gives none.
pub open spec fn pick(zones: Seq<Zone>, places: Seq<usize>) -> Seq<Zone>
    decreases places.len(),
{
    if places.len() == 0 {
        Seq::empty()
    } else if places.last() < zones.len() {
        pick(zones, places.drop_last()).push(zones[places.last() as int])
    } else {
        pick(zones, places.drop_last())
    }
}

/// What a list of borrowed records holds.
pub open spec fn zones_of(records: Seq<&Timezone>) -> Seq<Zone> {
    Seq::new(records.len(), |i: int| records[i]@)
}

impl Model {
    /// The index with `zone` in the place `place` of its records.
    pub open spec fn with_zone(self, place: int, zone: Zone) -> Model {
        Model { zones: self.zones.update(place, zone), olson: self.olson, countries: self.countries }
    }

    /// The index that holds nothing.
    pub open spec fn empty() -> Model {
        Model { zones: Seq::empty(), olson: Map::empty(), countries: Map::empty() }
    }

    /// Every entry of the two indices names a record, every record is found
    /// under the normal form of its name and under no other, and a country's
    /// list is not empty and names no record twice.
    pub open spec fn wf(self) -> bool {
        &&& forall|k: Seq<char>| #[trigger]
            self.olson.contains_key(k) ==> self.olson[k] < self.zones.len() && normalized(
                self.zones[self.olson[k] as int].olson,
            ) == k
        &&& forall|i: int|
            0 <= i < self.zones.len() ==> self.olson.contains_key(
                normalized(#[trigger] self.zones[i].olson),
            ) && self.olson[normalized(self.zones[i].olson)] == i
        &&& forall|c: Seq<char>| #[trigger]
            self.countries.contains_key(c) ==> self.countries[c].len() > 0
                && self.countries[c].no_duplicates() && forall|j: int|
                0 <= j < self.countries[c].len() ==> #[trigger] self.countries[c][j]
                    < self.zones.len()
    }

    /// The record stored under the name `name`, which is taken as it is.
    pub open spec fn find_olson(self, name: Seq<char>) -> Option<Zone> {
        if self.olson.contains_key(name) && self.olson[name] < self.zones.len() {
            Some(self.zones[self.olson[name] as int])
        } else {
            None
        }
    }

    /// The records tied to the country code `code`, which is taken as it is.
    pub open spec fn find_country(self, code: Seq<char>) -> Option<Seq<Zone>> {
        if self.countries.contains_key(code) {
            Some(pick(self.zones, self.countries[code]))
        } else {
            None
        }
    }

    /// The index after the record `(olson, posix)` was added, or the fault
    /// where the normal form of `olson` is taken.
    pub open spec fn add_timezone(self, olson: Seq<char>, posix: Seq<char>) -> Result<
        Model,
        Fault,
    > {
        if self.olson.contains_key(normalized(olson)) {
            Err(Fault::DuplicateTimezone { olson })
        } else {
            Ok(
                Model {
                    zones: self.zones.push(Zone { olson, posix }),
                    olson: self.olson.insert(normalized(olson), self.zones.len() as usize),
                    countries: self.countries,
                },
            )
        }
    }

    /// The places tied to `code` so far.
    pub open spec fn places_of(self, code: Seq<char>) -> Seq<usize> {
        if self.countries.contains_key(code) {
            self.countries[code]
        } else {
            Seq::empty()
        }
    }

    /// The index after `country` was tied to the record named `olson`, or the
    /// fault where there is no such record or the two are tied already.
    pub open spec fn add_country_timezone(self, country: Seq<char>, olson: Seq<char>) -> Result<
        Model,
        Fault,
    > {
        let code = normalized(country);
        if !self.olson.contains_key(normalized(olson)) {
            Err(Fault::UnknownTimezone { country, olson })
        } else if self.places_of(code).contains(self.olson[normalized(olson)]) {
            Err(Fault::DuplicateCountryTimezone { country, olson })
        } else {
            Ok(
                Model {
                    zones: self.zones,
                    olson: self.olson,
                    countries: self.countries.insert(
                        code,
                        self.places_of(code).push(self.olson[normalized(olson)]),
                    ),
                },
            )
        }
    }
}

/// The timezone index.
pub struct TimezoneDb {
    timezones: Vec<Timezone>,
    olson_map: StringHashMap<usize>,
    country_map: StringHashMap<Vec<usize>>,
}

impl View for TimezoneDb {
    type V = Model;

    closed spec fn view(&self) -> Model {
        Model {
            zones: Seq::new(self.timezones@.len(), |i: int| self.timezones@[i]@),
            olson: self.olson_map@,
            countries: Map::new(
                |k: Seq<char>| self.country_map@.contains_key(k),
                |k: Seq<char>| self.country_map@[k]@,
            ),
        }
    }
}

impl TimezoneDb {
    /// An index that holds nothing.
    pub fn new() -> (db: TimezoneDb)
        ensures
            db@ == Model::empty(),
            db@.wf(),
    {
        let db = TimezoneDb {
            timezones: Vec::new(),
            olson_map: StringHashMap::new(),
            country_map: StringHashMap::new(),
        };
        assert(db@.zones =~= Model::empty().zones);
        assert(db@.countries =~= Model::empty().countries);
        db
    }

    /// Adds the record `(olson, posix)` and files it under the normal form of
    /// `olson`. Where that form is taken, nothing changes and the error names
    /// `olson`.
    pub fn add_timezone(&mut self, olson: &str, posix: &str) -> (r: Result<(), LoadError>)
        ensures
            match old(self)@.add_timezone(olson@, posix@) {
                Ok(m) => r is Ok && final(self)@ == m,
                Err(f) => r is Err && r->Err_0@ == f && final(self)@ == old(self)@,
            },
            old(self)@.wf() ==> final(self)@.wf(),
    {
        let key = normalize_string(olson);
        if self.olson_map.contains_key(key.as_str()) {
            return Err(LoadError::DuplicateTimezone { olson: olson.to_owned() });
        }
        let entry = Timezone { olson: olson.to_owned(), posix: posix.to_owned() };
        let place = self.timezones.len();
        self.timezones.push(entry);
        self.olson_map.insert(key, place);
        proof {
            let m = old(self)@.add_timezone(olson@, posix@)->Ok_0;
            assert(self@.zones =~= m.zones);
            assert(self@.countries =~= m.countries);
            assert(old(self)@.zones.len() + 1 == self.timezones.len());
            if old(self)@.wf() {
                lemma_add_timezone_wf(old(self)@, olson@, posix@);
            }
        }
        Ok(())
    }

    /// The record filed under `normalized_olson`, which is looked up as it is.
    pub fn lookup_olson(&self, normalized_olson: &str) -> (r: Option<&Timezone>)
        ensures
            match r {
                Some(tz) => self@.find_olson(normalized_olson@) == Some(tz@),
                None => self@.find_olson(normalized_olson@) is None,
            },
    {
        match self.olson_map.get(normalized_olson) {
            Some(place) => {
                if *place < self.timezones.len() {
                    Some(&self.timezones[*place])
                } else {
                    None
                }
            },
            None => None,
        }
    }

    /// Ties `country`, filed under its normal form, to the record named
    /// `olson`. Where no record has that name, or the two are tied already,
    /// nothing changes and the error names both as they were given.
    pub fn add_country_timezone(&mut self, country: &str, olson: &str) -> (r: Result<
        (),
        LoadError,
    >)
        ensures
            match old(self)@.add_country_timezone(country@, olson@) {
                Ok(m) => r is Ok && final(self)@ == m,
                Err(f) => r is Err && r->Err_0@ == f && final(self)@ == old(self)@,
            },
            old(self)@.wf() ==> final(self)@.wf(),
    {
        let name = normalize_string(olson);
        let place: usize = match self.olson_map.get(name.as_str()) {
            Some(place) => *place,
            None => {
                return Err(
                    LoadError::UnknownTimezone {
                        country: country.to_owned(),
                        olson: olson.to_owned(),
                    },
                );
            },
        };
        let key = normalize_string(country);
        let mut places: Vec<usize> = Vec::new();
        match self.country_map.get(key.as_str()) {
            Some(tied) => {
                let mut i: usize = 0;
                while i < tied.len()
                    invariant
                        i <= tied@.len(),
                        places@ == tied@.take(i as int),
                        forall|j: int| 0 <= j < i ==> tied@[j] != place,
                        *self == *old(self),
                        key@ == normalized(country@),
                        old(self)@.olson.contains_key(normalized(olson@)),
                        old(self)@.olson[normalized(olson@)] == place,
                        old(self)@.places_of(key@) == tied@,
                    decreases tied@.len() - i,
                {
                    if tied[i] == place {
                        assert(tied@[i as int] == place);
                        return Err(
                            LoadError::DuplicateCountryTimezone {
                                country: country.to_owned(),
                                olson: olson.to_owned(),
                            },
                        );
                    }
                    places.push(tied[i]);
                    assert(tied@.take(i as int).push(tied@[i as int]) =~= tied@.take(i + 1));
                    i += 1;
                }
                assert(places@ =~= tied@);
            },
            None => {},
        }
        places.push(place);
        self.country_map.insert(key, places);
        proof {
            let m = old(self)@.add_country_timezone(country@, olson@)->Ok_0;
            assert(self@.zones =~= m.zones);
            assert(self@.countries =~= m.countries);
            if old(self)@.wf() {
                lemma_add_country_timezone_wf(old(self)@, country@, olson@);
            }
        }
        Ok(())
    }

    /// The record filed under `normalized_olson`, to be changed in place. The
    /// index keeps filing it where it was.
    pub fn lookup_olson_mut(&mut self, normalized_olson: &str) -> (r: Option<&mut Timezone>)
        ensures
            match r {
                Some(tz) => old(self)@.find_olson(normalized_olson@) == Some(tz@) && final(self)@
                    =~= old(self)@.with_zone(
                    old(self)@.olson[normalized_olson@] as int,
                    final(tz)@,
                ),
                None => old(self)@.find_olson(normalized_olson@) is None && final(self)@ == old(
                    self,
                )@,
            },
    {
        let place: usize = match self.olson_map.get(normalized_olson) {
            Some(place) => *place,
            None => {
                return None;
            },
        };
        if place < self.timezones.len() {
            Some(&mut self.timezones[place])
        } else {
            None
        }
    }

    /// The records tied to `normalized_country`, which is looked up as it is,
    /// in the order in which they were tied to it.
    pub fn lookup_country(&self, normalized_country: &str) -> (r: Option<Vec<&Timezone>>)
        ensures
            match r {
                Some(tzs) => self@.find_country(normalized_country@) == Some(zones_of(tzs@)),
                None => self@.find_country(normalized_country@) is None,
            },
    {
        match self.country_map.get(normalized_country) {
            Some(places) => {
                let mut found: Vec<&Timezone> = Vec::new();
                let mut i: usize = 0;
                assert(zones_of(found@) =~= pick(self@.zones, places@.take(0)));
                while i < places.len()
                    invariant
                        i <= places@.len(),
                        zones_of(found@) == pick(self@.zones, places@.take(i as int)),
                    decreases places@.len() - i,
                {
                    let ghost before = zones_of(found@);
                    let place = places[i];
                    assert(places@.take(i + 1).drop_last() =~= places@.take(i as int));
                    if place < self.timezones.len() {
                        found.push(&self.timezones[place]);
                        assert(zones_of(found@) =~= before.push(self@.zones[place as int]));
                    }
                    i += 1;
                }
                assert(places@.take(i as int) =~= places@);
                Some(found)
            },
            None => None,
        }
    }
}

/// What a line of the timezone table says: a name and a rule, where the line
/// is made of exactly two words.
pub open spec fn zone_entry(line: Seq<char>) -> Option<(Seq<char>, Seq<char>)> {
    let w = words(line);
    if w.len() == 2 {
        Some((w[0], w[1]))
    } else {
        None
    }
}

/// What a line of the country table says: the country codes of its first
/// field and the name in its third, where the line is no comment and has
/// three fields or more.
pub open spec fn country_entry(line: Seq<char>) -> Option<(Seq<Seq<char>>, Seq<char>)> {
    let fields = split_on(line, '\t');
    if (line.len() > 0 && line[0] == '#') || fields.len() < 3 {
        None
    } else {
        Some((split_on(fields[0], ','), fields[2]))
    }
}

/// The rule that the record of Dublin is given, whatever its source says.
pub open spec fn dublin_rule() -> Seq<char> {
    "GMT0IST,M3.5.0/1,M10.5.0"@
}

impl Model {
    /// The index after the lines of a timezone table were added in order, or
    /// the fault of the first line that could not be.
    pub open spec fn add_zone_lines(self, lines: Seq<Seq<char>>) -> Result<Model, Fault>
        decreases lines.len(),
    {
        if lines.len() == 0 {
            Ok(self)
        } else {
            match zone_entry(lines[0]) {
                None => self.add_zone_lines(lines.skip(1)),
                Some((olson, posix)) => match self.add_timezone(olson, posix) {
                    Ok(m) => m.add_zone_lines(lines.skip(1)),
                    Err(f) => Err(f),
                },
            }
        }
    }

    /// The index after each of `codes` was tied in order to the record named
    /// `olson`, or the fault of the first code that could not be.
    pub open spec fn tie_countries(self, codes: Seq<Seq<char>>, olson: Seq<char>) -> Result<
        Model,
        Fault,
    >
        decreases codes.len(),
    {
        if codes.len() == 0 {
            Ok(self)
        } else {
            match self.add_country_timezone(codes[0], olson) {
                Ok(m) => m.tie_countries(codes.skip(1), olson),
                Err(f) => Err(f),
            }
        }
    }

    /// The index after the lines of a country table were added in order, or
    /// the fault of the first line that could not be.
    pub open spec fn add_country_lines(self, lines: Seq<Seq<char>>) -> Result<Model, Fault>
        decreases lines.len(),
    {
        if lines.len() == 0 {
            Ok(self)
        } else {
            match country_entry(lines[0]) {
                None => self.add_country_lines(lines.skip(1)),
                Some((codes, olson)) => match self.tie_countries(codes, olson) {
                    Ok(m) => m.add_country_lines(lines.skip(1)),
                    Err(f) => Err(f),
                },
            }
        }
    }

    /// Where `GB` is a country, `UK` is one too, with the same records.
    pub open spec fn alias_uk(self) -> Model {
        if self.countries.contains_key("GB"@) {
            Model {
                zones: self.zones,
                olson: self.olson,
                countries: self.countries.insert("UK"@, self.countries["GB"@]),
            }
        } else {
            self
        }
    }

    /// Where `EUROPE/BERLIN` is a name, the country `DE` has its record and
    /// no other.
    pub open spec fn pin_germany(self) -> Model {
        if self.olson.contains_key("EUROPE/BERLIN"@) {
            Model {
                zones: self.zones,
                olson: self.olson,
                countries: self.countries.insert("DE"@, seq![self.olson["EUROPE/BERLIN"@]]),
            }
        } else {
            self
        }
    }

    /// Where `EUROPE/DUBLIN` names a record, its rule is `dublin_rule()`.
    pub open spec fn correct_dublin(self) -> Model {
        match self.find_olson("EUROPE/DUBLIN"@) {
            Some(zone) => self.with_zone(
                self.olson["EUROPE/DUBLIN"@] as int,
                Zone { olson: zone.olson, posix: dublin_rule() },
            ),
            None => self,
        }
    }

    /// The three fixed corrections, in the order in which a load applies them.
    pub open spec fn with_overrides(self) -> Model {
        self.alias_uk().pin_germany().correct_dublin()
    }
}

/// The index that a load builds from the lines of the two tables, or the
/// fault that ends it.
pub open spec fn loaded(zone_lines: Seq<Seq<char>>, country_lines: Seq<Seq<char>>) -> Result<
    Model,
    Fault,
> {
    match Model::empty().add_zone_lines(zone_lines) {
        Err(f) => Err(f),
        Ok(with_zones) => match with_zones.add_country_lines(country_lines) {
            Err(f) => Err(f),
            Ok(with_countries) => Ok(with_countries.with_overrides()),
        },
    }
}

/// Reads a line of the timezone table: its name and its rule, where the line
/// is made of exactly two words.
pub fn zone_fields(line: &str) -> (r: Option<(String, String)>)
    ensures
        match r {
            Some((olson, posix)) => zone_entry(line@) == Some((olson@, posix@)),
            None => zone_entry(line@) is None,
        },
{
    let mut fields = split_words(line);
    if fields.len() != 2 {
        return None;
    }
    assert(texts(fields@)[0] == fields@[0]@);
    assert(texts(fields@)[1] == fields@[1]@);
    let posix = fields.pop().unwrap();
    let olson = fields.pop().unwrap();
    Some((olson, posix))
}

/// Reads a line of the country table: the country codes of its first field
/// and the name in its third, where the line is no comment and has three
/// fields or more.
pub fn country_fields(line: &str) -> (r: Option<(Vec<String>, String)>)
    ensures
        match r {
            Some((codes, olson)) => country_entry(line@) == Some((texts(codes@), olson@)),
            None => country_entry(line@) is None,
        },
{
    if starts_with_hash(line) {
        return None;
    }
    let mut fields = split(line, '\t');
    if fields.len() < 3 {
        return None;
    }
    assert(texts(fields@)[0] == fields@[0]@);
    assert(texts(fields@)[2] == fields@[2]@);
    let codes = split(fields[0].as_str(), ',');
    let olson = fields.swap_remove(2);
    Some((codes, olson))
}

/// A copy of a list of places.
fn copy_places(places: &Vec<usize>) -> (copy: Vec<usize>)
    ensures
        copy@ == places@,
{
    let mut copy: Vec<usize> = Vec::new();
    let mut i: usize = 0;
    while i < places.len()
        invariant
            i <= places@.len(),
            copy@ == places@.take(i as int),
        decreases places@.len() - i,
    {
        copy.push(places[i]);
        assert(places@.take(i as int).push(places@[i as int]) =~= places@.take(i + 1));
        i += 1;
    }
    assert(places@.take(i as int) =~= places@);
    copy
}

impl TimezoneDb {
    /// Makes `UK` a country with the records of `GB`, where `GB` is one.
    pub fn alias_uk(&mut self)
        ensures
            final(self)@ == old(self)@.alias_uk(),
            old(self)@.wf() ==> final(self)@.wf(),
    {
        proof {
            if old(self)@.wf() {
                lemma_overrides_wf(old(self)@);
            }
        }
        let places = match self.country_map.get("GB") {
            Some(places) => copy_places(places),
            None => {
                return ;
            },
        };
        self.country_map.insert("UK".to_owned(), places);
        assert(self@ =~= old(self)@.alias_uk());
    }

    /// Gives the country `DE` the record of `EUROPE/BERLIN` and no other,
    /// where there is such a record.
    pub fn pin_germany(&mut self)
        ensures
            final(self)@ == old(self)@.pin_germany(),
            old(self)@.wf() ==> final(self)@.wf(),
    {
        proof {
            if old(self)@.wf() {
                lemma_overrides_wf(old(self)@);
            }
        }
        let place: usize = match self.olson_map.get("EUROPE/BERLIN") {
            Some(place) => *place,
            None => {
                return ;
            },
        };
        let mut places: Vec<usize> = Vec::new();
        places.push(place);
        self.country_map.insert("DE".to_owned(), places);
        assert(places@ =~= seq![place]);
        assert(self@ =~= old(self)@.pin_germany());
    }

    /// Gives the record of `EUROPE/DUBLIN` the rule `dublin_rule()`, where
    /// there is such a record.
    pub fn correct_dublin(&mut self)
        ensures
            final(self)@ == old(self)@.correct_dublin(),
            old(self)@.wf() ==> final(self)@.wf(),
    {
        proof {
            if old(self)@.wf() {
                lemma_overrides_wf(old(self)@);
            }
        }
        match self.lookup_olson_mut("EUROPE/DUBLIN") {
            Some(dublin) => {
                dublin.posix = "GMT0IST,M3.5.0/1,M10.5.0".to_owned();
            },
            None => {},
        }
    }

    /// Adds the lines of a timezone table in order. A line that is not made
    /// of two words is passed over.
    fn add_zone_lines(&mut self, lines: &Vec<String>) -> (r: Result<(), LoadError>)
        ensures
            match old(self)@.add_zone_lines(texts(lines@)) {
                Ok(m) => r is Ok && final(self)@ == m,
                Err(f) => r is Err && r->Err_0@ == f,
            },
    {
        let ghost all = texts(lines@);
        let mut i: usize = 0;
        assert(all.skip(0) =~= all);
        while i < lines.len()
            invariant
                i <= lines@.len(),
                all == texts(lines@),
                old(self)@.add_zone_lines(all) == self@.add_zone_lines(all.skip(i as int)),
            decreases lines@.len() - i,
        {
            let ghost rest = all.skip(i as int);
            assert(rest[0] == lines@[i as int]@);
            assert(rest.skip(1) =~= all.skip(i + 1));
            match zone_fields(lines[i].as_str()) {
                Some((olson, posix)) => {
                    match self.add_timezone(olson.as_str(), posix.as_str()) {
                        Ok(()) => {},
                        Err(e) => {
                            return Err(e);
                        },
                    }
                },
                None => {},
            }
            i += 1;
        }
        Ok(())
    }

    /// Ties each of `codes` in order to the record named `olson`.
    fn tie_countries(&mut self, codes: &Vec<String>, olson: &str) -> (r: Result<(), LoadError>)
        ensures
            match old(self)@.tie_countries(texts(codes@), olson@) {
                Ok(m) => r is Ok && final(self)@ == m,
                Err(f) => r is Err && r->Err_0@ == f,
            },
    {
        let ghost all = texts(codes@);
        let mut i: usize = 0;
        assert(all.skip(0) =~= all);
        while i < codes.len()
            invariant
                i <= codes@.len(),
                all == texts(codes@),
                old(self)@.tie_countries(all, olson@) == self@.tie_countries(
                    all.skip(i as int),
                    olson@,
                ),
            decreases codes@.len() - i,
        {
            let ghost rest = all.skip(i as int);
            assert(rest[0] == codes@[i as int]@);
            assert(rest.skip(1) =~= all.skip(i + 1));
            match self.add_country_timezone(codes[i].as_str(), olson) {
                Ok(()) => {},
                Err(e) => {
                    return Err(e);
                },
            }
            i += 1;
        }
        Ok(())
    }

    /// Adds the lines of a country table in order. A comment, or a line of
    /// fewer than three fields, is passed over.
    fn add_country_lines(&mut self, lines: &Vec<String>) -> (r: Result<(), LoadError>)
        ensures
            match old(self)@.add_country_lines(texts(lines@)) {
                Ok(m) => r is Ok && final(self)@ == m,
                Err(f) => r is Err && r->Err_0@ == f,
            },
    {
        let ghost all = texts(lines@);
        let mut i: usize = 0;
        assert(all.skip(0) =~= all);
        while i < lines.len()
            invariant
                i <= lines@.len(),
                all == texts(lines@),
                old(self)@.add_country_lines(all) == self@.add_country_lines(all.skip(i as int)),
            decreases lines@.len() - i,
        {
            let ghost rest = all.skip(i as int);
            assert(rest[0] == lines@[i as int]@);
            assert(rest.skip(1) =~= all.skip(i + 1));
            match country_fields(lines[i].as_str()) {
                Some((codes, olson)) => {
                    match self.tie_countries(&codes, olson.as_str()) {
                        Ok(()) => {},
                        Err(e) => {
                            return Err(e);
                        },
                    }
                },
                None => {},
            }
            i += 1;
        }
        Ok(())
    }

    /// Builds an index from the lines of the timezone table alone: the
    /// records and their names, with no country yet. The first name that is
    /// in the table twice ends the load with its error.
    pub fn load_zones(zone_lines: &Vec<String>) -> (r: Result<TimezoneDb, LoadError>)
        ensures
            match Model::empty().add_zone_lines(texts(zone_lines@)) {
                Ok(m) => r is Ok && r->Ok_0@ == m && m.wf(),
                Err(f) => r is Err && r->Err_0@ == f,
            },
    {
        proof {
            assert(texts(zone_lines@).len() == zone_lines.len());
            if Model::empty().add_zone_lines(texts(zone_lines@)) is Ok {
                lemma_add_zone_lines_wf(Model::empty(), texts(zone_lines@));
            }
        }
        let mut db = TimezoneDb::new();
        match db.add_zone_lines(zone_lines) {
            Ok(()) => Ok(db),
            Err(e) => Err(e),
        }
    }

    /// Completes an index that holds the records: ties the countries of the
    /// country table to them, then applies the three fixed corrections. The
    /// first country tied to a name of which there is no record, or tied
    /// twice to one name, ends the load with its error.
    pub fn load_countries(self, country_lines: &Vec<String>) -> (r: Result<TimezoneDb, LoadError>)
        ensures
            match self@.add_country_lines(texts(country_lines@)) {
                Ok(m) => r is Ok && r->Ok_0@ == m.with_overrides() && (self@.wf()
                    ==> m.with_overrides().wf()),
                Err(f) => r is Err && r->Err_0@ == f,
            },
    {
        proof {
            if self@.wf() && self@.add_country_lines(texts(country_lines@)) is Ok {
                lemma_add_country_lines_wf(self@, texts(country_lines@));
                lemma_overrides_wf(self@.add_country_lines(texts(country_lines@))->Ok_0);
            }
        }
        let mut db = self;
        match db.add_country_lines(country_lines) {
            Ok(()) => {},
            Err(e) => {
                return Err(e);
            },
        }
        db.alias_uk();
        db.pin_germany();
        db.correct_dublin();
        Ok(db)
    }

    /// Builds the index from the lines of the timezone table and of the
    /// country table, then applies the three fixed corrections. The first
    /// name that is twice in the timezone table, the first country tied to a
    /// name that the timezone table lacks, or tied twice to one name, ends
    /// the load with its error. A fault of the timezone table comes before
    /// any of the country table.
    pub fn load(zone_lines: &Vec<String>, country_lines: &Vec<String>) -> (r: Result<
        TimezoneDb,
        LoadError,
    >)
        ensures
            match loaded(texts(zone_lines@), texts(country_lines@)) {
                Ok(m) => r is Ok && r->Ok_0@ == m && m.wf(),
                Err(f) => r is Err && r->Err_0@ == f,
            },
    {
        match TimezoneDb::load_zones(zone_lines) {
            Ok(db) => db.load_countries(country_lines),
            Err(e) => Err(e),
        }
    }
}

} // verus!
