//! What holds of every index that a load builds.

use crate::normalize::normalized;
use crate::text::{lemma_span_bounds, span, split_on, CharClass};
use crate::timezone::{country_entry, dublin_rule, loaded, pick, zone_entry, Fault, Model, Zone};
use vstd::prelude::*;

verus! {

/// Cutting a text at a separator gives at least one piece.
pub proof fn lemma_split_on_has_a_piece(s: Seq<char>, sep: char)
    ensures
        split_on(s, sep).len() >= 1,
    decreases s.len(),
{
    let n = span(s, CharClass::Except(sep));
    lemma_span_bounds(s, CharClass::Except(sep));
    if n < s.len() {
        lemma_split_on_has_a_piece(s.skip(n as int + 1), sep);
    }
}

/// Adding a record keeps a well-formed index well-formed, as long as the
/// place of the new record can be counted.
pub proof fn lemma_add_timezone_wf(m: Model, olson: Seq<char>, posix: Seq<char>)
    requires
        m.wf(),
        m.zones.len() < usize::MAX,
        m.add_timezone(olson, posix) is Ok,
    ensures
        m.add_timezone(olson, posix)->Ok_0.wf(),
{
    let r = m.add_timezone(olson, posix)->Ok_0;
    let key = normalized(olson);
    assert forall|k: Seq<char>| #[trigger] r.olson.contains_key(k) implies r.olson[k]
        < r.zones.len() && normalized(r.zones[r.olson[k] as int].olson) == k by {
        if k != key {
            assert(m.olson.contains_key(k));
        }
    }
    assert forall|i: int| 0 <= i < r.zones.len() implies r.olson.contains_key(
        normalized(#[trigger] r.zones[i].olson),
    ) && r.olson[normalized(r.zones[i].olson)] == i by {
        if i < m.zones.len() {
            assert(r.zones[i] == m.zones[i]);
            assert(m.olson.contains_key(normalized(m.zones[i].olson)));
        }
    }
    assert forall|c: Seq<char>| #[trigger] r.countries.contains_key(c) implies r.countries[c].len()
        > 0 && r.countries[c].no_duplicates() && forall|j: int|
        0 <= j < r.countries[c].len() ==> #[trigger] r.countries[c][j] < r.zones.len() by {
        assert(m.countries.contains_key(c));
    }
}

/// Tying a country to a record keeps a well-formed index well-formed.
pub proof fn lemma_add_country_timezone_wf(m: Model, country: Seq<char>, olson: Seq<char>)
    requires
        m.wf(),
        m.add_country_timezone(country, olson) is Ok,
    ensures
        m.add_country_timezone(country, olson)->Ok_0.wf(),
{
    let r = m.add_country_timezone(country, olson)->Ok_0;
    let code = normalized(country);
    let place = m.olson[normalized(olson)];
    let before = m.places_of(code);
    assert(m.olson.contains_key(normalized(olson)));
    assert forall|c: Seq<char>| #[trigger] r.countries.contains_key(c) implies r.countries[c].len()
        > 0 && r.countries[c].no_duplicates() && forall|j: int|
        0 <= j < r.countries[c].len() ==> #[trigger] r.countries[c][j] < r.zones.len() by {
        if c == code {
            let after = before.push(place);
            if m.countries.contains_key(code) {
                assert(before.no_duplicates());
            }
            assert forall|a: int, b: int| 0 <= a < after.len() && 0 <= b < after.len() && a
                != b implies after[a] != after[b] by {
                if a < before.len() && b < before.len() {
                } else if a < before.len() {
                    assert(before[a] != place);
                } else {
                    assert(before[b] != place);
                }
            }
            assert forall|j: int| 0 <= j < after.len() implies #[trigger] after[j]
                < r.zones.len() by {
                if j < before.len() {
                    assert(m.countries.contains_key(code));
                    assert(before[j] == m.countries[code][j]);
                }
            }
        } else {
            assert(m.countries.contains_key(c));
        }
    }
}

/// The three corrections keep a well-formed index well-formed.
pub proof fn lemma_overrides_wf(m: Model)
    requires
        m.wf(),
    ensures
        m.alias_uk().wf(),
        m.pin_germany().wf(),
        m.correct_dublin().wf(),
        m.with_overrides().wf(),
{
    lemma_alias_uk_wf(m);
    lemma_pin_germany_wf(m);
    lemma_correct_dublin_wf(m);
    lemma_pin_germany_wf(m.alias_uk());
    lemma_correct_dublin_wf(m.alias_uk().pin_germany());
}

proof fn lemma_alias_uk_wf(m: Model)
    requires
        m.wf(),
    ensures
        m.alias_uk().wf(),
{
    let r = m.alias_uk();
    assert forall|c: Seq<char>| #[trigger] r.countries.contains_key(c) implies r.countries[c].len()
        > 0 && r.countries[c].no_duplicates() && forall|j: int|
        0 <= j < r.countries[c].len() ==> #[trigger] r.countries[c][j] < r.zones.len() by {
        if m.countries.contains_key("GB"@) && c == "UK"@ {
            assert(r.countries[c] == m.countries["GB"@]);
        } else {
            assert(m.countries.contains_key(c));
        }
    }
}

proof fn lemma_pin_germany_wf(m: Model)
    requires
        m.wf(),
    ensures
        m.pin_germany().wf(),
{
    let r = m.pin_germany();
    assert forall|c: Seq<char>| #[trigger] r.countries.contains_key(c) implies r.countries[c].len()
        > 0 && r.countries[c].no_duplicates() && forall|j: int|
        0 <= j < r.countries[c].len() ==> #[trigger] r.countries[c][j] < r.zones.len() by {
        if m.olson.contains_key("EUROPE/BERLIN"@) && c == "DE"@ {
            assert(r.countries[c] =~= seq![m.olson["EUROPE/BERLIN"@]]);
        } else {
            assert(m.countries.contains_key(c));
        }
    }
}

proof fn lemma_correct_dublin_wf(m: Model)
    requires
        m.wf(),
    ensures
        m.correct_dublin().wf(),
{
    let r = m.correct_dublin();
    if m.find_olson("EUROPE/DUBLIN"@) is Some {
        let place = m.olson["EUROPE/DUBLIN"@] as int;
        assert forall|k: Seq<char>| #[trigger] r.olson.contains_key(k) implies r.olson[k]
            < r.zones.len() && normalized(r.zones[r.olson[k] as int].olson) == k by {
            assert(m.olson.contains_key(k));
            assert(r.zones[r.olson[k] as int].olson == m.zones[m.olson[k] as int].olson);
        }
        assert forall|i: int| 0 <= i < r.zones.len() implies r.olson.contains_key(
            normalized(#[trigger] r.zones[i].olson),
        ) && r.olson[normalized(r.zones[i].olson)] == i by {
            assert(r.zones[i].olson == m.zones[i].olson);
            assert(m.olson.contains_key(normalized(m.zones[i].olson)));
        }
        assert forall|c: Seq<char>| #[trigger]
            r.countries.contains_key(c) implies r.countries[c].len() > 0
            && r.countries[c].no_duplicates() && forall|j: int|
            0 <= j < r.countries[c].len() ==> #[trigger] r.countries[c][j] < r.zones.len() by {
            assert(m.countries.contains_key(c));
        }
    }
}

/// Adding the lines of a timezone table keeps a well-formed index
/// well-formed, and adds no more records than there are lines.
pub proof fn lemma_add_zone_lines_wf(m: Model, lines: Seq<Seq<char>>)
    requires
        m.wf(),
        m.zones.len() + lines.len() <= usize::MAX,
        m.add_zone_lines(lines) is Ok,
    ensures
        m.add_zone_lines(lines)->Ok_0.wf(),
        m.add_zone_lines(lines)->Ok_0.zones.len() <= m.zones.len() + lines.len(),
    decreases lines.len(),
{
    if lines.len() > 0 {
        match zone_entry(lines[0]) {
            None => {
                lemma_add_zone_lines_wf(m, lines.skip(1));
            },
            Some((olson, posix)) => {
                lemma_add_timezone_wf(m, olson, posix);
                lemma_add_zone_lines_wf(m.add_timezone(olson, posix)->Ok_0, lines.skip(1));
            },
        }
    }
}

/// Tying countries keeps a well-formed index well-formed and leaves the
/// records and their names as they are.
pub proof fn lemma_tie_countries_wf(m: Model, codes: Seq<Seq<char>>, olson: Seq<char>)
    requires
        m.tie_countries(codes, olson) is Ok,
    ensures
        m.wf() ==> m.tie_countries(codes, olson)->Ok_0.wf(),
        m.tie_countries(codes, olson)->Ok_0.zones == m.zones,
        m.tie_countries(codes, olson)->Ok_0.olson == m.olson,
        codes.len() > 0 ==> m.olson.contains_key(normalized(olson)),
    decreases codes.len(),
{
    if codes.len() > 0 {
        if m.wf() {
            lemma_add_country_timezone_wf(m, codes[0], olson);
        }
        lemma_tie_countries_wf(m.add_country_timezone(codes[0], olson)->Ok_0, codes.skip(1), olson);
    }
}

/// Adding the lines of a country table keeps a well-formed index well-formed
/// and leaves the records and their names as they are.
pub proof fn lemma_add_country_lines_wf(m: Model, lines: Seq<Seq<char>>)
    requires
        m.add_country_lines(lines) is Ok,
    ensures
        m.wf() ==> m.add_country_lines(lines)->Ok_0.wf(),
        m.add_country_lines(lines)->Ok_0.zones == m.zones,
        m.add_country_lines(lines)->Ok_0.olson == m.olson,
    decreases lines.len(),
{
    if lines.len() > 0 {
        match country_entry(lines[0]) {
            None => {
                lemma_add_country_lines_wf(m, lines.skip(1));
            },
            Some((codes, olson)) => {
                lemma_tie_countries_wf(m, codes, olson);
                lemma_add_country_lines_wf(m.tie_countries(codes, olson)->Ok_0, lines.skip(1));
            },
        }
    }
}

/// Every index that a load builds is well-formed: each entry of the two
/// indices names a record that is there, and each record is found under the
/// normal form of its name.
pub proof fn loaded_index_is_well_formed(zone_lines: Seq<Seq<char>>, country_lines: Seq<Seq<char>>)
    requires
        zone_lines.len() <= usize::MAX,
        loaded(zone_lines, country_lines) is Ok,
    ensures
        loaded(zone_lines, country_lines)->Ok_0.wf(),
{
    let empty = Model::empty();
    assert(empty.wf());
    lemma_add_zone_lines_wf(empty, zone_lines);
    let with_zones = empty.add_zone_lines(zone_lines)->Ok_0;
    lemma_add_country_lines_wf(with_zones, country_lines);
    lemma_overrides_wf(with_zones.add_country_lines(country_lines)->Ok_0);
}

/// In a well-formed index, what a country is tied to is all there: a lookup
/// gives one record for each place of its list, in order, and at least one.
pub proof fn country_records_are_all_there(m: Model, code: Seq<char>)
    requires
        m.wf(),
        m.countries.contains_key(code),
    ensures
        m.find_country(code) is Some,
        m.find_country(code)->Some_0.len() == m.countries[code].len(),
        m.find_country(code)->Some_0.len() >= 1,
        forall|j: int|
            0 <= j < m.countries[code].len() ==> #[trigger] m.find_country(code)->Some_0[j]
                == m.zones[m.countries[code][j] as int],
{
    lemma_pick_in_range(m.zones, m.countries[code]);
}

/// Picking at places that are all in range gives one record for each place.
pub proof fn lemma_pick_in_range(zones: Seq<Zone>, places: Seq<usize>)
    requires
        forall|j: int| 0 <= j < places.len() ==> #[trigger] places[j] < zones.len(),
    ensures
        pick(zones, places).len() == places.len(),
        forall|j: int|
            0 <= j < places.len() ==> #[trigger] pick(zones, places)[j] == zones[places[j] as int],
    decreases places.len(),
{
    if places.len() > 0 {
        let head = places.drop_last();
        assert forall|j: int| 0 <= j < head.len() implies #[trigger] head[j] < zones.len() by {
            assert(head[j] == places[j]);
        }
        lemma_pick_in_range(zones, head);
        assert forall|j: int| 0 <= j < places.len() implies #[trigger] pick(zones, places)[j]
            == zones[places[j] as int] by {
            if j < head.len() {
                assert(head[j] == places[j]);
                assert(pick(zones, places)[j] == pick(zones, head)[j]);
            }
        }
    }
}

/// Adding the lines of a timezone table fails only on a name that is taken.
pub proof fn lemma_add_zone_lines_fault(m: Model, lines: Seq<Seq<char>>)
    requires
        m.add_zone_lines(lines) is Err,
    ensures
        m.add_zone_lines(lines)->Err_0 is DuplicateTimezone,
    decreases lines.len(),
{
    if lines.len() > 0 {
        match zone_entry(lines[0]) {
            None => {
                lemma_add_zone_lines_fault(m, lines.skip(1));
            },
            Some((olson, posix)) => {
                if m.add_timezone(olson, posix) is Ok {
                    lemma_add_zone_lines_fault(
                        m.add_timezone(olson, posix)->Ok_0,
                        lines.skip(1),
                    );
                }
            },
        }
    }
}

/// Where the lines of a timezone table can all be added, no name among them
/// was in the index before, all of them are in it after, and no two of them
/// have one normal form.
pub proof fn lemma_add_zone_lines_names(m: Model, lines: Seq<Seq<char>>)
    requires
        m.add_zone_lines(lines) is Ok,
    ensures
        forall|k: Seq<char>|
            m.olson.contains_key(k) ==> #[trigger] m.add_zone_lines(lines)->Ok_0.olson.contains_key(
                k,
            ),
        forall|i: int|
            0 <= i < lines.len() && (#[trigger] zone_entry(lines[i])) is Some ==> {
                let name = normalized(zone_entry(lines[i])->Some_0.0);
                !m.olson.contains_key(name) && m.add_zone_lines(lines)->Ok_0.olson.contains_key(
                    name,
                )
            },
        forall|i: int, j: int|
            0 <= i < j < lines.len() && (#[trigger] zone_entry(lines[i])) is Some && (
            #[trigger] zone_entry(lines[j])) is Some ==> normalized(
                zone_entry(lines[i])->Some_0.0,
            ) != normalized(zone_entry(lines[j])->Some_0.0),
    decreases lines.len(),
{
    if lines.len() > 0 {
        let rest = lines.skip(1);
        let next = match zone_entry(lines[0]) {
            None => m,
            Some((olson, posix)) => m.add_timezone(olson, posix)->Ok_0,
        };
        lemma_add_zone_lines_names(next, rest);
        let done = next.add_zone_lines(rest)->Ok_0;
        assert(m.add_zone_lines(lines)->Ok_0 == done);
        assert forall|k: Seq<char>| m.olson.contains_key(k) implies #[trigger] done.olson.contains_key(
            k,
        ) by {
            assert(next.olson.contains_key(k));
        }
        assert forall|i: int|
            0 <= i < lines.len() && (#[trigger] zone_entry(lines[i])) is Some implies {
            let name = normalized(zone_entry(lines[i])->Some_0.0);
            !m.olson.contains_key(name) && done.olson.contains_key(name)
        } by {
            let name = normalized(zone_entry(lines[i])->Some_0.0);
            if i == 0 {
                assert(next.olson.contains_key(name));
            } else {
                assert(rest[i - 1] == lines[i]);
                assert(zone_entry(rest[i - 1]) is Some);
                if m.olson.contains_key(name) {
                    assert(next.olson.contains_key(name));
                }
            }
        }
        assert forall|i: int, j: int|
            0 <= i < j < lines.len() && (#[trigger] zone_entry(lines[i])) is Some && (
            #[trigger] zone_entry(lines[j])) is Some implies normalized(
            zone_entry(lines[i])->Some_0.0,
        ) != normalized(zone_entry(lines[j])->Some_0.0) by {
            assert(rest[j - 1] == lines[j]);
            assert(zone_entry(rest[j - 1]) is Some);
            if i == 0 {
                assert(next.olson.contains_key(normalized(zone_entry(lines[0])->Some_0.0)));
            } else {
                assert(rest[i - 1] == lines[i]);
                assert(zone_entry(rest[i - 1]) is Some);
            }
        }
    }
}

/// A timezone table in which two lines give names of one normal form cannot
/// be loaded: the load ends with the fault of a name that is taken.
pub proof fn duplicate_timezone_fails(
    zone_lines: Seq<Seq<char>>,
    country_lines: Seq<Seq<char>>,
    i: int,
    j: int,
)
    requires
        0 <= i < j < zone_lines.len(),
        zone_entry(zone_lines[i]) is Some,
        zone_entry(zone_lines[j]) is Some,
        normalized(zone_entry(zone_lines[i])->Some_0.0) == normalized(
            zone_entry(zone_lines[j])->Some_0.0,
        ),
    ensures
        loaded(zone_lines, country_lines) is Err,
        loaded(zone_lines, country_lines)->Err_0 is DuplicateTimezone,
{
    let empty = Model::empty();
    if empty.add_zone_lines(zone_lines) is Ok {
        lemma_add_zone_lines_names(empty, zone_lines);
    } else {
        lemma_add_zone_lines_fault(empty, zone_lines);
    }
}

/// The records that the lines of a timezone table give: one for each line of
/// exactly two words, in the order of the lines.
pub open spec fn zone_entries(lines: Seq<Seq<char>>) -> Seq<Zone>
    decreases lines.len(),
{
    if lines.len() == 0 {
        Seq::empty()
    } else {
        match zone_entry(lines[0]) {
            Some((olson, posix)) => seq![Zone { olson, posix }] + zone_entries(lines.skip(1)),
            None => zone_entries(lines.skip(1)),
        }
    }
}

/// No two of `zones` have names of one normal form.
pub open spec fn names_differ(zones: Seq<Zone>) -> bool {
    forall|i: int, j: int|
        #![trigger zones[i], zones[j]]
        0 <= i < j < zones.len() ==> normalized(zones[i].olson) != normalized(zones[j].olson)
}

/// None of `zones` has a name whose normal form the index `m` holds.
pub open spec fn names_are_new(m: Model, zones: Seq<Zone>) -> bool {
    forall|i: int|
        0 <= i < zones.len() ==> !m.olson.contains_key(normalized(#[trigger] zones[i].olson))
}

/// The lines of a timezone table can be added exactly where their names are
/// new to the index and differ from each other. The records of the lines
/// then follow those that were there, and the countries stay as they were.
pub proof fn lemma_add_zone_lines_exact(m: Model, lines: Seq<Seq<char>>)
    ensures
        m.add_zone_lines(lines) is Ok <==> names_are_new(m, zone_entries(lines)) && names_differ(
            zone_entries(lines),
        ),
        m.add_zone_lines(lines) matches Ok(r) ==> r.zones == m.zones + zone_entries(lines)
            && r.countries == m.countries,
    decreases lines.len(),
{
    let all = zone_entries(lines);
    if lines.len() == 0 {
        assert(m.zones + all =~= m.zones);
    } else {
        let rest = lines.skip(1);
        let tail = zone_entries(rest);
        match zone_entry(lines[0]) {
            None => {
                lemma_add_zone_lines_exact(m, rest);
            },
            Some((olson, posix)) => {
                let zone = Zone { olson, posix };
                assert(all[0] == zone);
                assert forall|i: int| 0 <= i < tail.len() implies #[trigger] tail[i] == all[i + 1] by {}
                if m.add_timezone(olson, posix) is Ok {
                    let next = m.add_timezone(olson, posix)->Ok_0;
                    lemma_add_zone_lines_exact(next, rest);
                    if next.add_zone_lines(rest) is Ok {
                        assert forall|i: int| 0 <= i < all.len() implies !m.olson.contains_key(
                            normalized(#[trigger] all[i].olson),
                        ) by {
                            if i > 0 {
                                assert(all[i] == tail[i - 1]);
                                assert(!next.olson.contains_key(normalized(tail[i - 1].olson)));
                            }
                        }
                        assert forall|i: int, j: int|
                            #![trigger all[i], all[j]]
                            0 <= i < j < all.len() implies normalized(all[i].olson) != normalized(
                            all[j].olson,
                        ) by {
                            assert(all[j] == tail[j - 1]);
                            if i == 0 {
                                assert(!next.olson.contains_key(normalized(tail[j - 1].olson)));
                            } else {
                                assert(all[i] == tail[i - 1]);
                            }
                        }
                        let r = next.add_zone_lines(rest)->Ok_0;
                        assert(r.zones =~= m.zones + all);
                    }
                    if names_are_new(m, all) && names_differ(all) {
                        assert forall|i: int| 0 <= i < tail.len() implies !next.olson.contains_key(
                            normalized(#[trigger] tail[i].olson),
                        ) by {
                            assert(tail[i] == all[i + 1]);
                            assert(normalized(all[0].olson) != normalized(all[i + 1].olson));
                        }
                        assert forall|i: int, j: int|
                            #![trigger tail[i], tail[j]]
                            0 <= i < j < tail.len() implies normalized(tail[i].olson)
                            != normalized(tail[j].olson) by {
                            assert(tail[i] == all[i + 1]);
                            assert(tail[j] == all[j + 1]);
                        }
                    }
                } else {
                    assert(m.olson.contains_key(normalized(all[0].olson)));
                }
            },
        }
    }
}

/// A timezone table can be loaded exactly where no two of its lines give
/// names of one normal form. The index then holds one record for each line
/// of two words, in the order of the lines, each found under the normal form
/// of its name and under no other, and no country.
pub proof fn zone_table_loads_where_names_differ(zone_lines: Seq<Seq<char>>)
    requires
        zone_lines.len() <= usize::MAX,
    ensures
        Model::empty().add_zone_lines(zone_lines) is Ok <==> names_differ(
            zone_entries(zone_lines),
        ),
        Model::empty().add_zone_lines(zone_lines) matches Ok(m) ==> m.wf() && m.zones
            == zone_entries(zone_lines) && m.countries == Map::<Seq<char>, Seq<usize>>::empty(),
{
    let empty = Model::empty();
    lemma_add_zone_lines_exact(empty, zone_lines);
    assert(empty.zones + zone_entries(zone_lines) =~= zone_entries(zone_lines));
    if empty.add_zone_lines(zone_lines) is Ok {
        lemma_add_zone_lines_wf(empty, zone_lines);
    }
}

/// The ties that one line of a country table asks for: each of `codes` with
/// the name `olson`.
pub open spec fn ties_of(codes: Seq<Seq<char>>, olson: Seq<char>) -> Seq<(Seq<char>, Seq<char>)> {
    Seq::new(codes.len(), |i: int| (codes[i], olson))
}

/// The ties that the lines of a country table ask for, each a country code
/// and a name as the table spells them: for each line that is no comment and
/// has three fields or more, the codes of its first field in order, each with
/// the name in its third field.
pub open spec fn country_ties(lines: Seq<Seq<char>>) -> Seq<(Seq<char>, Seq<char>)>
    decreases lines.len(),
{
    if lines.len() == 0 {
        Seq::empty()
    } else {
        match country_entry(lines[0]) {
            Some((codes, olson)) => ties_of(codes, olson) + country_ties(lines.skip(1)),
            None => country_ties(lines.skip(1)),
        }
    }
}

/// The index after the ties were made in order, or the fault of the first
/// that could not be.
pub open spec fn tie_all(m: Model, ties: Seq<(Seq<char>, Seq<char>)>) -> Result<Model, Fault>
    decreases ties.len(),
{
    if ties.len() == 0 {
        Ok(m)
    } else {
        match m.add_country_timezone(ties[0].0, ties[0].1) {
            Ok(next) => tie_all(next, ties.skip(1)),
            Err(f) => Err(f),
        }
    }
}

/// The places that `ties` give the country `code`, in order: for each tie
/// whose code has the normal form `code`, the place at which `olson` files
/// the normal form of its name.
pub open spec fn tied_places(
    olson: Map<Seq<char>, usize>,
    ties: Seq<(Seq<char>, Seq<char>)>,
    code: Seq<char>,
) -> Seq<usize>
    decreases ties.len(),
{
    if ties.len() == 0 {
        Seq::empty()
    } else if normalized(ties[0].0) == code {
        seq![olson[normalized(ties[0].1)]] + tied_places(olson, ties.skip(1), code)
    } else {
        tied_places(olson, ties.skip(1), code)
    }
}

/// Each of `ties` names a record of the index `m`.
pub open spec fn ties_are_known(m: Model, ties: Seq<(Seq<char>, Seq<char>)>) -> bool {
    forall|k: int|
        #![trigger ties[k]]
        0 <= k < ties.len() ==> m.olson.contains_key(normalized(ties[k].1))
}

/// None of `ties` is made in the index `m` already.
pub open spec fn ties_are_new(m: Model, ties: Seq<(Seq<char>, Seq<char>)>) -> bool {
    forall|k: int|
        #![trigger ties[k]]
        0 <= k < ties.len() ==> !m.places_of(normalized(ties[k].0)).contains(
            m.olson[normalized(ties[k].1)],
        )
}

/// No two of `ties` have codes of one normal form and names of one normal
/// form.
pub open spec fn ties_differ(ties: Seq<(Seq<char>, Seq<char>)>) -> bool {
    forall|i: int, j: int|
        #![trigger ties[i], ties[j]]
        0 <= i < j < ties.len() ==> !(normalized(ties[i].0) == normalized(ties[j].0) && normalized(
            ties[i].1,
        ) == normalized(ties[j].1))
}

/// Tying the codes of one line is making its ties in order.
proof fn lemma_tie_countries_is_tie_all(m: Model, codes: Seq<Seq<char>>, olson: Seq<char>)
    ensures
        m.tie_countries(codes, olson) == tie_all(m, ties_of(codes, olson)),
    decreases codes.len(),
{
    let ties = ties_of(codes, olson);
    if codes.len() > 0 {
        assert(ties[0] == (codes[0], olson));
        assert(ties.skip(1) =~= ties_of(codes.skip(1), olson));
        if m.add_country_timezone(codes[0], olson) is Ok {
            lemma_tie_countries_is_tie_all(
                m.add_country_timezone(codes[0], olson)->Ok_0,
                codes.skip(1),
                olson,
            );
        }
    }
}

/// Making the ties of two lists in a row is making the first list, then the
/// second.
proof fn lemma_tie_all_in_a_row(
    m: Model,
    a: Seq<(Seq<char>, Seq<char>)>,
    b: Seq<(Seq<char>, Seq<char>)>,
)
    ensures
        tie_all(m, a + b) == match tie_all(m, a) {
            Ok(next) => tie_all(next, b),
            Err(f) => Err(f),
        },
    decreases a.len(),
{
    if a.len() == 0 {
        assert(a + b =~= b);
    } else {
        assert((a + b)[0] == a[0]);
        assert((a + b).skip(1) =~= a.skip(1) + b);
        if m.add_country_timezone(a[0].0, a[0].1) is Ok {
            lemma_tie_all_in_a_row(m.add_country_timezone(a[0].0, a[0].1)->Ok_0, a.skip(1), b);
        }
    }
}

/// Adding the lines of a country table is making the ties that they ask for,
/// in order.
pub proof fn lemma_add_country_lines_is_tie_all(m: Model, lines: Seq<Seq<char>>)
    ensures
        m.add_country_lines(lines) == tie_all(m, country_ties(lines)),
    decreases lines.len(),
{
    if lines.len() > 0 {
        match country_entry(lines[0]) {
            None => {
                lemma_add_country_lines_is_tie_all(m, lines.skip(1));
            },
            Some((codes, olson)) => {
                lemma_tie_countries_is_tie_all(m, codes, olson);
                lemma_tie_all_in_a_row(m, ties_of(codes, olson), country_ties(lines.skip(1)));
                if m.tie_countries(codes, olson) is Ok {
                    lemma_add_country_lines_is_tie_all(
                        m.tie_countries(codes, olson)->Ok_0,
                        lines.skip(1),
                    );
                }
            },
        }
    }
}

/// In a well-formed index, ties can be made exactly where each names a
/// record, none is made already and no two are the same in normal form. The
/// records and their names then stay as they were, and each country has the
/// places that it had, followed by those that the ties give it.
pub proof fn lemma_tie_all_exact(m: Model, ties: Seq<(Seq<char>, Seq<char>)>)
    requires
        m.wf(),
    ensures
        tie_all(m, ties) is Ok <==> ties_are_known(m, ties) && ties_are_new(m, ties) && ties_differ(
            ties,
        ),
        tie_all(m, ties) matches Ok(r) ==> r.wf() && r.zones == m.zones && r.olson == m.olson
            && forall|code: Seq<char>| #[trigger]
            r.places_of(code) == m.places_of(code) + tied_places(m.olson, ties, code),
    decreases ties.len(),
{
    if ties.len() == 0 {
        assert forall|code: Seq<char>| #[trigger]
            m.places_of(code) == m.places_of(code) + tied_places(m.olson, ties, code) by {
            assert(m.places_of(code) + Seq::<usize>::empty() =~= m.places_of(code));
        }
    } else {
        let rest = ties.skip(1);
        let code = normalized(ties[0].0);
        let name = normalized(ties[0].1);
        let place = m.olson[name];
        assert forall|k: int| 0 <= k < rest.len() implies #[trigger] rest[k] == ties[k + 1] by {}
        if m.add_country_timezone(ties[0].0, ties[0].1) is Ok {
            let next = m.add_country_timezone(ties[0].0, ties[0].1)->Ok_0;
            let pushed = m.places_of(code).push(place);
            lemma_add_country_timezone_wf(m, ties[0].0, ties[0].1);
            lemma_tie_all_exact(next, rest);
            assert(next.places_of(code) == pushed);
            assert(pushed[pushed.len() - 1] == place);
            assert(pushed.contains(place));
            if tie_all(next, rest) is Ok {
                assert forall|k: int| #![trigger ties[k]] 0 <= k < ties.len() implies m.olson.contains_key(
                    normalized(ties[k].1),
                ) by {
                    if k > 0 {
                        assert(ties[k] == rest[k - 1]);
                    }
                }
                assert forall|k: int| #![trigger ties[k]] 0 <= k < ties.len() implies !m.places_of(
                    normalized(ties[k].0),
                ).contains(m.olson[normalized(ties[k].1)]) by {
                    if k > 0 {
                        assert(ties[k] == rest[k - 1]);
                        let c = normalized(ties[k].0);
                        let p = m.olson[normalized(ties[k].1)];
                        if m.places_of(c).contains(p) {
                            let w = choose|w: int| 0 <= w < m.places_of(c).len() && m.places_of(c)[w] == p;
                            assert(next.places_of(c)[w] == p);
                            assert(next.places_of(c).contains(p));
                        }
                    }
                }
                assert forall|i: int, j: int|
                    #![trigger ties[i], ties[j]]
                    0 <= i < j < ties.len() implies !(normalized(ties[i].0) == normalized(ties[j].0)
                    && normalized(ties[i].1) == normalized(ties[j].1)) by {
                    assert(ties[j] == rest[j - 1]);
                    if i > 0 {
                        assert(ties[i] == rest[i - 1]);
                    }
                }
                let r = tie_all(next, rest)->Ok_0;
                assert forall|c: Seq<char>| #[trigger]
                    r.places_of(c) == m.places_of(c) + tied_places(m.olson, ties, c) by {
                    assert(r.places_of(c) == next.places_of(c) + tied_places(m.olson, rest, c));
                    if c == code {
                        assert(pushed + tied_places(m.olson, rest, c) =~= m.places_of(c) + (seq![
                            place,
                        ] + tied_places(m.olson, rest, c)));
                    }
                }
            }
            if ties_are_known(m, ties) && ties_are_new(m, ties) && ties_differ(ties) {
                assert forall|k: int| #![trigger rest[k]] 0 <= k < rest.len() implies next.olson.contains_key(
                    normalized(rest[k].1),
                ) by {
                    assert(rest[k] == ties[k + 1]);
                }
                assert forall|k: int| #![trigger rest[k]] 0 <= k < rest.len() implies !next.places_of(
                    normalized(rest[k].0),
                ).contains(next.olson[normalized(rest[k].1)]) by {
                    assert(rest[k] == ties[k + 1]);
                    let c = normalized(rest[k].0);
                    let n = normalized(rest[k].1);
                    let p = m.olson[n];
                    assert(m.olson.contains_key(n));
                    assert(m.olson.contains_key(name));
                    assert(!(c == code && n == name)) by {
                        assert(ties[0] == ties[0]);
                    }
                    if next.places_of(c).contains(p) {
                        let w = choose|w: int|
                            0 <= w < next.places_of(c).len() && next.places_of(c)[w] == p;
                        if c == code && w == pushed.len() - 1 {
                            assert(p == place);
                        } else {
                            assert(m.places_of(c)[w] == p);
                            assert(m.places_of(c).contains(p));
                        }
                    }
                }
                assert forall|i: int, j: int|
                    #![trigger rest[i], rest[j]]
                    0 <= i < j < rest.len() implies !(normalized(rest[i].0) == normalized(rest[j].0)
                    && normalized(rest[i].1) == normalized(rest[j].1)) by {
                    assert(rest[i] == ties[i + 1]);
                    assert(rest[j] == ties[j + 1]);
                }
            }
        } else {
            assert(ties[0] == ties[0]);
        }
    }
}

/// One of `zones` has a name of the normal form of `name`.
pub open spec fn names_a_record(zones: Seq<Zone>, name: Seq<char>) -> bool {
    exists|i: int| 0 <= i < zones.len() && normalized(#[trigger] zones[i].olson) == normalized(name)
}

/// Each of `ties` names one of `zones`.
pub open spec fn ties_name_records(zones: Seq<Zone>, ties: Seq<(Seq<char>, Seq<char>)>) -> bool {
    forall|k: int| #![trigger ties[k]] 0 <= k < ties.len() ==> names_a_record(zones, ties[k].1)
}

/// A load succeeds exactly where the two tables agree with themselves and
/// with each other: no two lines of the timezone table give names of one
/// normal form, every tie of the country table names a record of the
/// timezone table, and no two of its ties are the same in normal form.
pub proof fn load_succeeds_exactly_where_the_tables_agree(
    zone_lines: Seq<Seq<char>>,
    country_lines: Seq<Seq<char>>,
)
    requires
        zone_lines.len() <= usize::MAX,
    ensures
        loaded(zone_lines, country_lines) is Ok <==> names_differ(zone_entries(zone_lines))
            && ties_name_records(zone_entries(zone_lines), country_ties(country_lines))
            && ties_differ(country_ties(country_lines)),
{
    zone_table_loads_where_names_differ(zone_lines);
    if Model::empty().add_zone_lines(zone_lines) is Ok {
        let m = Model::empty().add_zone_lines(zone_lines)->Ok_0;
        let ties = country_ties(country_lines);
        lemma_add_country_lines_is_tie_all(m, country_lines);
        lemma_tie_all_exact(m, ties);
        assert forall|k: int| #![trigger ties[k]] 0 <= k < ties.len() implies !m.places_of(
            normalized(ties[k].0),
        ).contains(m.olson[normalized(ties[k].1)]) by {
            assert(m.places_of(normalized(ties[k].0)).len() == 0);
        }
        if ties_are_known(m, ties) {
            assert forall|k: int| #![trigger ties[k]] 0 <= k < ties.len() implies names_a_record(
                m.zones,
                ties[k].1,
            ) by {
                let key = normalized(ties[k].1);
                assert(m.olson.contains_key(key));
                assert(normalized(m.zones[m.olson[key] as int].olson) == key);
            }
        }
        if ties_name_records(m.zones, ties) {
            assert forall|k: int| #![trigger ties[k]] 0 <= k < ties.len() implies m.olson.contains_key(
                normalized(ties[k].1),
            ) by {
                assert(names_a_record(m.zones, ties[k].1));
                let i = choose|i: int|
                    0 <= i < m.zones.len() && normalized(#[trigger] m.zones[i].olson) == normalized(
                        ties[k].1,
                    );
                assert(m.olson.contains_key(normalized(m.zones[i].olson)));
            }
        }
    }
}

/// What a load builds, before the three corrections are applied to it: the
/// records are those of the timezone table, in its order; each is found under
/// the normal form of its name and under no other; and each country has the
/// places that the ties of the country table give it, in their order.
pub proof fn loaded_index_is_what_the_tables_say(
    zone_lines: Seq<Seq<char>>,
    country_lines: Seq<Seq<char>>,
)
    requires
        zone_lines.len() <= usize::MAX,
        loaded(zone_lines, country_lines) is Ok,
    ensures
        ({
            let base = Model::empty().add_zone_lines(zone_lines)->Ok_0.add_country_lines(
                country_lines,
            )->Ok_0;
            &&& loaded(zone_lines, country_lines)->Ok_0 == base.with_overrides()
            &&& base.wf()
            &&& base.zones == zone_entries(zone_lines)
            &&& forall|code: Seq<char>| #[trigger]
                base.places_of(code) == tied_places(
                    base.olson,
                    country_ties(country_lines),
                    code,
                )
        }),
{
    zone_table_loads_where_names_differ(zone_lines);
    let m = Model::empty().add_zone_lines(zone_lines)->Ok_0;
    let ties = country_ties(country_lines);
    lemma_add_country_lines_is_tie_all(m, country_lines);
    lemma_tie_all_exact(m, ties);
    let base = m.add_country_lines(country_lines)->Ok_0;
    assert forall|code: Seq<char>| #[trigger]
        base.places_of(code) == tied_places(base.olson, ties, code) by {
        assert(base.places_of(code) == m.places_of(code) + tied_places(m.olson, ties, code));
        assert(m.places_of(code) + tied_places(m.olson, ties, code) =~= tied_places(
            m.olson,
            ties,
            code,
        ));
    }
}

/// In a well-formed index, where no tie that names a record is made already
/// and no two ties are the same in normal form, ties can fail only on a name
/// of which there is no record.
proof fn lemma_tie_all_fault(m: Model, ties: Seq<(Seq<char>, Seq<char>)>)
    requires
        m.wf(),
        forall|k: int|
            #![trigger ties[k]]
            0 <= k < ties.len() && m.olson.contains_key(normalized(ties[k].1)) ==> !m.places_of(
                normalized(ties[k].0),
            ).contains(m.olson[normalized(ties[k].1)]),
        ties_differ(ties),
        tie_all(m, ties) is Err,
    ensures
        tie_all(m, ties)->Err_0 is UnknownTimezone,
    decreases ties.len(),
{
    if ties.len() > 0 {
        let rest = ties.skip(1);
        let code = normalized(ties[0].0);
        let name = normalized(ties[0].1);
        assert(ties[0] == ties[0]);
        if m.add_country_timezone(ties[0].0, ties[0].1) is Ok {
            let next = m.add_country_timezone(ties[0].0, ties[0].1)->Ok_0;
            let pushed = m.places_of(code).push(m.olson[name]);
            lemma_add_country_timezone_wf(m, ties[0].0, ties[0].1);
            assert(next.places_of(code) == pushed);
            assert forall|k: int|
                #![trigger rest[k]]
                0 <= k < rest.len() && next.olson.contains_key(
                    normalized(rest[k].1),
                ) implies !next.places_of(normalized(rest[k].0)).contains(
                next.olson[normalized(rest[k].1)],
            ) by {
                assert(rest[k] == ties[k + 1]);
                let c = normalized(rest[k].0);
                let n = normalized(rest[k].1);
                let p = m.olson[n];
                assert(m.olson.contains_key(name));
                if next.places_of(c).contains(p) {
                    let w = choose|w: int|
                        0 <= w < next.places_of(c).len() && next.places_of(c)[w] == p;
                    if c == code && w == pushed.len() - 1 {
                        assert(n == name);
                    } else {
                        assert(m.places_of(c)[w] == p);
                        assert(m.places_of(c).contains(p));
                    }
                }
            }
            assert forall|i: int, j: int|
                #![trigger rest[i], rest[j]]
                0 <= i < j < rest.len() implies !(normalized(rest[i].0) == normalized(rest[j].0)
                && normalized(rest[i].1) == normalized(rest[j].1)) by {
                assert(rest[i] == ties[i + 1]);
                assert(rest[j] == ties[j + 1]);
            }
            lemma_tie_all_fault(next, rest);
        }
    }
}

/// Where no two lines of the timezone table give names of one normal form
/// and no two ties of the country table are the same in normal form, a tie
/// that names no record of the timezone table ends the load with the fault
/// of a name of which there is no record.
pub proof fn unknown_timezone_is_the_fault(
    zone_lines: Seq<Seq<char>>,
    country_lines: Seq<Seq<char>>,
)
    requires
        zone_lines.len() <= usize::MAX,
        names_differ(zone_entries(zone_lines)),
        ties_differ(country_ties(country_lines)),
        !ties_name_records(zone_entries(zone_lines), country_ties(country_lines)),
    ensures
        loaded(zone_lines, country_lines) is Err,
        loaded(zone_lines, country_lines)->Err_0 is UnknownTimezone,
{
    load_succeeds_exactly_where_the_tables_agree(zone_lines, country_lines);
    zone_table_loads_where_names_differ(zone_lines);
    let m = Model::empty().add_zone_lines(zone_lines)->Ok_0;
    let ties = country_ties(country_lines);
    lemma_add_country_lines_is_tie_all(m, country_lines);
    assert forall|k: int|
        #![trigger ties[k]]
        0 <= k < ties.len() && m.olson.contains_key(normalized(ties[k].1)) implies !m.places_of(
        normalized(ties[k].0),
    ).contains(m.olson[normalized(ties[k].1)]) by {
        assert(m.places_of(normalized(ties[k].0)).len() == 0);
    }
    lemma_tie_all_fault(m, ties);
}

/// Adding the lines of a country table goes line by line: what the first `k`
/// lines give is what the rest is added to.
pub proof fn lemma_add_country_lines_split(m: Model, lines: Seq<Seq<char>>, k: int)
    requires
        0 <= k <= lines.len(),
    ensures
        m.add_country_lines(lines) == match m.add_country_lines(lines.take(k)) {
            Ok(head) => head.add_country_lines(lines.skip(k)),
            Err(f) => Err(f),
        },
    decreases k,
{
    if k == 0 {
        assert(lines.take(0) =~= Seq::<Seq<char>>::empty());
        assert(lines.skip(0) =~= lines);
    } else {
        let head = lines.take(k);
        assert(head[0] == lines[0]);
        assert(head.skip(1) =~= lines.skip(1).take(k - 1));
        assert(lines.skip(1).skip(k - 1) =~= lines.skip(k));
        match country_entry(lines[0]) {
            None => {
                lemma_add_country_lines_split(m, lines.skip(1), k - 1);
            },
            Some((codes, olson)) => {
                if m.tie_countries(codes, olson) is Ok {
                    lemma_add_country_lines_split(
                        m.tie_countries(codes, olson)->Ok_0,
                        lines.skip(1),
                        k - 1,
                    );
                }
            },
        }
    }
}

/// Where the lines of a country table can all be added, each of them gives a
/// name that the index holds.
pub proof fn lemma_add_country_lines_names(m: Model, lines: Seq<Seq<char>>, k: int)
    requires
        m.add_country_lines(lines) is Ok,
        0 <= k < lines.len(),
        country_entry(lines[k]) is Some,
    ensures
        m.olson.contains_key(normalized(country_entry(lines[k])->Some_0.1)),
{
    lemma_add_country_lines_split(m, lines, k);
    let head = m.add_country_lines(lines.take(k))->Ok_0;
    lemma_add_country_lines_wf(m, lines.take(k));
    let rest = lines.skip(k);
    assert(rest[0] == lines[k]);
    let (codes, olson) = country_entry(lines[k])->Some_0;
    lemma_split_on_has_a_piece(split_on(lines[k], '\t')[0], ',');
    assert(head.tie_countries(codes, olson) is Ok);
    lemma_tie_countries_wf(head, codes, olson);
}

/// A country table with a line whose name the timezone table lacks cannot be
/// loaded. Where the lines before it can be added, the load ends with the
/// fault of that line: its first country and its name, of which there is no
/// record.
pub proof fn unknown_timezone_fails(
    zone_lines: Seq<Seq<char>>,
    country_lines: Seq<Seq<char>>,
    k: int,
)
    requires
        Model::empty().add_zone_lines(zone_lines) is Ok,
        0 <= k < country_lines.len(),
        country_entry(country_lines[k]) is Some,
        !Model::empty().add_zone_lines(zone_lines)->Ok_0.olson.contains_key(
            normalized(country_entry(country_lines[k])->Some_0.1),
        ),
    ensures
        loaded(zone_lines, country_lines) is Err,
        Model::empty().add_zone_lines(zone_lines)->Ok_0.add_country_lines(country_lines.take(k))
            is Ok ==> loaded(zone_lines, country_lines) == Err::<Model, Fault>(
            Fault::UnknownTimezone {
                country: country_entry(country_lines[k])->Some_0.0[0],
                olson: country_entry(country_lines[k])->Some_0.1,
            },
        ),
{
    let with_zones = Model::empty().add_zone_lines(zone_lines)->Ok_0;
    if with_zones.add_country_lines(country_lines) is Ok {
        lemma_add_country_lines_names(with_zones, country_lines, k);
    }
    if with_zones.add_country_lines(country_lines.take(k)) is Ok {
        let head = with_zones.add_country_lines(country_lines.take(k))->Ok_0;
        lemma_add_country_lines_split(with_zones, country_lines, k);
        lemma_add_country_lines_wf(with_zones, country_lines.take(k));
        let rest = country_lines.skip(k);
        assert(rest[0] == country_lines[k]);
        let (codes, olson) = country_entry(country_lines[k])->Some_0;
        lemma_split_on_has_a_piece(split_on(country_lines[k], '\t')[0], ',');
        assert(head.add_country_timezone(codes[0], olson) is Err);
    }
}

/// After a load, `UK` has the records of `GB`, whenever `GB` is a country.
pub proof fn uk_is_alias_of_gb(zone_lines: Seq<Seq<char>>, country_lines: Seq<Seq<char>>)
    requires
        loaded(zone_lines, country_lines) is Ok,
        loaded(zone_lines, country_lines)->Ok_0.countries.contains_key("GB"@),
    ensures
        loaded(zone_lines, country_lines)->Ok_0.find_country("UK"@) == loaded(
            zone_lines,
            country_lines,
        )->Ok_0.find_country("GB"@),
{
    reveal_strlit("GB");
    reveal_strlit("UK");
    reveal_strlit("DE");
    assert("GB"@ != "DE"@) by {
        assert("GB"@[0] != "DE"@[0]);
    }
    assert("UK"@ != "DE"@) by {
        assert("UK"@[0] != "DE"@[0]);
    }
    assert("GB"@ != "UK"@) by {
        assert("GB"@[0] != "UK"@[0]);
    }
    let base = Model::empty().add_zone_lines(zone_lines)->Ok_0.add_country_lines(
        country_lines,
    )->Ok_0;
    let aliased = base.alias_uk();
    let pinned = aliased.pin_germany();
    assert(pinned.countries.contains_key("GB"@));
    assert(aliased.countries.contains_key("GB"@));
    assert(base.countries.contains_key("GB"@));
    assert(aliased.countries["UK"@] == aliased.countries["GB"@]);
    assert(pinned.countries["UK"@] == pinned.countries["GB"@]);
}

/// After a load, `DE` has the record of `EUROPE/BERLIN` and no other,
/// whenever there is such a record, whatever the country table says.
pub proof fn de_is_berlin_alone(zone_lines: Seq<Seq<char>>, country_lines: Seq<Seq<char>>)
    requires
        loaded(zone_lines, country_lines) is Ok,
        loaded(zone_lines, country_lines)->Ok_0.find_olson("EUROPE/BERLIN"@) is Some,
    ensures
        loaded(zone_lines, country_lines)->Ok_0.find_country("DE"@) == Some(
            seq![loaded(zone_lines, country_lines)->Ok_0.find_olson("EUROPE/BERLIN"@)->Some_0],
        ),
{
    let base = Model::empty().add_zone_lines(zone_lines)->Ok_0.add_country_lines(
        country_lines,
    )->Ok_0;
    let pinned = base.alias_uk().pin_germany();
    let m = pinned.correct_dublin();
    let place = m.olson["EUROPE/BERLIN"@];
    assert(m.olson == base.olson);
    assert(m.zones.len() == base.zones.len());
    assert(pinned.countries["DE"@] == seq![place]);
    assert(m.countries == pinned.countries);
    let places = seq![place];
    assert(places.drop_last() =~= Seq::<usize>::empty());
    assert(pick(m.zones, places.drop_last()) =~= Seq::<Zone>::empty());
    assert(pick(m.zones, places) =~= seq![m.zones[place as int]]);
}

/// After a load, the record of `EUROPE/DUBLIN`, if there is one, has the rule
/// `dublin_rule()`.
pub proof fn dublin_has_the_fixed_rule(zone_lines: Seq<Seq<char>>, country_lines: Seq<Seq<char>>)
    requires
        loaded(zone_lines, country_lines) is Ok,
        loaded(zone_lines, country_lines)->Ok_0.find_olson("EUROPE/DUBLIN"@) is Some,
    ensures
        loaded(zone_lines, country_lines)->Ok_0.find_olson("EUROPE/DUBLIN"@)->Some_0.posix
            == dublin_rule(),
{
    let base = Model::empty().add_zone_lines(zone_lines)->Ok_0.add_country_lines(
        country_lines,
    )->Ok_0;
    let pinned = base.alias_uk().pin_germany();
    assert(pinned.olson == base.olson);
    assert(pinned.zones == base.zones);
}

} // verus!
