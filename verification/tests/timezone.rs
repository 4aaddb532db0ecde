use timezoned::timezone::{country_fields, zone_fields, LoadError, TimezoneDb};

fn lines(text: &[&str]) -> Vec<String> {
    text.iter().map(|l| l.to_string()).collect()
}

fn names(db: &TimezoneDb, code: &str) -> Option<Vec<String>> {
    db.lookup_country(code).map(|tzs| tzs.iter().map(|tz| tz.olson.clone()).collect())
}

#[test]
fn new_index_holds_nothing() {
    let db = TimezoneDb::new();
    assert!(db.lookup_olson("EUROPE/BERLIN").is_none());
    assert!(db.lookup_country("DE").is_none());
}

#[test]
fn add_timezone_files_the_record_under_the_normal_form() {
    let mut db = TimezoneDb::new();
    assert!(db.add_timezone("America/New_York", "EST5EDT,M3.2.0,M11.1.0").is_ok());
    let tz = db.lookup_olson("AMERICA/NEW_YORK").unwrap();
    assert_eq!(tz.olson, "America/New_York");
    assert_eq!(tz.posix, "EST5EDT,M3.2.0,M11.1.0");
    assert!(db.lookup_olson("America/New_York").is_none());
    assert!(db.lookup_olson("AMERICA/CHICAGO").is_none());
}

#[test]
fn add_timezone_refuses_a_name_that_is_taken() {
    let mut db = TimezoneDb::new();
    db.add_timezone("Europe/Berlin", "CET-1CEST").unwrap();
    let err = db.add_timezone("europe/berlin", "OTHER").unwrap_err();
    assert!(matches!(&err, LoadError::DuplicateTimezone { olson } if olson == "europe/berlin"));
    assert_eq!(err.message(), "Timezone 'europe/berlin' already added to database");
    assert_eq!(db.lookup_olson("EUROPE/BERLIN").unwrap().posix, "CET-1CEST");
}

#[test]
fn add_country_timezone_ties_in_order() {
    let mut db = TimezoneDb::new();
    db.add_timezone("America/New_York", "EST5EDT").unwrap();
    db.add_timezone("America/Chicago", "CST6CDT").unwrap();
    db.add_country_timezone("us", "America/Chicago").unwrap();
    db.add_country_timezone("US", "america/new_york").unwrap();
    assert_eq!(
        names(&db, "US"),
        Some(vec!["America/Chicago".to_string(), "America/New_York".to_string()])
    );
    assert_eq!(names(&db, "us"), None);
    assert_eq!(names(&db, "CA"), None);
}

#[test]
fn add_country_timezone_refuses_an_unknown_name() {
    let mut db = TimezoneDb::new();
    db.add_timezone("Europe/Berlin", "CET-1CEST").unwrap();
    let err = db.add_country_timezone("FR", "Europe/Paris").unwrap_err();
    assert!(matches!(&err, LoadError::UnknownTimezone { country, olson }
        if country == "FR" && olson == "Europe/Paris"));
    assert_eq!(
        err.message(),
        "Attempted to add country 'FR' to nonexistent timezone 'Europe/Paris'"
    );
    assert_eq!(names(&db, "FR"), None);
}

#[test]
fn add_country_timezone_refuses_a_pair_that_is_tied() {
    let mut db = TimezoneDb::new();
    db.add_timezone("Europe/Berlin", "CET-1CEST").unwrap();
    db.add_country_timezone("DE", "Europe/Berlin").unwrap();
    let err = db.add_country_timezone(" de ", "EUROPE/BERLIN").unwrap_err();
    assert!(matches!(&err, LoadError::DuplicateCountryTimezone { country, olson }
        if country == " de " && olson == "EUROPE/BERLIN"));
    assert_eq!(err.message(), "Country ' de ' already contains timezone 'EUROPE/BERLIN'");
    assert_eq!(names(&db, "DE"), Some(vec!["Europe/Berlin".to_string()]));
}

#[test]
fn lookup_olson_mut_changes_the_record_in_place() {
    let mut db = TimezoneDb::new();
    db.add_timezone("Europe/Dublin", "IST-1GMT0").unwrap();
    db.add_country_timezone("IE", "Europe/Dublin").unwrap();
    db.lookup_olson_mut("EUROPE/DUBLIN").unwrap().posix = "X".to_string();
    assert_eq!(db.lookup_olson("EUROPE/DUBLIN").unwrap().posix, "X");
    assert_eq!(db.lookup_country("IE").unwrap()[0].posix, "X");
    assert!(db.lookup_olson_mut("EUROPE/PARIS").is_none());
}

#[test]
fn load_reads_both_tables() {
    let zones = lines(&["America/New_York EST5EDT", "America/Chicago CST6CDT", "Asia/Tokyo JST-9"]);
    let countries = lines(&[
        "# comment\tx\tAmerica/New_York",
        "US\t+404251-0740023\tAmerica/New_York\tEastern (most areas)",
        "US\t+415100-0873900\tAmerica/Chicago\tCentral (most areas)",
        "JP\t+353916+1394441\tAsia/Tokyo",
    ]);
    let db = TimezoneDb::load(&zones, &countries).ok().unwrap();
    assert_eq!(db.lookup_olson("ASIA/TOKYO").unwrap().posix, "JST-9");
    assert_eq!(
        names(&db, "US"),
        Some(vec!["America/New_York".to_string(), "America/Chicago".to_string()])
    );
    assert_eq!(names(&db, "JP"), Some(vec!["Asia/Tokyo".to_string()]));
    assert_eq!(names(&db, "#_COMMENT"), None);
}

#[test]
fn load_ties_every_country_of_a_line() {
    let zones = lines(&["Europe/Zurich CET-1CEST"]);
    let countries = lines(&["CH,DE,LI\t+4723+00832\tEurope/Zurich\tBüsingen"]);
    let db = TimezoneDb::load(&zones, &countries).ok().unwrap();
    for code in ["CH", "DE", "LI"] {
        assert_eq!(names(&db, code), Some(vec!["Europe/Zurich".to_string()]));
    }
}

#[test]
fn load_passes_over_lines_of_the_wrong_shape() {
    let zones = lines(&["", "OnlyOneWord", "Three words here", "  Asia/Tokyo \t JST-9  "]);
    let countries = lines(&["", "JP\tAsia/Tokyo", "JP Asia/Tokyo x", "JP\tx\tAsia/Tokyo"]);
    let db = TimezoneDb::load(&zones, &countries).ok().unwrap();
    assert!(db.lookup_olson("ONLYONEWORD").is_none());
    assert!(db.lookup_olson("THREE").is_none());
    assert_eq!(db.lookup_olson("ASIA/TOKYO").unwrap().olson, "Asia/Tokyo");
    assert_eq!(names(&db, "JP"), Some(vec!["Asia/Tokyo".to_string()]));
}

#[test]
fn load_of_nothing_is_an_empty_index() {
    let db = TimezoneDb::load(&Vec::new(), &Vec::new()).ok().unwrap();
    assert!(db.lookup_olson("EUROPE/BERLIN").is_none());
    assert!(db.lookup_country("UK").is_none());
    assert!(db.lookup_country("DE").is_none());
}

#[test]
fn load_fails_on_a_name_that_comes_twice() {
    let zones = lines(&["Europe/Berlin CET-1CEST", "Asia/Tokyo JST-9", "EUROPE/berlin CET"]);
    let err = TimezoneDb::load(&zones, &Vec::new()).err().unwrap();
    assert!(matches!(&err, LoadError::DuplicateTimezone { olson } if olson == "EUROPE/berlin"));
}

#[test]
fn load_fails_on_a_country_of_an_unknown_name() {
    let zones = lines(&["Europe/Berlin CET-1CEST"]);
    let countries = lines(&["DE\tx\tEurope/Berlin", "FR,MC\tx\tEurope/Paris"]);
    let err = TimezoneDb::load(&zones, &countries).err().unwrap();
    assert!(matches!(&err, LoadError::UnknownTimezone { country, olson }
        if country == "FR" && olson == "Europe/Paris"));
}

#[test]
fn load_fails_on_a_pair_that_comes_twice() {
    let zones = lines(&["Europe/Berlin CET-1CEST"]);
    let countries = lines(&["DE\tx\tEurope/Berlin", "AT,de\ty\tEurope/Berlin"]);
    let err = TimezoneDb::load(&zones, &countries).err().unwrap();
    assert!(matches!(&err, LoadError::DuplicateCountryTimezone { country, olson }
        if country == "de" && olson == "Europe/Berlin"));
}

#[test]
fn load_makes_uk_an_alias_of_gb() {
    let zones = lines(&["Europe/London GMT0BST", "Europe/Paris CET-1CEST"]);
    let countries = lines(&["GB,GG,IM,JE\tx\tEurope/London", "FR\tx\tEurope/Paris"]);
    let db = TimezoneDb::load(&zones, &countries).ok().unwrap();
    assert_eq!(names(&db, "GB"), Some(vec!["Europe/London".to_string()]));
    assert_eq!(names(&db, "UK"), names(&db, "GB"));
}

#[test]
fn load_without_gb_has_no_uk() {
    let zones = lines(&["Europe/Paris CET-1CEST"]);
    let countries = lines(&["FR\tx\tEurope/Paris"]);
    let db = TimezoneDb::load(&zones, &countries).ok().unwrap();
    assert_eq!(names(&db, "UK"), None);
}

#[test]
fn load_gives_de_berlin_alone() {
    let zones = lines(&["Europe/Zurich CET-1CEST", "Europe/Berlin CET-1CEST,M3.5.0,M10.5.0/3"]);
    let countries = lines(&["CH,DE,LI\tx\tEurope/Zurich", "DE,DK,NO,SE,SJ\tx\tEurope/Berlin"]);
    let db = TimezoneDb::load(&zones, &countries).ok().unwrap();
    assert_eq!(names(&db, "DE"), Some(vec!["Europe/Berlin".to_string()]));
    assert_eq!(
        names(&db, "CH"),
        Some(vec!["Europe/Zurich".to_string()])
    );
    assert_eq!(names(&db, "DK"), Some(vec!["Europe/Berlin".to_string()]));
}

#[test]
fn load_gives_de_berlin_where_the_table_has_no_de() {
    let zones = lines(&["Europe/Berlin CET-1CEST"]);
    let db = TimezoneDb::load(&zones, &Vec::new()).ok().unwrap();
    assert_eq!(names(&db, "DE"), Some(vec!["Europe/Berlin".to_string()]));
}

#[test]
fn load_without_berlin_keeps_de_as_the_table_has_it() {
    let zones = lines(&["Europe/Zurich CET-1CEST"]);
    let countries = lines(&["CH,DE,LI\tx\tEurope/Zurich"]);
    let db = TimezoneDb::load(&zones, &countries).ok().unwrap();
    assert_eq!(names(&db, "DE"), Some(vec!["Europe/Zurich".to_string()]));
}

#[test]
fn load_corrects_the_rule_of_dublin() {
    let zones = lines(&["Europe/Dublin IST-1GMT0,M10.5.0,M3.5.0/1", "Europe/London GMT0BST"]);
    let countries = lines(&["IE\tx\tEurope/Dublin"]);
    let db = TimezoneDb::load(&zones, &countries).ok().unwrap();
    let dublin = db.lookup_olson("EUROPE/DUBLIN").unwrap();
    assert_eq!(dublin.olson, "Europe/Dublin");
    assert_eq!(dublin.posix, "GMT0IST,M3.5.0/1,M10.5.0");
    assert_eq!(db.lookup_country("IE").unwrap()[0].posix, "GMT0IST,M3.5.0/1,M10.5.0");
    assert_eq!(db.lookup_olson("EUROPE/LONDON").unwrap().posix, "GMT0BST");
}

#[test]
fn overrides_can_be_applied_one_by_one() {
    let mut db = TimezoneDb::new();
    db.add_timezone("Europe/London", "GMT0BST").unwrap();
    db.add_timezone("Europe/Berlin", "CET-1CEST").unwrap();
    db.add_timezone("Europe/Zurich", "CET-1CEST").unwrap();
    db.add_timezone("Europe/Dublin", "WRONG").unwrap();
    db.add_country_timezone("GB", "Europe/London").unwrap();
    db.add_country_timezone("DE", "Europe/Zurich").unwrap();
    db.add_country_timezone("DE", "Europe/Berlin").unwrap();

    assert_eq!(names(&db, "UK"), None);
    db.alias_uk();
    assert_eq!(names(&db, "UK"), Some(vec!["Europe/London".to_string()]));
    assert_eq!(
        names(&db, "DE"),
        Some(vec!["Europe/Zurich".to_string(), "Europe/Berlin".to_string()])
    );
    db.pin_germany();
    assert_eq!(names(&db, "DE"), Some(vec!["Europe/Berlin".to_string()]));
    assert_eq!(db.lookup_olson("EUROPE/DUBLIN").unwrap().posix, "WRONG");
    db.correct_dublin();
    assert_eq!(db.lookup_olson("EUROPE/DUBLIN").unwrap().posix, "GMT0IST,M3.5.0/1,M10.5.0");
}

#[test]
fn overrides_leave_an_index_without_their_names_alone() {
    let mut db = TimezoneDb::new();
    db.add_timezone("Asia/Tokyo", "JST-9").unwrap();
    db.add_country_timezone("JP", "Asia/Tokyo").unwrap();
    db.alias_uk();
    db.pin_germany();
    db.correct_dublin();
    assert_eq!(names(&db, "UK"), None);
    assert_eq!(names(&db, "DE"), None);
    assert_eq!(names(&db, "JP"), Some(vec!["Asia/Tokyo".to_string()]));
    assert_eq!(db.lookup_olson("ASIA/TOKYO").unwrap().posix, "JST-9");
}

#[test]
fn zone_fields_wants_exactly_two_words() {
    assert_eq!(
        zone_fields("Europe/Berlin CET-1CEST,M3.5.0,M10.5.0/3"),
        Some(("Europe/Berlin".to_string(), "CET-1CEST,M3.5.0,M10.5.0/3".to_string()))
    );
    assert_eq!(
        zone_fields("\t Asia/Tokyo \t JST-9 \r"),
        Some(("Asia/Tokyo".to_string(), "JST-9".to_string()))
    );
    assert_eq!(zone_fields(""), None);
    assert_eq!(zone_fields("   "), None);
    assert_eq!(zone_fields("Asia/Tokyo"), None);
    assert_eq!(zone_fields("Asia/Tokyo JST-9 extra"), None);
}

#[test]
fn country_fields_wants_three_fields_and_no_comment() {
    assert_eq!(
        country_fields("AD,ES\t+4230+00131\tEurope/Andorra\tnote\tmore"),
        Some((vec!["AD".to_string(), "ES".to_string()], "Europe/Andorra".to_string()))
    );
    assert_eq!(
        country_fields("JP\t\tAsia/Tokyo"),
        Some((vec!["JP".to_string()], "Asia/Tokyo".to_string()))
    );
    assert_eq!(
        country_fields("\t\t"),
        Some((vec!["".to_string()], "".to_string()))
    );
    assert_eq!(country_fields("#JP\tx\tAsia/Tokyo"), None);
    assert_eq!(country_fields("JP\tAsia/Tokyo"), None);
    assert_eq!(country_fields("JP x Asia/Tokyo"), None);
    assert_eq!(country_fields(""), None);
}

#[test]
fn load_fails_on_a_country_code_that_is_empty_and_comes_twice() {
    let zones = lines(&["Asia/Tokyo JST-9"]);
    let countries = lines(&["JP,,\tx\tAsia/Tokyo"]);
    let err = TimezoneDb::load(&zones, &countries).err().unwrap();
    assert!(matches!(&err, LoadError::DuplicateCountryTimezone { country, olson }
        if country.is_empty() && olson == "Asia/Tokyo"));
}

#[test]
fn names_are_filed_under_their_uppercase_beyond_ascii() {
    let mut db = TimezoneDb::new();
    db.add_timezone("Europe/Z\u{fc}rich", "CET-1CEST").unwrap();
    assert_eq!(db.lookup_olson("EUROPE/Z\u{dc}RICH").unwrap().olson, "Europe/Z\u{fc}rich");
    assert!(db.lookup_olson("EUROPE/Z\u{fc}RICH").is_none());
    let err = db.add_timezone("EUROPE/Z\u{dc}RICH", "X").unwrap_err();
    assert!(matches!(&err, LoadError::DuplicateTimezone { olson } if olson == "EUROPE/Z\u{dc}RICH"));
}

#[test]
fn names_that_differ_only_in_how_a_letter_is_raised_are_one_name() {
    let zones = lines(&["Stra\u{df}e A", "STRASSE B"]);
    let err = TimezoneDb::load(&zones, &Vec::new()).err().unwrap();
    assert!(matches!(&err, LoadError::DuplicateTimezone { olson } if olson == "STRASSE"));
}

#[test]
fn load_zones_reads_the_records_and_no_country() {
    let zones = lines(&["Europe/Berlin CET-1CEST", "broken", "Europe/Dublin IST-1GMT0"]);
    let db = TimezoneDb::load_zones(&zones).ok().unwrap();
    assert_eq!(db.lookup_olson("EUROPE/BERLIN").unwrap().posix, "CET-1CEST");
    assert_eq!(db.lookup_olson("EUROPE/DUBLIN").unwrap().posix, "IST-1GMT0");
    assert!(db.lookup_country("DE").is_none());
}

#[test]
fn load_zones_fails_on_a_name_that_comes_twice() {
    let zones = lines(&["Asia/Tokyo JST-9", " asia/tokyo\tX "]);
    let err = TimezoneDb::load_zones(&zones).err().unwrap();
    assert!(matches!(&err, LoadError::DuplicateTimezone { olson } if olson == "asia/tokyo"));
}

#[test]
fn load_countries_ties_and_corrects() {
    let zones = lines(&["Europe/Berlin CET-1CEST", "Europe/London GMT0BST", "Europe/Dublin IST-1GMT0"]);
    let countries = lines(&["# comment", "GB,GG\tx\tEurope/London", "IE\tx\tEurope/Dublin"]);
    let db = TimezoneDb::load_zones(&zones).ok().unwrap().load_countries(&countries).ok().unwrap();
    assert_eq!(names(&db, "GB"), Some(vec!["Europe/London".to_string()]));
    assert_eq!(names(&db, "UK"), Some(vec!["Europe/London".to_string()]));
    assert_eq!(names(&db, "GG"), Some(vec!["Europe/London".to_string()]));
    assert_eq!(names(&db, "DE"), Some(vec!["Europe/Berlin".to_string()]));
    assert_eq!(db.lookup_olson("EUROPE/DUBLIN").unwrap().posix, "GMT0IST,M3.5.0/1,M10.5.0");
}

#[test]
fn load_countries_fails_on_an_unknown_name() {
    let zones = lines(&["Europe/Berlin CET-1CEST"]);
    let db = TimezoneDb::load_zones(&zones).ok().unwrap();
    let err = db.load_countries(&lines(&["FR\tx\tEurope/Paris"])).err().unwrap();
    assert!(matches!(&err, LoadError::UnknownTimezone { country, olson }
        if country == "FR" && olson == "Europe/Paris"));
}

#[test]
fn load_is_load_zones_then_load_countries() {
    let zones = lines(&["America/New_York EST5EDT", "America/Chicago CST6CDT"]);
    let countries = lines(&["US\tx\tAmerica/New_York", "US\tx\tAmerica/Chicago"]);
    let whole = TimezoneDb::load(&zones, &countries).ok().unwrap();
    let staged = TimezoneDb::load_zones(&zones).ok().unwrap().load_countries(&countries).ok().unwrap();
    assert_eq!(names(&whole, "US"), names(&staged, "US"));
    assert_eq!(names(&whole, "US").unwrap().len(), 2);
}

#[test]
fn fault_of_the_timezone_table_comes_before_one_of_the_country_table() {
    let zones = lines(&["Asia/Tokyo JST-9", "Asia/Tokyo JST-9"]);
    let countries = lines(&["FR\tx\tEurope/Paris"]);
    let err = TimezoneDb::load(&zones, &countries).err().unwrap();
    assert!(matches!(&err, LoadError::DuplicateTimezone { .. }));
}
