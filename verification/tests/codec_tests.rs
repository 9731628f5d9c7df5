use qrz_logbook_api::adif::{parse_date, parse_time, AdifParser};
use qrz_logbook_api::adif_laws::{plain, reads_back};
use qrz_logbook_api::{Date, FieldTable, Frequency, QrzLogbookError, QsoRecord, Time};

const SAMPLE: &str = "<call:4>W1AW<station_callsign:5>K1ABC<qso_date:8>20240115<time_on:4>1430<band:3>20m<mode:3>SSB<eor>";

fn parse_error(text: &str) -> String {
    match AdifParser::parse_adif(text) {
        Err(QrzLogbookError::AdifParse(msg)) => msg,
        Err(other) => panic!("another error: {:?}", other),
        Ok(records) => panic!("read {} records", records.len()),
    }
}

fn sample_record() -> QsoRecord {
    QsoRecord::builder()
        .call("W1AW")
        .station_callsign("K1ABC")
        .date(Date::from_ymd_opt(2024, 1, 15).unwrap())
        .time_on(Time::from_hms_opt(14, 30, 0).unwrap())
        .band("20m")
        .mode("SSB")
        .build()
}

#[test]
fn concrete_example_decodes_field_by_field() {
    let qsos = AdifParser::parse_adif(SAMPLE).unwrap();
    assert_eq!(qsos.len(), 1);
    let qso = &qsos[0];
    assert_eq!(qso.call, "W1AW");
    assert_eq!(qso.station_callsign, "K1ABC");
    assert_eq!((qso.qso_date.year(), qso.qso_date.month(), qso.qso_date.day()), (2024, 1, 15));
    assert_eq!((qso.time_on.hour(), qso.time_on.minute(), qso.time_on.second()), (14, 30, 0));
    assert_eq!(qso.band, "20m");
    assert_eq!(qso.mode, "SSB");
    assert!(qso.time_off.is_none());
    assert!(qso.freq.is_none());
    assert!(qso.rst_sent.is_none());
    assert!(qso.rst_rcvd.is_none());
    assert!(qso.qth.is_none());
    assert!(qso.name.is_none());
    assert!(qso.comment.is_none());
    assert!(qso.additional_fields.is_empty());
}

#[test]
fn encoding_is_exact_and_in_fixed_order() {
    let qso = QsoRecord::builder()
        .comment("hi <there>")
        .name("Ann")
        .qth("Oslo")
        .rst_rcvd("57")
        .rst_sent("59")
        .freq(Frequency::parse("7.1").unwrap())
        .time_off(Time::from_hms_opt(9, 5, 59).unwrap())
        .mode("CW")
        .band("40m")
        .time_on(Time::from_hms_opt(9, 0, 7).unwrap())
        .date(Date::from_ymd_opt(987, 3, 4).unwrap())
        .station_callsign("K1ABC")
        .call("LA1X")
        .additional_field("GridSquare", "JO59")
        .additional_field("x", "")
        .build();
    assert_eq!(
        AdifParser::to_adif(&qso),
        "<call:4>LA1X<station_callsign:5>K1ABC<qso_date:8>09870304<time_on:4>0900<band:3>40m\
         <mode:2>CW<time_off:4>0905<freq:3>7.1<rst_sent:2>59<rst_rcvd:2>57<qth:4>Oslo\
         <name:3>Ann<comment:10>hi <there><gridsquare:4>JO59<x:0><eor>"
    );
}

#[test]
fn builder_defaults_encode() {
    let qso = QsoRecord::builder().build();
    assert_eq!(qso.qso_date, Date::from_ymd_opt(1900, 1, 1).unwrap());
    assert_eq!(qso.time_on, Time::from_hms_opt(0, 0, 0).unwrap());
    assert_eq!(
        AdifParser::to_adif(&qso),
        "<call:0><station_callsign:0><qso_date:8>19000101<time_on:4>0000<band:0><mode:0><eor>"
    );
}

#[test]
fn length_counts_characters() {
    let qso = QsoRecord::builder()
        .call("ÆØÅ")
        .station_callsign("K1ABC")
        .date(Date::from_ymd_opt(2024, 1, 15).unwrap())
        .time_on(Time::from_hms_opt(14, 30, 0).unwrap())
        .band("20m")
        .mode("SSB")
        .build();
    let adif = AdifParser::to_adif(&qso);
    assert!(adif.starts_with("<call:3>ÆØÅ<station_callsign:5>"));
    let back = AdifParser::parse_adif(&adif).unwrap();
    assert_eq!(back[0].call, "ÆØÅ");
}

#[test]
fn round_trip_keeps_every_field() {
    let qso = QsoRecord::builder()
        .call("W1AW")
        .station_callsign("K1ABC")
        .date(Date::from_ymd_opt(2024, 2, 29).unwrap())
        .time_on(Time::from_hms_opt(23, 59, 0).unwrap())
        .time_off(Time::from_hms_opt(0, 1, 0).unwrap())
        .band("20m")
        .mode("SSB")
        .freq(Frequency::parse("14.205").unwrap())
        .rst_sent("59")
        .rst_rcvd("57")
        .qth("Newington, CT")
        .name("Hiram")
        .comment("a <b:3>c & d > e")
        .additional_field("gridsquare", "FN31pr")
        .additional_field("tx_pwr", "100")
        .build();
    let text = AdifParser::to_adif(&qso);
    let back = AdifParser::parse_adif(&text).unwrap();
    assert_eq!(back.len(), 1);
    let got = &back[0];
    assert_eq!(got.call, qso.call);
    assert_eq!(got.station_callsign, qso.station_callsign);
    assert_eq!(got.qso_date, qso.qso_date);
    assert_eq!(got.time_on, qso.time_on);
    assert_eq!(got.time_off, qso.time_off);
    assert_eq!(got.band, qso.band);
    assert_eq!(got.mode, qso.mode);
    assert_eq!(got.freq.as_ref().map(|f| f.as_str()), Some("14.205"));
    assert_eq!(got.rst_sent, qso.rst_sent);
    assert_eq!(got.rst_rcvd, qso.rst_rcvd);
    assert_eq!(got.qth, qso.qth);
    assert_eq!(got.name, qso.name);
    assert_eq!(got.comment, qso.comment);
    assert_eq!(got.additional_fields.len(), 2);
    assert_eq!(got.additional_fields.name_at(0), "gridsquare");
    assert_eq!(got.additional_fields.value_at(0), "FN31pr");
    assert_eq!(got.additional_fields.name_at(1), "tx_pwr");
    assert_eq!(got.additional_fields.value_at(1), "100");
    assert_eq!(AdifParser::to_adif(got), text);
}

#[test]
fn seconds_are_not_written() {
    let mut qso = sample_record();
    qso.time_on = Time::from_hms_opt(14, 30, 45).unwrap();
    let text = AdifParser::to_adif(&qso);
    assert!(text.contains("<time_on:4>1430<"));
    let back = AdifParser::parse_adif(&text).unwrap();
    assert_eq!(back[0].time_on, Time::from_hms_opt(14, 30, 0).unwrap());
}

#[test]
fn a_marker_inside_a_value_cuts_the_record() {
    let mut qso = sample_record();
    qso.comment = Some("before<EOR>after".to_string());
    let text = AdifParser::to_adif(&qso);
    assert_eq!(parse_error(&text), "Field value extends beyond record");
}

#[test]
fn white_space_at_the_end_of_the_last_value_is_lost() {
    let mut qso = sample_record();
    qso.comment = Some("ends in a blank ".to_string());
    let text = AdifParser::to_adif(&qso);
    assert_eq!(parse_error(&text), "Field value extends beyond record");
}

#[test]
fn many_records_with_white_space_between() {
    let one = AdifParser::to_adif(&sample_record());
    let mut other = sample_record();
    other.call = "VE3XYZ".to_string();
    let two = AdifParser::to_adif(&other);
    let text = format!(" \n\t{}\r\n\r\n{}\u{3000}\n{}   ", one, two, one);
    let qsos = AdifParser::parse_adif(&text).unwrap();
    assert_eq!(qsos.len(), 3);
    assert_eq!(qsos[0].call, "W1AW");
    assert_eq!(qsos[1].call, "VE3XYZ");
    assert_eq!(qsos[2].call, "W1AW");
}

#[test]
fn nothing_but_white_space_holds_no_record() {
    assert_eq!(AdifParser::parse_adif("").unwrap().len(), 0);
    assert_eq!(AdifParser::parse_adif(" \n ").unwrap().len(), 0);
    assert_eq!(AdifParser::parse_adif("<eor>\n<eor>  <EOR>").unwrap().len(), 0);
}

#[test]
fn the_marker_is_found_in_any_case() {
    let text = SAMPLE.replace("<eor>", "<EoR>").repeat(2);
    let qsos = AdifParser::parse_adif(&text).unwrap();
    assert_eq!(qsos.len(), 2);
}

#[test]
fn text_after_the_last_marker_is_a_record_too() {
    let text = format!("{}<call:4>W1AW", SAMPLE);
    assert_eq!(parse_error(&text), "Missing station_callsign field");
}

#[test]
fn tag_names_are_read_in_any_case() {
    let text = SAMPLE.replace("call:4", "CALL:4").replace("band", "Band");
    let qsos = AdifParser::parse_adif(&text).unwrap();
    assert_eq!(qsos[0].call, "W1AW");
    assert_eq!(qsos[0].band, "20m");
}

#[test]
fn names_outside_ascii_are_lowercased_too() {
    let text = SAMPLE.replace("<eor>", "<ÄÖ:2>üx<eor>");
    let qsos = AdifParser::parse_adif(&text).unwrap();
    assert_eq!(qsos[0].additional_fields.get("äö"), Some(&"üx".to_string()));
    assert_eq!(qsos[0].additional_fields.get("ÄÖ"), None);
}

#[test]
fn later_duplicate_wins() {
    let text = SAMPLE.replace("<eor>", "<call:5>N0CAL<x:1>a<X:1>b<eor>");
    let qsos = AdifParser::parse_adif(&text).unwrap();
    assert_eq!(qsos[0].call, "N0CAL");
    assert_eq!(qsos[0].additional_fields.len(), 1);
    assert_eq!(qsos[0].additional_fields.get("x"), Some(&"b".to_string()));
}

#[test]
fn fields_in_any_order_and_junk_between() {
    let text = "junk <mode:3>SSB\n<band:3>20m text<time_on:6>143059 <qso_date:8>20240115\
                <station_callsign:5>K1ABC<eoh><call:4>W1AW<eor>";
    let qsos = AdifParser::parse_adif(text).unwrap();
    assert_eq!(qsos[0].call, "W1AW");
    assert_eq!(qsos[0].time_on, Time::from_hms_opt(14, 30, 59).unwrap());
    assert!(qsos[0].additional_fields.is_empty());
}

#[test]
fn values_may_hold_tags() {
    let text = SAMPLE.replace("<eor>", "<comment:12><call:2>XX<><eor>");
    let qsos = AdifParser::parse_adif(&text).unwrap();
    assert_eq!(qsos[0].call, "W1AW");
    assert_eq!(qsos[0].comment, Some("<call:2>XX<>".to_string()));
}

#[test]
fn an_unfinished_tag_ends_the_reading() {
    let text = SAMPLE.replace("<eor>", "<comment:3>abc<name<eor>");
    let qsos = AdifParser::parse_adif(&text).unwrap();
    assert_eq!(qsos[0].comment, Some("abc".to_string()));
    assert!(qsos[0].name.is_none());
    let text = SAMPLE.replace("<eor>", "<name:12<eor>");
    assert!(AdifParser::parse_adif(&text).unwrap()[0].name.is_none());
}

#[test]
fn wrong_length_is_an_error() {
    let too_long = SAMPLE.replace("<mode:3>", "<mode:9>");
    assert_eq!(parse_error(&too_long), "Field value extends beyond record");
    let huge = SAMPLE.replace("<mode:3>", "<mode:99999999999999999999999999>");
    assert_eq!(parse_error(&huge), "Field value extends beyond record");
    let not_a_number = SAMPLE.replace("<mode:3>", "<mode:3x>");
    assert_eq!(parse_error(&not_a_number), "Invalid length: 3x");
    let empty = SAMPLE.replace("<mode:3>", "<mode:>");
    assert_eq!(parse_error(&empty), "Invalid length: ");
    let signed = SAMPLE.replace("<mode:3>", "<mode:+3>");
    assert_eq!(parse_error(&signed), "Invalid length: +3");
    let swallowing = SAMPLE.replace("<call:4>", "<call:6>");
    assert_eq!(parse_error(&swallowing), "Missing station_callsign field");
}

#[test]
fn each_missing_field_has_its_error() {
    let fields = [
        ("<call:4>W1AW", "Missing call field"),
        ("<station_callsign:5>K1ABC", "Missing station_callsign field"),
        ("<qso_date:8>20240115", "Missing qso_date field"),
        ("<time_on:4>1430", "Missing time_on field"),
        ("<band:3>20m", "Missing band field"),
        ("<mode:3>SSB", "Missing mode field"),
    ];
    for (field, message) in fields {
        assert_eq!(parse_error(&SAMPLE.replace(field, "")), message);
    }
    assert_eq!(parse_error("x<eor>"), "Missing call field");
}

#[test]
fn times_of_four_and_six_characters() {
    let short = parse_time("1430").unwrap();
    let long = parse_time("143000").unwrap();
    assert_eq!(short, long);
    assert_eq!(short, Time::from_hms_opt(14, 30, 0).unwrap());
    assert_eq!(parse_time("235959").unwrap(), Time::from_hms_opt(23, 59, 59).unwrap());
    assert_eq!(parse_time("0000").unwrap(), Time::from_hms_opt(0, 0, 0).unwrap());
}

fn time_error(text: &str) -> String {
    match parse_time(text) {
        Err(QrzLogbookError::AdifParse(msg)) => msg,
        other => panic!("{:?}", other),
    }
}

#[test]
fn bad_times() {
    assert_eq!(time_error("2561"), "Invalid time");
    assert_eq!(time_error("2400"), "Invalid time");
    assert_eq!(time_error("235960"), "Invalid time");
    assert_eq!(time_error("143"), "Time must be 4 or 6 characters (HHMM or HHMMSS)");
    assert_eq!(time_error("14300"), "Time must be 4 or 6 characters (HHMM or HHMMSS)");
    assert_eq!(time_error(""), "Time must be 4 or 6 characters (HHMM or HHMMSS)");
    assert_eq!(time_error("1x30"), "Invalid hour in time");
    assert_eq!(time_error("14-3"), "Invalid minute in time");
    assert_eq!(time_error("1430+1"), "Invalid second in time");
    let text = SAMPLE.replace("<eor>", "<time_off:4>9999<eor>");
    assert_eq!(parse_error(&text), "Invalid time");
}

fn date_error(text: &str) -> String {
    match parse_date(text) {
        Err(QrzLogbookError::AdifParse(msg)) => msg,
        other => panic!("{:?}", other),
    }
}

#[test]
fn dates() {
    let date = parse_date("20240115").unwrap();
    assert_eq!((date.year(), date.month(), date.day()), (2024, 1, 15));
    assert_eq!(parse_date("20240229").unwrap(), Date::from_ymd_opt(2024, 2, 29).unwrap());
    assert_eq!(parse_date("00000101").unwrap(), Date::from_ymd_opt(0, 1, 1).unwrap());
    assert_eq!(parse_date("99991231").unwrap(), Date::from_ymd_opt(9999, 12, 31).unwrap());
    assert_eq!(date_error("20241301"), "Invalid date");
    assert_eq!(date_error("20240230"), "Invalid date");
    assert_eq!(date_error("20230229"), "Invalid date");
    assert_eq!(date_error("19000229"), "Invalid date");
    assert_eq!(date_error("20240100"), "Invalid date");
    assert_eq!(date_error("20240001"), "Invalid date");
    assert_eq!(date_error("2024011"), "Date must be 8 characters (YYYYMMDD)");
    assert_eq!(date_error("202401150"), "Date must be 8 characters (YYYYMMDD)");
    assert_eq!(date_error("-0240115"), "Invalid year in date");
    assert_eq!(date_error("2024+115"), "Invalid month in date");
    assert_eq!(date_error("202401 5"), "Invalid day in date");
}

#[test]
fn calendar_values() {
    assert!(Date::from_ymd_opt(2000, 2, 29).is_some());
    assert!(Date::from_ymd_opt(2100, 2, 29).is_none());
    assert!(Date::from_ymd_opt(2024, 4, 31).is_none());
    assert!(Date::from_ymd_opt(2024, 0, 1).is_none());
    assert!(Date::from_ymd_opt(-1, 1, 1).is_none());
    assert!(Date::from_ymd_opt(10000, 1, 1).is_none());
    assert_eq!(Date::from_ymd_opt(7, 8, 9).unwrap().compact(), "00070809");
    assert_eq!(Date::from_ymd_opt(2024, 12, 31).unwrap().compact(), "20241231");
    assert!(Time::from_hms_opt(24, 0, 0).is_none());
    assert!(Time::from_hms_opt(0, 60, 0).is_none());
    assert!(Time::from_hms_opt(0, 0, 60).is_none());
    assert_eq!(Time::from_hms_opt(7, 5, 59).unwrap().compact(), "0705");
    assert_eq!(Time::from_hms_opt(23, 59, 0).unwrap().compact(), "2359");
}

#[test]
fn frequencies() {
    for good in [
        "14.205", "7", "7.", ".5", "-3.14", "+1", "2.5E10", "2.5e-10", "1e+5", "inf", "-INF",
        "Infinity", "NaN", "+nan", "007", "0.0",
    ] {
        assert!(Frequency::parse(good).is_some(), "{}", good);
        assert!(good.parse::<f64>().is_ok(), "{}", good);
        assert_eq!(Frequency::parse(good).unwrap().as_str(), good);
    }
    for bad in
        ["", ".", "+", "-", "e5", "1e", "1e+", "1.2.3", " 1", "1 ", "14,2", "abc", "in", "1f", "--1", "1e5.0", "infinit"]
    {
        assert!(Frequency::parse(bad).is_none(), "{}", bad);
        assert!(bad.parse::<f64>().is_err(), "{}", bad);
    }
    let text = SAMPLE.replace("<eor>", "<freq:3>abc<eor>");
    assert_eq!(parse_error(&text), "Invalid frequency format");
    let text = SAMPLE.replace("<eor>", "<freq:5>7.100<eor>");
    let qsos = AdifParser::parse_adif(&text).unwrap();
    assert_eq!(qsos[0].freq.as_ref().unwrap().as_str(), "7.100");
}

#[test]
fn field_tables() {
    let mut table = FieldTable::new();
    assert!(table.is_empty());
    assert_eq!(table.insert("a".to_string(), "1".to_string()), None);
    assert_eq!(table.insert("b".to_string(), "2".to_string()), None);
    assert_eq!(table.insert("a".to_string(), "3".to_string()), Some("1".to_string()));
    assert_eq!(table.len(), 2);
    assert_eq!(table.name_at(0), "a");
    assert_eq!(table.value_at(0), "3");
    assert!(table.contains_key("b"));
    assert!(!table.contains_key("c"));
    let copy = table.clone();
    assert_eq!(table.remove("a"), Some("3".to_string()));
    assert_eq!(table.remove("a"), None);
    assert_eq!(table.len(), 1);
    assert_eq!(table.get("b"), Some(&"2".to_string()));
    assert_eq!(copy.len(), 2);
    assert_eq!(copy.get("a"), Some(&"3".to_string()));
}

#[test]
fn single_records_and_tables() {
    let record = SAMPLE.trim_end_matches("<eor>");
    let qso = AdifParser::parse_single_record(record).unwrap();
    assert_eq!(qso.call, "W1AW");
    let mut table = FieldTable::new();
    for (name, value) in [
        ("call", "W1AW"),
        ("station_callsign", "K1ABC"),
        ("band", "20m"),
        ("mode", "SSB"),
        ("qso_date", "20240115"),
        ("time_on", "1430"),
        ("name", "Ann"),
        ("my_gridsquare", "FN31"),
    ] {
        table.insert(name.to_string(), value.to_string());
    }
    let qso = AdifParser::fields_to_qso(table).unwrap();
    assert_eq!(qso.name, Some("Ann".to_string()));
    assert_eq!(qso.additional_fields.len(), 1);
    assert_eq!(qso.additional_fields.get("my_gridsquare"), Some(&"FN31".to_string()));
    assert!(matches!(
        AdifParser::fields_to_qso(FieldTable::new()),
        Err(QrzLogbookError::AdifParse(_))
    ));
}

#[test]
fn error_messages() {
    assert_eq!(QrzLogbookError::api_error("no").message(), "API error: no");
    assert_eq!(QrzLogbookError::adif_parse("bad").message(), "ADIF parsing error: bad");
    assert_eq!(QrzLogbookError::invalid_params("none").message(), "Invalid parameters: none");
    assert_eq!(
        QrzLogbookError::Auth.message(),
        "Authentication failed or insufficient privileges"
    );
    assert_eq!(QrzLogbookError::InvalidKey.message(), "Invalid API key format");
    assert_eq!(
        QrzLogbookError::InvalidUserAgent.message(),
        "Invalid user agent: must be 128 characters or less and identifiable"
    );
}

#[test]
fn which_records_read_back() {
    assert!(plain("gridsquare"));
    assert!(plain("my_gridsquare"));
    assert!(plain(""));
    assert!(plain("a<b"));
    assert!(plain("äö"));
    assert!(!plain("Gridsquare"));
    assert!(!plain("ÄÖ"));
    assert!(!plain("a:b"));
    assert!(!plain("a>b"));
    assert!(!plain("call"));
    assert!(!plain("comment"));

    let good = sample_record();
    assert!(reads_back(&good));

    let mut with_fields = QsoRecord::builder()
        .call("W1AW")
        .station_callsign("K1ABC")
        .date(Date::from_ymd_opt(2024, 1, 15).unwrap())
        .time_on(Time::from_hms_opt(14, 30, 0).unwrap())
        .band("20m")
        .mode("")
        .additional_field("x", "a b")
        .build();
    assert!(reads_back(&with_fields));
    with_fields.comment = Some("ends in <EOR".to_string());
    assert!(reads_back(&with_fields));
    with_fields.comment = Some("holds <EOR> inside".to_string());
    assert!(!reads_back(&with_fields));
    with_fields.comment = Some("ends in <EOR".to_string());

    let mut bad = sample_record();
    bad.time_on = Time::from_hms_opt(14, 30, 1).unwrap();
    assert!(!reads_back(&bad));
    let mut bad = sample_record();
    bad.time_off = Some(Time::from_hms_opt(14, 30, 1).unwrap());
    assert!(!reads_back(&bad));
    let mut bad = sample_record();
    bad.mode = "SSB\n".to_string();
    assert!(!reads_back(&bad));
    bad.comment = Some("".to_string());
    assert!(reads_back(&bad));
    let bad = QsoRecord::builder().additional_field("Name", "x").build();
    assert!(!reads_back(&bad));

    for qso in [good, with_fields] {
        let back = AdifParser::parse_adif(&AdifParser::to_adif(&qso)).unwrap();
        assert_eq!(back.len(), 1);
        assert_eq!(AdifParser::to_adif(&back[0]), AdifParser::to_adif(&qso));
    }
}

fn days_in(year: i32, month: u32) -> u32 {
    match month {
        2 => {
            if year % 4 == 0 && (year % 100 != 0 || year % 400 == 0) {
                29
            } else {
                28
            }
        }
        4 | 6 | 9 | 11 => 30,
        _ => 31,
    }
}

#[test]
fn every_day_of_every_year() {
    for year in 0..=9999 {
        for month in 0..=13 {
            for day in [0, 1, 27, 28, 29, 30, 31, 32] {
                let exists = (1..=12).contains(&month) && day >= 1 && day <= days_in(year, month);
                match Date::from_ymd_opt(year, month, day) {
                    Some(date) => {
                        assert!(exists, "{}-{}-{}", year, month, day);
                        assert_eq!((date.year(), date.month(), date.day()), (year, month, day));
                    }
                    None => assert!(!exists, "{}-{}-{}", year, month, day),
                }
            }
        }
        let last = Date::from_ymd_opt(year, 12, 31).unwrap();
        assert_eq!(last.compact(), format!("{:04}1231", year));
        assert_eq!(parse_date(&last.compact()).unwrap(), last);
    }
    assert!(Date::from_ymd_opt(0, 2, 29).is_some());
    assert!(Date::from_ymd_opt(100, 2, 29).is_none());
    assert!(Date::from_ymd_opt(400, 2, 29).is_some());
    assert!(Date::from_ymd_opt(i32::MIN, 1, 1).is_none());
    assert!(Date::from_ymd_opt(i32::MAX, 1, 1).is_none());
    assert!(Date::from_ymd_opt(2024, u32::MAX, 1).is_none());
    assert!(Date::from_ymd_opt(2024, 1, u32::MAX).is_none());
}

#[test]
fn every_time_of_day() {
    for hour in 0..=25 {
        for minute in 0..=61 {
            for second in [0, 1, 30, 59, 60, 61] {
                let shown = hour < 24 && minute < 60 && second < 60;
                match Time::from_hms_opt(hour, minute, second) {
                    Some(time) => {
                        assert!(shown);
                        assert_eq!((time.hour(), time.minute(), time.second()), (hour, minute, second));
                        assert_eq!(time.compact(), format!("{:02}{:02}", hour, minute));
                        let written = format!("{:02}{:02}{:02}", hour, minute, second);
                        assert_eq!(parse_time(&written).unwrap(), time);
                    }
                    None => assert!(!shown),
                }
            }
        }
    }
    assert!(Time::from_hms_opt(u32::MAX, 0, 0).is_none());
    assert!(Time::from_hms_opt(0, u32::MAX, u32::MAX).is_none());
}
