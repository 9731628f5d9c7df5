use qrz_logbook_api::adif::AdifParser;
use qrz_logbook_api::{Date, Frequency, QrzLogbookClient, QrzLogbookError, QsoRecord, Time};

#[test]
fn test_to_adif() {
    let qso = QsoRecord::builder()
        .call("W1AW")
        .station_callsign("K1ABC")
        .date(Date::from_ymd_opt(2024, 1, 15).unwrap())
        .time_on(Time::from_hms_opt(14, 30, 0).unwrap())
        .band("20m")
        .mode("SSB")
        .freq(Frequency::parse(&format!("{}", 14.200)).unwrap())
        .rst_sent("59")
        .rst_rcvd("59")
        .build();

    let adif = AdifParser::to_adif(&qso);
    assert!(adif.contains("<call:4>W1AW"));
    assert!(adif.contains("<station_callsign:5>K1ABC"));
    assert!(adif.contains("<qso_date:8>20240115"));
    assert!(adif.contains("<time_on:4>1430"));
    assert!(adif.contains("<eor>"));
}

#[test]
fn test_parse_adif() {
    let adif = "<call:4>W1AW<station_callsign:5>K1ABC<qso_date:8>20240115<time_on:4>1430<band:3>20m<mode:3>SSB<eor>";
    let qsos = AdifParser::parse_adif(adif).unwrap();

    assert_eq!(qsos.len(), 1);
    let qso = &qsos[0];
    assert_eq!(qso.call, "W1AW");
    assert_eq!(qso.station_callsign, "K1ABC");
    assert_eq!(qso.band, "20m");
    assert_eq!(qso.mode, "SSB");
}

#[test]
fn test_client_creation() {
    let client = QrzLogbookClient::new("test-api-key-12345", "TestApp/1.0.0 (N0CALL)");
    assert!(client.is_ok());
}

#[test]
fn test_invalid_api_key() {
    let client = QrzLogbookClient::new("", "TestApp/1.0.0 (N0CALL)");
    assert!(matches!(client, Err(QrzLogbookError::InvalidKey)));
}

#[test]
fn test_invalid_user_agent() {
    let client = QrzLogbookClient::new("test-api-key-12345", "python-requests");
    assert!(matches!(client, Err(QrzLogbookError::InvalidUserAgent)));
}

#[test]
fn test_parse_response_params() {
    let client = QrzLogbookClient::new("test-api-key-12345", "TestApp/1.0.0 (N0CALL)").unwrap();
    let response = "RESULT=OK&LOGID=12345&COUNT=1";
    let params = client.parse_response_params(response).unwrap();

    assert_eq!(params.get("RESULT"), Some(&"OK".to_string()));
    assert_eq!(params.get("LOGID"), Some(&"12345".to_string()));
    assert_eq!(params.get("COUNT"), Some(&"1".to_string()));
}
