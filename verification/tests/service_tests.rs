use qrz_logbook_api::client::{absorb_page, join_numbers, page_options, PageStep};
use qrz_logbook_api::{
    Date, FetchOptions, FetchResponse, QrzLogbookClient, QrzLogbookError, QsoRecord, Time,
};

fn client() -> QrzLogbookClient {
    QrzLogbookClient::new("test-api-key-12345", "TestSuite/1.0.0 (N0CALL)").unwrap()
}

fn record(call: &str) -> QsoRecord {
    QsoRecord::builder()
        .call(call)
        .station_callsign("K1ABC")
        .date(Date::from_ymd_opt(2024, 1, 15).unwrap())
        .time_on(Time::from_hms_opt(14, 30, 0).unwrap())
        .band("20m")
        .mode("SSB")
        .build()
}

fn pair(name: &str, value: &str) -> (String, String) {
    (name.to_string(), value.to_string())
}

fn api_reason<T: std::fmt::Debug>(result: Result<T, QrzLogbookError>) -> String {
    match result {
        Err(QrzLogbookError::Api { reason }) => reason,
        other => panic!("{:?}", other),
    }
}

#[test]
fn credentials() {
    assert!(matches!(QrzLogbookClient::new("123456789", "a"), Err(QrzLogbookError::InvalidKey)));
    assert!(QrzLogbookClient::new("1234567890", "a").is_ok());
    assert!(matches!(
        QrzLogbookClient::new("ÆÆÆÆ", "a"),
        Err(QrzLogbookError::InvalidKey)
    ));
    assert!(QrzLogbookClient::new("ÆÆÆÆÆ", "a").is_ok());
    let long = "x".repeat(128);
    assert!(QrzLogbookClient::new("1234567890", &long).is_ok());
    let longer = "x".repeat(129);
    assert!(matches!(
        QrzLogbookClient::new("1234567890", &longer),
        Err(QrzLogbookError::InvalidUserAgent)
    ));
    for agent in ["CURL", "Wget", "my Python-Requests/2", "Node-Fetch 1.0", "ÄÖ node-fetch"] {
        assert!(matches!(
            QrzLogbookClient::new("1234567890", agent),
            Err(QrzLogbookError::InvalidUserAgent)
        ));
    }
    for agent in ["curl/8.0", "wget2", "ÄÖ-Logger/1.0 (LA1X)"] {
        assert!(QrzLogbookClient::new("1234567890", agent).is_ok());
    }
    let c = client();
    assert_eq!(c.api_key(), "test-api-key-12345");
    assert_eq!(c.user_agent(), "TestSuite/1.0.0 (N0CALL)");
}

#[test]
fn requests() {
    let c = client();
    let adif = "<call:4>W1AW<station_callsign:5>K1ABC<qso_date:8>20240115<time_on:4>1430<band:3>20m<mode:3>SSB<eor>";
    assert_eq!(
        c.insert_request(&record("W1AW"), false),
        vec![pair("KEY", "test-api-key-12345"), pair("ACTION", "INSERT"), pair("ADIF", adif)]
    );
    assert_eq!(
        c.insert_request(&record("W1AW"), true),
        vec![
            pair("KEY", "test-api-key-12345"),
            pair("ACTION", "INSERT"),
            pair("ADIF", adif),
            pair("OPTION", "REPLACE")
        ]
    );
    assert_eq!(
        c.delete_request(&vec![12345, 0, 18446744073709551615]).unwrap(),
        vec![
            pair("KEY", "test-api-key-12345"),
            pair("ACTION", "DELETE"),
            pair("LOGIDS", "12345,0,18446744073709551615")
        ]
    );
    match c.delete_request(&vec![]) {
        Err(QrzLogbookError::InvalidParams(msg)) => assert_eq!(msg, "No logids provided"),
        other => panic!("{:?}", other),
    }
    assert_eq!(
        c.status_request(),
        vec![pair("KEY", "test-api-key-12345"), pair("ACTION", "STATUS")]
    );
    assert_eq!(
        c.fetch_request(&FetchOptions::new()),
        vec![pair("KEY", "test-api-key-12345"), pair("ACTION", "FETCH")]
    );
    assert_eq!(
        c.fetch_request(&FetchOptions::all().max(5)),
        vec![pair("KEY", "test-api-key-12345"), pair("ACTION", "FETCH"), pair("OPTION", "ALL,MAX:5")]
    );
    assert_eq!(join_numbers(&vec![7]), "7");
    assert_eq!(join_numbers(&vec![]), "");
}

#[test]
fn option_strings() {
    assert_eq!(FetchOptions::new().to_option_string(), "");
    let options = FetchOptions::all()
        .band("20m")
        .mode("SSB")
        .call("W1AW")
        .max(100)
        .after_logid(12345)
        .date_range(
            Date::from_ymd_opt(2024, 1, 1).unwrap(),
            Date::from_ymd_opt(2024, 12, 31).unwrap(),
        );
    assert_eq!(
        options.to_option_string(),
        "ALL,BAND:20m,MODE:SSB,CALL:W1AW,MAX:100,AFTERLOGID:12345,DATEFROM:20240101,DATETO:20241231"
    );
    assert_eq!(options.clone().to_option_string(), options.to_option_string());
    assert_eq!(FetchOptions::new().band("").max(0).to_option_string(), "BAND:,MAX:0");
}

#[test]
fn response_parameters() {
    let c = client();
    let params = c.parse_response_params("A=1&B&=x&C=a%20b%3D&A=2&D=p=q&E=").unwrap();
    assert_eq!(params.len(), 5);
    assert_eq!(params.get("A"), Some(&"2".to_string()));
    assert_eq!(params.get(""), Some(&"x".to_string()));
    assert_eq!(params.get("C"), Some(&"a b=".to_string()));
    assert_eq!(params.get("D"), Some(&"p=q".to_string()));
    assert_eq!(params.get("E"), Some(&"".to_string()));
    assert_eq!(params.get("B"), None);
    assert_eq!(
        api_reason(c.parse_response_params("A=%FF")),
        "Invalid URL encoding in response"
    );
    assert_eq!(
        api_reason(c.parse_response_params("%C3=1&B=2")),
        "Invalid URL encoding in response"
    );
    let data = c.parse_data_params("a=1&b=%20&c&a=3").unwrap();
    assert_eq!(data.len(), 2);
    assert_eq!(data.get("a"), Some(&"3".to_string()));
    assert_eq!(data.get("b"), Some(&"%20".to_string()));
}

#[test]
fn insert_answers() {
    let c = client();
    let answer = c.parse_insert_response("RESULT=OK&LOGID=%2B7".to_string()).unwrap();
    assert_eq!((answer.logid, answer.count), (7, 1));
    let answer =
        c.parse_insert_response("RESULT=OK&LOGID=18446744073709551615&COUNT=4294967295".to_string());
    let answer = answer.unwrap();
    assert_eq!((answer.logid, answer.count), (18446744073709551615, 4294967295));
    assert_eq!(
        api_reason(c.parse_insert_response("RESULT=OK".to_string())),
        "Missing LOGID in response"
    );
    for bad in ["", "-1", "1.0", " 1", "18446744073709551616", "+", "0x10"] {
        assert_eq!(
            api_reason(c.parse_insert_response(format!("RESULT=OK&LOGID={}", bad))),
            "Invalid LOGID format"
        );
    }
    assert_eq!(
        api_reason(c.parse_insert_response("RESULT=OK&LOGID=1&COUNT=4294967296".to_string())),
        "Invalid COUNT format"
    );
    assert_eq!(api_reason(c.parse_insert_response("RESULT=FAIL".to_string())), "Unknown error");
    assert_eq!(
        api_reason(c.parse_insert_response("RESULT=FAIL&REASON=no%20room".to_string())),
        "no room"
    );
    assert_eq!(
        api_reason(c.parse_insert_response("RESULT=ok&LOGID=1".to_string())),
        "Unexpected response format"
    );
    assert_eq!(
        api_reason(c.parse_insert_response("".to_string())),
        "Unexpected response format"
    );
    assert_eq!(
        api_reason(c.parse_insert_response("RESULT=OK&LOGID=%FF".to_string())),
        "Invalid URL encoding in response"
    );
}

#[test]
fn delete_answers() {
    let c = client();
    let answer = c
        .parse_delete_response("RESULT=PARTIAL&LOGIDS=1, 2 ,x,,+3,-4,18446744073709551616,5".to_string())
        .unwrap();
    assert_eq!(answer.deleted_count, 0);
    assert_eq!(answer.not_found_logids, vec![1, 2, 3, 5]);
    assert_eq!(
        api_reason(c.parse_delete_response("RESULT=OK&COUNT=two".to_string())),
        "Invalid COUNT format"
    );
    assert!(matches!(
        c.parse_delete_response("RESULT=AUTH".to_string()),
        Err(QrzLogbookError::Auth)
    ));
}

#[test]
fn status_answers() {
    let c = client();
    let answer = c.parse_status_response("RESULT=OK".to_string()).unwrap();
    assert!(answer.data.is_empty());
    assert_eq!(api_reason(c.parse_status_response("RESULT=FAIL&REASON=x".to_string())), "x");
    assert!(matches!(
        c.parse_status_response("RESULT=AUTH".to_string()),
        Err(QrzLogbookError::Auth)
    ));
}

#[test]
fn fetch_answers() {
    let c = client();
    let answer = c.parse_fetch_response("RESULT=OK".to_string()).unwrap();
    assert_eq!(answer.count, 0);
    assert!(answer.logids.is_empty());
    assert!(answer.qsos.is_empty());
    let bad = format!("RESULT=OK&ADIF={}", urlencoding::encode("<call:4>W1AW<eor>"));
    match c.parse_fetch_response(bad) {
        Err(QrzLogbookError::AdifParse(msg)) => assert_eq!(msg, "Missing station_callsign field"),
        other => panic!("{:?}", other),
    }
    assert_eq!(
        api_reason(c.parse_fetch_response("RESULT=OK&COUNT=x&ADIF=junk".to_string())),
        "Invalid COUNT format"
    );
    assert_eq!(
        api_reason(c.parse_fetch_response("RESULT=PARTIAL".to_string())),
        "Unexpected response format"
    );
}

#[test]
fn paging() {
    let options = FetchOptions::new().band("20m").max(7).after_logid(3);
    assert_eq!(page_options(&options, 0).to_option_string(), "BAND:20m,MAX:250");
    assert_eq!(page_options(&options, 9).to_option_string(), "BAND:20m,MAX:250,AFTERLOGID:9");

    let mut all = vec![record("A")];
    let empty = FetchResponse { count: 0, logids: vec![9], qsos: vec![] };
    assert_eq!(absorb_page(&mut all, 5, empty), PageStep::Done);
    assert_eq!(all.len(), 1);

    let short = FetchResponse { count: 2, logids: vec![4, 9], qsos: vec![record("B"), record("C")] };
    assert_eq!(absorb_page(&mut all, 5, short), PageStep::Done);
    assert_eq!(all.len(), 3);
    assert_eq!(all[1].call, "B");
    assert_eq!(all[2].call, "C");

    let full: Vec<QsoRecord> = (0..250).map(|_| record("D")).collect();
    let page = FetchResponse { count: 250, logids: vec![7, 300, 12], qsos: full.clone() };
    assert_eq!(absorb_page(&mut all, 5, page), PageStep::Next { after_logid: 301 });
    assert_eq!(all.len(), 253);

    let page = FetchResponse { count: 250, logids: vec![], qsos: full.clone() };
    assert_eq!(absorb_page(&mut all, 5, page), PageStep::Next { after_logid: 5 });

    let page = FetchResponse { count: 250, logids: vec![u64::MAX, 1], qsos: full };
    assert_eq!(absorb_page(&mut all, 5, page), PageStep::Done);
    assert_eq!(all.len(), 753);
}
