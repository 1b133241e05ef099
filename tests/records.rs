use repfeed::record::{
    build_reputation, decode_record, Field, NetAddr, RecordError, Reputation,
};
use repfeed::packed_key::{DetectionType, KeyError};

fn sample(asn: &str) -> String {
    format!(
        "<reputation><stamp>2023-07-30 14:00:00</stamp><addr>173.231.184.122</addr>\
         <cc>US</cc><reputation_key>A1B0C1D7E0F0G0H0I0J0K0</reputation_key>\
         <asn>{}</asn><category>bot</category><reputation_score>2</reputation_score></reputation>",
        asn
    )
}

#[test]
fn test_deserialize_reputation() {
    let data = "<reputation>
        <stamp>2023-07-30 14:00:00</stamp>
        <addr>173.231.184.122</addr>
        <notes>hostname: pywolwnvd.biz;</notes>
        <cc>US</cc>
        <reputation_key>A29B0C10000D8E0F0G0H0I10000J0K2</reputation_key>
        <family>http_post</family>
        <asn>32475</asn>
        <category>controller</category>
        <reputation_score>25</reputation_score>
        <port>80</port>
    </reputation>";

    let res: Result<Reputation, _> = decode_record(data.as_bytes());
    match res {
        Ok(rep) => assert_eq!(rep.cc, "US"),
        Err(_) => panic!("Failed to deserialize reputation"),
    }
}

#[test]
fn test_another_example() {
    let data = "<reputation>
        <stamp>2023-07-30 14:04:30</stamp>
        <addr>178.52.163.60</addr>
        <notes>dsthost: hzmksreiuojy.ru; destination_port_numbers: 80;</notes>
        <cc>SY</cc>
        <reputation_key>A1B0C1D7E0F0G0H0I0J0K0</reputation_key>
        <family>andromeda</family>
        <asn>NA</asn>
        <category>bot</category>
        <reputation_score>2</reputation_score>
    </reputation>";
    let res: Result<Reputation, _> = decode_record(data.as_bytes());
    match res {
        Ok(rep) => assert_eq!(rep.cc, "SY"),
        Err(_) => panic!("Failed to deserialize reputation"),
    }
}

#[test]
fn full_record_fields() {
    let data = "<reputation>
        <stamp>2023-07-30 14:00:00</stamp>
        <addr>173.231.184.122</addr>
        <notes>hostname: pywolwnvd.biz;</notes>
        <cc>US</cc>
        <reputation_key>A29B0C10000D8E0F0G0H0I10000J0K2</reputation_key>
        <family>http_post</family>
        <asn>32475</asn>
        <category>controller</category>
        <reputation_score>25</reputation_score>
        <port>80</port>
    </reputation>";
    let rep = decode_record(data.as_bytes()).unwrap();
    assert_eq!(rep.stamp, 1690725600);
    assert_eq!(rep.addr, NetAddr::V4 { addr: 2917644410, prefix: 32 });
    assert_eq!(rep.notes.as_deref(), Some("hostname: pywolwnvd.biz;"));
    assert_eq!(rep.family.as_deref(), Some("http_post"));
    assert_eq!(rep.asn, Some(32475));
    assert_eq!(rep.category, "controller");
    assert_eq!(rep.reputation_score, 25);
    assert_eq!(rep.port, Some(80));
    assert_eq!(rep.proto, None);
    assert_eq!(rep.reputation_key.days_in_feed, 29);
    assert_eq!(rep.reputation_key.count_of_passive_detections, 10000);
    assert_eq!(rep.reputation_key.detection_type, DetectionType::UnverifiedMalwareC2);
    assert_eq!(rep.reputation_key.number_of_unique_domain_names_on_same_ip, 10000);
    assert_eq!(rep.reputation_key.other_bad_ips_in24, 2);
}

#[test]
fn asn_sentinel_and_number() {
    let absent = decode_record(sample("NA").as_bytes()).unwrap();
    assert_eq!(absent.asn, None);
    let present = decode_record(sample("32475").as_bytes()).unwrap();
    assert_eq!(present.asn, Some(32475));
}

#[test]
fn asn_not_a_number_fails() {
    let r = decode_record(sample("N/A").as_bytes());
    assert!(matches!(r, Err(RecordError::Invalid(Field::Asn))));
    let r = decode_record(sample("na").as_bytes());
    assert!(matches!(r, Err(RecordError::Invalid(Field::Asn))));
}

#[test]
fn stamp_seconds_and_bad_stamp() {
    let data = sample("1").replace("2023-07-30 14:00:00", "2023-07-30 14:04:30");
    assert_eq!(decode_record(data.as_bytes()).unwrap().stamp, 1690725870);
    let bad = sample("1").replace("2023-07-30 14:00:00", "30/07/2023");
    assert!(matches!(decode_record(bad.as_bytes()), Err(RecordError::Invalid(Field::Stamp))));
}

#[test]
fn network_address_forms() {
    let v6 = sample("1").replace("173.231.184.122", "2001:db8::/32");
    let rep = decode_record(v6.as_bytes()).unwrap();
    assert_eq!(
        rep.addr,
        NetAddr::V6 { addr: 42540766411282592856903984951653826560, prefix: 32 }
    );
    let net = sample("1").replace("173.231.184.122", "178.52.163.60/24");
    let rep = decode_record(net.as_bytes()).unwrap();
    assert_eq!(rep.addr, NetAddr::V4 { addr: 2989794108, prefix: 24 });
    let bad = sample("1").replace("173.231.184.122", "not-an-address");
    assert!(matches!(decode_record(bad.as_bytes()), Err(RecordError::Invalid(Field::Addr))));
}

#[test]
fn entities_are_unescaped() {
    let data = sample("1").replace("<cc>US</cc>", "<cc>US</cc><notes>a &amp; b &lt;c&gt;</notes>");
    let rep = decode_record(data.as_bytes()).unwrap();
    assert_eq!(rep.notes.as_deref(), Some("a & b <c>"));
    let bad = sample("1").replace("<cc>US</cc>", "<cc>US</cc><notes>a &bogus; b</notes>");
    assert!(matches!(decode_record(bad.as_bytes()), Err(RecordError::Invalid(Field::Notes))));
}

#[test]
fn text_is_read_as_utf8() {
    let mut data = sample("1").into_bytes();
    let at = data.windows(2).position(|w| w == b"US").unwrap();
    data.splice(at..at + 2, "Z\u{e9}".bytes());
    let rep = decode_record(&data).unwrap();
    assert_eq!(rep.cc, "Z\u{e9}");
    let mut broken = sample("1").into_bytes();
    let at = broken.windows(2).position(|w| w == b"US").unwrap();
    broken[at] = 0xff;
    assert!(matches!(decode_record(&broken), Err(RecordError::Invalid(Field::Cc))));
}

#[test]
fn missing_and_invalid_fields() {
    let no_cc = sample("1").replace("<cc>US</cc>", "");
    assert!(matches!(decode_record(no_cc.as_bytes()), Err(RecordError::Missing(Field::Cc))));
    let no_stamp = sample("1").replace("<stamp>2023-07-30 14:00:00</stamp>", "");
    assert!(matches!(decode_record(no_stamp.as_bytes()), Err(RecordError::Missing(Field::Stamp))));
    let no_addr = sample("1").replace("<addr>173.231.184.122</addr>", "");
    assert!(matches!(decode_record(no_addr.as_bytes()), Err(RecordError::Missing(Field::Addr))));
    let no_asn = sample("1").replace("<asn>1</asn>", "");
    assert!(matches!(decode_record(no_asn.as_bytes()), Err(RecordError::Missing(Field::Asn))));
    let no_cat = sample("1").replace("<category>bot</category>", "");
    assert!(matches!(decode_record(no_cat.as_bytes()), Err(RecordError::Missing(Field::Category))));
    let no_score = sample("1").replace("<reputation_score>2</reputation_score>", "");
    assert!(matches!(
        decode_record(no_score.as_bytes()),
        Err(RecordError::Missing(Field::ReputationScore))
    ));
    let no_key = sample("1").replace("<reputation_key>A1B0C1D7E0F0G0H0I0J0K0</reputation_key>", "");
    assert!(matches!(
        decode_record(no_key.as_bytes()),
        Err(RecordError::Missing(Field::ReputationKey))
    ));
    let bad_score = sample("1").replace(">2</reputation_score>", ">two</reputation_score>");
    assert!(matches!(
        decode_record(bad_score.as_bytes()),
        Err(RecordError::Invalid(Field::ReputationScore))
    ));
    let bad_proto = sample("1").replace("<cc>US</cc>", "<cc>US</cc><proto>tcp</proto>");
    assert!(matches!(decode_record(bad_proto.as_bytes()), Err(RecordError::Invalid(Field::Proto))));
    let bad_port = sample("1").replace("<cc>US</cc>", "<cc>US</cc><port>99999999999</port>");
    assert!(matches!(decode_record(bad_port.as_bytes()), Err(RecordError::Invalid(Field::Port))));
    let signed = sample("1").replace("<cc>US</cc>", "<cc>US</cc><proto>+6</proto><port>-1</port>");
    let rep = decode_record(signed.as_bytes()).unwrap();
    assert_eq!((rep.proto, rep.port), (Some(6), Some(-1)));
}

#[test]
fn key_error_rejects_record() {
    let data = sample("1").replace("A1B0C1D7E0F0G0H0I0J0K0", "A1B0C1D9E0F0G0H0I0J0K0");
    assert!(matches!(
        decode_record(data.as_bytes()),
        Err(RecordError::Key(KeyError::InvalidDetectionType))
    ));
}

#[test]
fn malformed_fragments() {
    assert!(matches!(decode_record(b"not xml"), Err(RecordError::Malformed)));
    assert!(matches!(decode_record(b"<other></other>"), Err(RecordError::Malformed)));
    let truncated = sample("1").replace("</reputation>", "");
    assert!(matches!(decode_record(truncated.as_bytes()), Err(RecordError::Malformed)));
    let nested = sample("1").replace("<cc>US</cc>", "<cc><x>US</x></cc>");
    assert!(matches!(decode_record(nested.as_bytes()), Err(RecordError::Malformed)));
    let mismatched = sample("1").replace("<cc>US</cc>", "<cc>US</dd>");
    assert!(matches!(decode_record(mismatched.as_bytes()), Err(RecordError::Malformed)));
}

#[test]
fn unknown_children_ignored_and_first_wins() {
    let data = sample("1").replace("<cc>US</cc>", "<cc>  US </cc><extra>x</extra><cc>DE</cc>");
    let rep = decode_record(data.as_bytes()).unwrap();
    assert_eq!(rep.cc, "US");
}

#[test]
fn build_from_texts() {
    let texts: Vec<Option<String>> = vec![
        Some("2023-07-30 14:00:00".to_string()),
        Some("10.0.0.1".to_string()),
        None,
        Some("SY".to_string()),
        Some("A1B0C1D7E0F0G0H0I0J0K0".to_string()),
        None,
        Some("andromeda".to_string()),
        Some("NA".to_string()),
        Some("bot".to_string()),
        Some("2".to_string()),
        None,
    ];
    let addr = NetAddr::V4 { addr: 167772161, prefix: 32 };
    let rep = build_reputation(&texts, Some(7), Some(addr)).unwrap();
    assert_eq!(rep.stamp, 7);
    assert_eq!(rep.addr, addr);
    assert_eq!(rep.asn, None);
    assert_eq!(rep.family.as_deref(), Some("andromeda"));
    assert!(matches!(
        build_reputation(&texts, None, Some(addr)),
        Err(RecordError::Invalid(Field::Stamp))
    ));
    assert!(matches!(
        build_reputation(&texts, Some(7), None),
        Err(RecordError::Invalid(Field::Addr))
    ));
    let mut numbered = texts.clone();
    numbered[7] = Some("32475".to_string());
    assert_eq!(build_reputation(&numbered, Some(7), Some(addr)).unwrap().asn, Some(32475));
}
