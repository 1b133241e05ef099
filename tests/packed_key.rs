use repfeed::packed_key::{decode, DetectionType, KeyError, ReputationKey};

#[test]
fn test_rep_key() {
    let data = "<reputation_key>A1B0C1D7E0F0G0H0I0J0K0</reputation_key>";
    let token = data
        .trim_start_matches("<reputation_key>")
        .trim_end_matches("</reputation_key>");
    let res: Result<ReputationKey, _> = decode(token);
    match res {
        Ok(_) => (),
        Err(_) => panic!("Failed to deserialize reputation key"),
    }
}

#[test]
fn decodes_example_token() {
    let k = decode("A1B0C1D7E0F0G0H0I0J0K0").unwrap();
    assert_eq!(k.days_in_feed, 1);
    assert_eq!(k.count_of_active_detections, 0);
    assert_eq!(k.count_of_passive_detections, 1);
    assert_eq!(k.detection_type, DetectionType::ReportedBy3rdParty);
    assert!(!k.sslusage);
    assert!(!k.controller_instruction_decoded);
    assert!(!k.ddo_scommand_observed);
    assert!(!k.non_standard_port);
    assert_eq!(k.number_of_unique_domain_names_on_same_ip, 0);
    assert_eq!(k.number_of_distinct_controllers_on_same_ip, 0);
    assert_eq!(k.other_bad_ips_in24, 0);
}

#[test]
fn round_trip_is_stable() {
    for t in [
        "A1B0C1D7E0F0G0H0I0J0K0",
        "A29B0C10000D8E0F0G0H0I10000J0K2",
        "A007B1C2D0E1F01G2H1I3J4K2147483647",
    ] {
        let first = decode(t);
        let again = decode(&first.unwrap().encode());
        assert_eq!(again, first);
    }
}

#[test]
fn encode_writes_markers() {
    let k = decode("A29B0C10000D8E1F0G0H1I10000J0K2").unwrap();
    assert_eq!(k.encode(), "A29B0C10000D8E1F0G0H1I10000J0K2");
    let padded = decode("A007B1C2D03E01F1G0H0I3J4K5").unwrap();
    assert_eq!(padded.encode(), "A7B1C2D3E0F1G0H0I3J4K5");
    let negative = ReputationKey { days_in_feed: -3, ..k };
    assert_eq!(negative.encode(), "A-3B0C10000D8E1F0G0H1I10000J0K2");
}

#[test]
fn wrong_piece_count_is_malformed() {
    assert_eq!(decode(""), Err(KeyError::MalformedKey));
    assert_eq!(decode("A1B2"), Err(KeyError::MalformedKey));
    assert_eq!(decode("A1B0C1D7E0F0G0H0I0J0K0Z"), Err(KeyError::MalformedKey));
    assert_eq!(decode("1B0C1D7E0F0G0H0I0J0K0"), Err(KeyError::MalformedKey));
    assert_eq!(decode("A1B0C1D7E0F0G0H0I0J0K0L5"), Err(KeyError::MalformedKey));
}

#[test]
fn detection_type_out_of_range() {
    assert_eq!(decode("A1B0C1D9E0F0G0H0I0J0K0"), Err(KeyError::InvalidDetectionType));
    assert_eq!(decode("A1B0C1D99999999999E0F0G0H0I0J0K0"), Err(KeyError::InvalidDetectionType));
    assert_eq!(decode("A1B0C1D08E0F0G0H0I0J0K0").unwrap().detection_type, DetectionType::UnverifiedMalwareC2);
}

#[test]
fn numeric_field_errors() {
    assert_eq!(decode("AB0C1D7E0F0G0H0I0J0K0"), Err(KeyError::NumericFieldError));
    assert_eq!(decode("A1B0C1DE0F0G0H0I0J0K0"), Err(KeyError::NumericFieldError));
    assert_eq!(decode("A2147483648B0C1D7E0F0G0H0I0J0K0"), Err(KeyError::NumericFieldError));
    assert_eq!(decode("A1B0C1D7E0F0G0H0I0J0K"), Err(KeyError::NumericFieldError));
}

#[test]
fn flags_are_literal_one() {
    let k = decode("A1B0C1D7E1F01G2H1I0J0K0").unwrap();
    assert!(k.sslusage);
    assert!(!k.controller_instruction_decoded);
    assert!(!k.ddo_scommand_observed);
    assert!(k.non_standard_port);
}

#[test]
fn markers_are_any_non_digit() {
    let k = decode("x1-0 1/7.0,0;0:0_0!0?0").unwrap();
    assert_eq!(k, decode("A1B0C1D7E0F0G0H0I0J0K0").unwrap());
}

#[test]
fn detection_codes() {
    for n in 0..9 {
        let d = DetectionType::from_code(n).unwrap();
        assert_eq!(d.code() as i32, n);
    }
    assert_eq!(DetectionType::from_code(9), None);
    assert_eq!(DetectionType::from_code(-1), None);
}
