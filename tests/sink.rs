use repfeed::packed_key::{decode, DetectionType};
use repfeed::record::{NetAddr, Reputation};
use repfeed::sink::{insert_statement, Batcher, Param, INSERT_HEAD};

fn rep(cc: &str) -> Reputation {
    Reputation {
        stamp: 1690725600,
        addr: NetAddr::V4 { addr: 167772161, prefix: 32 },
        notes: Some("n".to_string()),
        cc: cc.to_string(),
        reputation_key: decode("A29B0C10000D8E1F0G0H0I10000J0K2").unwrap(),
        proto: None,
        family: None,
        asn: Some(32475),
        category: "bot".to_string(),
        reputation_score: 25,
        port: Some(80),
    }
}

#[test]
fn statement_for_one_row() {
    let s = insert_statement(1);
    assert!(s.starts_with(INSERT_HEAD));
    assert_eq!(
        &s[INSERT_HEAD.len()..],
        "($1, $2, $3, $4, $5, $6, $7, $8, $9, $10, $11, $12, $13, $14, $15, $16, $17, $18, $19, $20, $21)"
    );
    assert!(INSERT_HEAD.starts_with("INSERT INTO sink.dave_team_cymru_repfeed (stamp, addr, notes, cc, "));
    assert!(INSERT_HEAD.ends_with("reputation_score, port) VALUES "));
}

#[test]
fn statement_for_several_rows() {
    let s = insert_statement(3);
    let values = &s[INSERT_HEAD.len()..];
    assert_eq!(values.matches('$').count(), 63);
    assert!(values.contains("$21),($22, $23"));
    assert!(values.ends_with("$62, $63)"));
    assert_eq!(insert_statement(0), INSERT_HEAD);
}

#[test]
fn row_params_in_column_order() {
    let r = rep("US");
    let ps = r.row_params();
    assert_eq!(ps.len(), 21);
    assert!(matches!(ps[0], Param::Stamp(1690725600)));
    assert!(matches!(ps[1], Param::Addr(NetAddr::V4 { addr: 167772161, prefix: 32 })));
    assert!(matches!(&ps[2], Param::Text(Some(t)) if t == "n"));
    assert!(matches!(&ps[3], Param::Text(Some(t)) if t == "US"));
    assert!(matches!(ps[4], Param::Int(Some(29))));
    assert!(matches!(ps[6], Param::Int(Some(10000))));
    assert!(matches!(ps[7], Param::Detection(DetectionType::UnverifiedMalwareC2)));
    assert!(matches!(ps[8], Param::Bool(true)));
    assert!(matches!(ps[9], Param::Bool(false)));
    assert!(matches!(ps[12], Param::Int(Some(10000))));
    assert!(matches!(ps[14], Param::Int(Some(2))));
    assert!(matches!(ps[15], Param::Int(None)));
    assert!(matches!(ps[16], Param::Text(None)));
    assert!(matches!(ps[17], Param::Int(Some(32475))));
    assert!(matches!(&ps[18], Param::Text(Some(t)) if t == "bot"));
    assert!(matches!(ps[19], Param::Int(Some(25))));
    assert!(matches!(ps[20], Param::Int(Some(80))));
}

#[test]
fn batcher_fills_and_finishes() {
    let mut b = Batcher::new(2);
    assert!(b.push(rep("AA")).is_none());
    let full = b.push(rep("BB")).unwrap();
    assert_eq!(full.iter().map(|r| r.cc.clone()).collect::<Vec<_>>(), vec!["AA", "BB"]);
    assert!(b.finish().is_none());
    assert!(b.push(rep("CC")).is_none());
    let rest = b.finish().unwrap();
    assert_eq!(rest.len(), 1);
    assert_eq!(rest[0].cc, "CC");
    assert!(b.finish().is_none());
}
