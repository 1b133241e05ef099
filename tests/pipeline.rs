use repfeed::extract::{push_escaped, reputation_tag, Extractor, StructuralError, XmlEvent};
use repfeed::pipeline::{Pipeline, Step};
use repfeed::record::RecordError;

fn start(n: &str) -> XmlEvent {
    XmlEvent::Start(n.as_bytes().to_vec())
}

fn end(n: &str) -> XmlEvent {
    XmlEvent::End(n.as_bytes().to_vec())
}

fn text(t: &str) -> XmlEvent {
    XmlEvent::Text(t.as_bytes().to_vec())
}

fn leaf(name: &str, value: &str) -> Vec<XmlEvent> {
    vec![start(name), text(value), end(name)]
}

/// The events of one record; `cc` varies so records can be told apart.
fn record_events(cc: &str, key: &str) -> Vec<XmlEvent> {
    let mut evs = vec![start("reputation")];
    evs.extend(leaf("stamp", "2023-07-30 14:00:00"));
    evs.extend(leaf("addr", "10.0.0.1"));
    evs.extend(leaf("cc", cc));
    evs.extend(leaf("reputation_key", key));
    evs.extend(leaf("asn", "NA"));
    evs.extend(leaf("category", "bot"));
    evs.extend(leaf("reputation_score", "2"));
    evs.push(end("reputation"));
    evs
}

fn feed_all(p: &mut Pipeline, evs: Vec<XmlEvent>) -> Vec<Step> {
    let mut out = Vec::new();
    for ev in evs {
        match p.on_event(ev).unwrap() {
            Step::Continue => {}
            s => out.push(s),
        }
    }
    out
}

const KEY: &str = "A1B0C1D7E0F0G0H0I0J0K0";

#[test]
fn full_batch_flushed_once() {
    let mut p = Pipeline::new(3);
    let mut evs = vec![XmlEvent::Other, start("feed")];
    for cc in ["AA", "BB", "CC"] {
        evs.extend(record_events(cc, KEY));
    }
    evs.push(end("feed"));
    evs.push(XmlEvent::Eof);
    let steps = feed_all(&mut p, evs);
    assert_eq!(steps.len(), 2);
    match &steps[0] {
        Step::Flush(b) => {
            let ccs: Vec<&str> = b.iter().map(|r| r.cc.as_str()).collect();
            assert_eq!(ccs, vec!["AA", "BB", "CC"]);
        }
        other => panic!("expected a full batch, got {:?}", other),
    }
    assert!(matches!(&steps[1], Step::Finished(None)));
}

#[test]
fn partial_batch_flushed_at_end() {
    let mut p = Pipeline::new(3);
    let mut evs = vec![start("feed")];
    for cc in ["AA", "BB"] {
        evs.extend(record_events(cc, KEY));
    }
    evs.push(end("feed"));
    evs.push(XmlEvent::Eof);
    let steps = feed_all(&mut p, evs);
    assert_eq!(steps.len(), 1);
    match &steps[0] {
        Step::Finished(Some(b)) => assert_eq!(b.len(), 2),
        other => panic!("expected the residual batch, got {:?}", other),
    }
}

#[test]
fn malformed_record_is_skipped() {
    let mut p = Pipeline::new(1000);
    let mut evs = vec![start("feed")];
    evs.extend(record_events("AA", KEY));
    evs.extend(record_events("BB", "A1B2"));
    evs.extend(record_events("CC", KEY));
    evs.push(end("feed"));
    evs.push(XmlEvent::Eof);
    let steps = feed_all(&mut p, evs);
    assert_eq!(steps.len(), 2);
    match &steps[0] {
        Step::Dropped(frag, e) => {
            assert!(matches!(e, RecordError::Key(_)));
            assert!(String::from_utf8_lossy(frag).contains("<cc>BB</cc>"));
        }
        other => panic!("expected a dropped record, got {:?}", other),
    }
    match &steps[1] {
        Step::Finished(Some(b)) => {
            let ccs: Vec<&str> = b.iter().map(|r| r.cc.as_str()).collect();
            assert_eq!(ccs, vec!["AA", "CC"]);
        }
        other => panic!("expected the residual batch, got {:?}", other),
    }
}

#[test]
fn batch_of_one_flushes_each_record() {
    let mut p = Pipeline::new(1);
    let mut evs = record_events("AA", KEY);
    evs.extend(record_events("BB", KEY));
    evs.push(XmlEvent::Eof);
    let steps = feed_all(&mut p, evs);
    assert_eq!(steps.len(), 3);
    assert!(matches!(&steps[0], Step::Flush(b) if b.len() == 1 && b[0].cc == "AA"));
    assert!(matches!(&steps[1], Step::Flush(b) if b.len() == 1 && b[0].cc == "BB"));
    assert!(matches!(&steps[2], Step::Finished(None)));
}

#[test]
fn unterminated_record_is_fatal() {
    let mut p = Pipeline::new(10);
    assert!(matches!(p.on_event(start("reputation")), Ok(Step::Continue)));
    assert!(matches!(p.on_event(text("x")), Ok(Step::Continue)));
    assert!(matches!(p.on_event(XmlEvent::Eof), Err(StructuralError::UnterminatedRecord)));
}

#[test]
fn extractor_rebuilds_fragment() {
    let mut x = Extractor::new(reputation_tag());
    assert!(!x.in_record());
    assert_eq!(x.feed(text("outside")).unwrap(), None);
    assert_eq!(x.feed(start("reputation")).unwrap(), None);
    assert!(x.in_record());
    assert_eq!(x.feed(start("notes")).unwrap(), None);
    assert_eq!(x.feed(XmlEvent::Text(b"it's \"x\"\t\\ caf\xc3\xa9 &amp;".to_vec())).unwrap(), None);
    assert_eq!(x.feed(XmlEvent::Other).unwrap(), None);
    assert_eq!(x.feed(end("notes")).unwrap(), None);
    let frag = x.feed(end("reputation")).unwrap().unwrap();
    assert_eq!(
        String::from_utf8(frag).unwrap(),
        "<reputation><notes>it\\'s \\\"x\\\"\\t\\\\ caf\\xc3\\xa9 &amp;</notes></reputation>"
    );
    assert!(!x.in_record());
    assert_eq!(x.feed(XmlEvent::Eof).unwrap(), None);
}

#[test]
fn escaping_matches_std() {
    let bytes: Vec<u8> = (0u8..=255).collect();
    let mut out = Vec::new();
    push_escaped(&mut out, &bytes);
    let expected: Vec<u8> = bytes.escape_ascii().collect();
    assert_eq!(out, expected);
}

#[test]
fn text_escaped_then_unescaped() {
    let mut p = Pipeline::new(5);
    let mut evs = record_events("AA", KEY);
    let at = evs.len() - 1;
    evs.splice(at..at, leaf("notes", "it's a &amp; b"));
    evs.push(XmlEvent::Eof);
    let steps = feed_all(&mut p, evs);
    match &steps[0] {
        Step::Finished(Some(b)) => assert_eq!(b[0].notes.as_deref(), Some("it\\'s a & b")),
        other => panic!("expected the residual batch, got {:?}", other),
    }
}
