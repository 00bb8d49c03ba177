use mongodb::bson::{Bson, Document};
use zkill_history_importer::discovery::{collect_discovered, decode_history};
use zkill_history_importer::endpoints::{primary_url, secondary_url};
use zkill_history_importer::pass::{
    is_present, Action, Event, LookupOutcome, Pass, ResolvePolicy, Stage, PACE_DELAY_MS, RETRY_DELAY_MS,
};
use zkill_history_importer::record::{decode_primary, decode_secondary, ResolvedRecord};

type Doc = Vec<(String, Bson)>;

fn stored_id(doc: &Doc) -> Option<i64> {
    doc.iter().find(|(k, _)| k == "id").and_then(|(_, v)| match v {
        Bson::Int64(n) => Some(*n),
        Bson::Int32(n) => Some(*n as i64),
        _ => None,
    })
}

/// Drives a pass against an in-memory store and fixed source bodies.
fn run(pairs: Vec<(i64, String)>, store: &mut Vec<Doc>, primary: &str, secondary: &str) -> usize {
    let mut pass = Pass::new(pairs, ResolvePolicy::RetryForever);
    for _ in 0..1000 {
        let event = match pass.action() {
            Action::Ping => Event::PingSucceeded,
            Action::Lookup(id) => {
                let found = store.iter().any(|d| stored_id(d) == Some(id));
                Event::Looked(if found { LookupOutcome::Found } else { LookupOutcome::Absent })
            }
            Action::Resolve(id, hash) => {
                assert_eq!(primary_url("p/", id), format!("p/{}/", id));
                assert_eq!(secondary_url("s/", id, &hash), format!("s/{}/{}/?datasource=tranquility", id, hash));
                let a = decode_primary(primary).unwrap();
                let b = decode_secondary(secondary).unwrap();
                Event::Resolved(ResolvedRecord::merge(b, a))
            }
            Action::Insert => {
                store.push(pass.pending().unwrap().fields());
                Event::Inserted
            }
            Action::Sleep(_) => Event::Slept,
            Action::Finish(n) => return n,
        };
        pass.step(event);
    }
    panic!("pass did not finish");
}

fn sorted(mut d: Doc) -> Doc {
    d.sort_by(|a, b| a.0.cmp(&b.0));
    d
}

#[test]
fn end_to_end_pass_uploads_one_record() {
    let day = decode_history(r#"{"100": "abc"}"#);
    let pairs = collect_discovered(vec![day]);
    assert_eq!(pairs, vec![(100, "abc".to_string())]);
    let mut store: Vec<Doc> = vec![];
    let n = run(pairs, &mut store, r#"[{"id":100,"a":1}]"#, r#"{"b":2}"#);
    assert_eq!(n, 1);
    assert_eq!(store.len(), 1);
    let expected = vec![
        ("a".to_string(), Bson::Int64(1)),
        ("b".to_string(), Bson::Int64(2)),
        ("id".to_string(), Bson::Int64(100)),
    ];
    assert_eq!(sorted(store[0].clone()), expected);
}

#[test]
fn second_pass_over_stored_ids_uploads_nothing() {
    let pairs = vec![(100, "abc".to_string())];
    let mut store: Vec<Doc> = vec![];
    assert_eq!(run(pairs.clone(), &mut store, r#"[{"id":100,"a":1}]"#, r#"{"b":2}"#), 1);
    assert_eq!(run(pairs, &mut store, r#"[{"id":100,"a":1}]"#, r#"{"b":2}"#), 0);
    assert_eq!(store.len(), 1);
}

#[test]
fn repeated_identifier_is_stored_once() {
    let pairs = vec![(100, "abc".to_string()), (100, "abc".to_string()), (100, "abc".to_string())];
    let mut store: Vec<Doc> = vec![];
    assert_eq!(run(pairs, &mut store, r#"[{"id":100}]"#, r#"{"b":2}"#), 1);
    assert_eq!(store.len(), 1);
}

#[test]
fn empty_pass_pings_then_finishes() {
    let mut pass = Pass::new(vec![], ResolvePolicy::RetryForever);
    assert_eq!(pass.action(), Action::Ping);
    pass.step(Event::PingFailed);
    assert_eq!(pass.action(), Action::Ping);
    pass.step(Event::PingSucceeded);
    assert_eq!(pass.stage(), Stage::Done);
    assert_eq!(pass.action(), Action::Finish(0));
}

#[test]
fn failed_lookup_counts_as_absent() {
    assert!(is_present(LookupOutcome::Found));
    assert!(!is_present(LookupOutcome::Absent));
    assert!(!is_present(LookupOutcome::Failed));
    let mut pass = Pass::new(vec![(9, "h".to_string())], ResolvePolicy::RetryForever);
    pass.step(Event::PingSucceeded);
    assert_eq!(pass.action(), Action::Lookup(9));
    pass.step(Event::Looked(LookupOutcome::Failed));
    assert_eq!(pass.action(), Action::Resolve(9, "h".to_string()));
}

#[test]
fn retries_wait_and_writes_are_paced() {
    let mut pass = Pass::new(vec![(1, "a".to_string()), (2, "b".to_string())], ResolvePolicy::RetryForever);
    pass.step(Event::PingSucceeded);
    pass.step(Event::Looked(LookupOutcome::Absent));
    for _ in 0..5 {
        pass.step(Event::ResolveFailed);
        assert_eq!(pass.action(), Action::Sleep(RETRY_DELAY_MS));
        pass.step(Event::Slept);
        assert_eq!(pass.action(), Action::Resolve(1, "a".to_string()));
    }
    let primary: Document = vec![("id".to_string(), Bson::Int64(1))].into_iter().collect();
    pass.step(Event::Resolved(ResolvedRecord::merge(Document::new(), primary)));
    assert_eq!(pass.action(), Action::Insert);
    pass.step(Event::InsertFailed);
    assert_eq!(pass.action(), Action::Sleep(RETRY_DELAY_MS));
    pass.step(Event::Slept);
    assert_eq!(pass.action(), Action::Insert);
    assert!(pass.pending().is_some());
    pass.step(Event::Inserted);
    assert_eq!(pass.uploaded(), 1);
    assert!(pass.pending().is_none());
    assert_eq!(pass.action(), Action::Sleep(PACE_DELAY_MS));
    pass.step(Event::Slept);
    assert_eq!(pass.action(), Action::Lookup(2));
    pass.step(Event::Looked(LookupOutcome::Found));
    assert_eq!(pass.action(), Action::Finish(1));
}

#[test]
fn bounded_policy_gives_up_on_a_record() {
    let mut pass = Pass::new(vec![(1, "a".to_string()), (2, "b".to_string())], ResolvePolicy::GiveUpAfter(2));
    pass.step(Event::PingSucceeded);
    pass.step(Event::Looked(LookupOutcome::Absent));
    pass.step(Event::ResolveFailed);
    assert_eq!(pass.action(), Action::Sleep(RETRY_DELAY_MS));
    pass.step(Event::Slept);
    pass.step(Event::ResolveFailed);
    assert_eq!(pass.action(), Action::Lookup(2));
    pass.step(Event::Looked(LookupOutcome::Found));
    assert_eq!(pass.action(), Action::Finish(0));
}

#[test]
fn unexpected_event_changes_nothing() {
    let mut pass = Pass::new(vec![(1, "a".to_string())], ResolvePolicy::RetryForever);
    pass.step(Event::Inserted);
    assert_eq!(pass.stage(), Stage::Connecting);
    pass.step(Event::PingSucceeded);
    pass.step(Event::Slept);
    assert_eq!(pass.action(), Action::Lookup(1));
}
