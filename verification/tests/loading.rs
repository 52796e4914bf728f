use rag_core::store::{split_components, LoadError, RawRecord, VectorStore};

fn decode(text: &str) -> Vec<Option<u32>> {
    split_components(text).iter().map(|f| f.parse::<f32>().ok().map(|x| x.to_bits())).collect()
}

fn raw(id: &str, vector: &str) -> RawRecord {
    RawRecord {
        id: id.to_string(),
        category: "site".to_string(),
        timestamp: Some("2024-05-01".to_string()),
        components: decode(vector),
        content: Some(format!("content of {}", id)),
    }
}

#[test]
fn split_components_divides_at_every_comma() {
    assert_eq!(split_components("1,2,3"), vec!["1", "2", "3"]);
    assert_eq!(split_components("1,x,3"), vec!["1", "x", "3"]);
    assert_eq!(split_components(""), vec![""]);
    assert_eq!(split_components("0.5"), vec!["0.5"]);
    assert_eq!(split_components(","), vec!["", ""]);
    assert_eq!(split_components("1,,2,"), vec!["1", "", "2", ""]);
    assert_eq!(split_components("é,1"), vec!["é", "1"]);
    assert_eq!(split_components(" 1, 2"), vec![" 1", " 2"]);
}

#[test]
fn malformed_record_is_skipped_and_the_rest_loads() {
    let store = VectorStore::load(Ok(vec![
        raw("first", "1,2,3"),
        raw("broken", "1,x,3"),
        raw("last", "4,5,6"),
    ]))
    .unwrap();
    let ids: Vec<&str> = store.all().iter().map(|r| r.id.as_str()).collect();
    assert_eq!(ids, vec!["first", "last"]);
    assert_eq!(store.len(), 2);
    assert_eq!(store.skipped(), 1);
    assert_eq!(store.dimension(), Some(3));
    let v: Vec<f32> = store.all()[1].vector.iter().map(|b| f32::from_bits(*b)).collect();
    assert_eq!(v, vec![4.0, 5.0, 6.0]);
}

#[test]
fn record_of_another_dimension_is_skipped() {
    let store = VectorStore::load(Ok(vec![
        raw("a", "1,2"),
        raw("b", "1,2,3"),
        raw("c", "3,4"),
        raw("d", ""),
    ]))
    .unwrap();
    let ids: Vec<&str> = store.all().iter().map(|r| r.id.as_str()).collect();
    assert_eq!(ids, vec!["a", "c"]);
    assert_eq!(store.skipped(), 2);
}

#[test]
fn record_without_components_is_skipped() {
    let mut r = raw("empty", "1");
    r.components = vec![];
    let store = VectorStore::load(Ok(vec![r])).unwrap();
    assert_eq!(store.len(), 0);
    assert_eq!(store.skipped(), 1);
    assert_eq!(store.dimension(), None);
}

#[test]
fn absent_fields_get_their_defaults() {
    let mut r = raw("a", "1,2");
    r.timestamp = None;
    r.content = None;
    let store = VectorStore::load(Ok(vec![r, raw("b", "3,4")])).unwrap();
    let all = store.all();
    assert_eq!(all[0].timestamp, "unknown");
    assert_eq!(all[0].content, "N/A");
    assert_eq!(all[0].category, "site");
    assert_eq!(all[1].timestamp, "2024-05-01");
    assert_eq!(all[1].content, "content of b");
}

#[test]
fn unreachable_source_fails_the_load() {
    match VectorStore::load(Err("connection refused".to_string())) {
        Err(LoadError::SourceUnavailable(reason)) => assert_eq!(reason, "connection refused"),
        Ok(_) => panic!("a load without a source succeeded"),
    }
}

#[test]
fn empty_source_gives_an_empty_store() {
    let store = VectorStore::load(Ok(vec![])).unwrap();
    assert_eq!(store.len(), 0);
    assert_eq!(store.skipped(), 0);
    assert!(store.all().is_empty());
    let fresh = VectorStore::new();
    assert_eq!(fresh.len(), 0);
    assert_eq!(fresh.dimension(), None);
}

#[test]
fn decode_gives_the_vector_or_nothing() {
    assert_eq!(raw("a", "1,2").decode(), Some(vec![1.0f32.to_bits(), 2.0f32.to_bits()]));
    assert_eq!(raw("a", "1,x").decode(), None);
    assert_eq!(raw("a", "").decode(), None);
}

#[test]
fn duplicate_keeps_every_field() {
    let store = VectorStore::load(Ok(vec![raw("a", "1,2")])).unwrap();
    let copy = store.all()[0].duplicate();
    assert_eq!(copy.id, "a");
    assert_eq!(copy.category, "site");
    assert_eq!(copy.timestamp, "2024-05-01");
    assert_eq!(copy.content, "content of a");
    assert_eq!(copy.vector, store.all()[0].vector);
}

#[test]
fn joining_the_fields_gives_the_text_back() {
    for text in ["", ",", "1,2,3", "0.25,-1e-3,,7,", ",,", "no comma", "é,ü,", "1,x,3"] {
        let fields = split_components(text);
        assert_eq!(fields.join(","), text);
        assert!(fields.iter().all(|f| !f.contains(',')));
        assert_eq!(fields.len(), text.matches(',').count() + 1);
    }
}
