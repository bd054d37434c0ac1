use lexistore::catalog::{plan_archive, ArchiveAction, DictKey, ImportError, Manifest};
use lexistore::intern::Interner;
use lexistore::plan::{StoreIds, TermPlan};
use lexistore::query::{page, ResultRow};
use lexistore::record::{Field, MetaRecord, TagRecord, TermRecord};
use lexistore::text::normalize_attr;
use sha1::{Digest, Sha1};

fn text(s: &str) -> Field {
    Field { text: Some(s.to_string()), integer: None, json: serde_json::Value::from(s).to_string(), reading: None }
}

fn num(n: i64) -> Field {
    Field { text: None, integer: Some(n), json: n.to_string(), reading: None }
}

fn json(j: &str) -> Field {
    let v: serde_json::Value = serde_json::from_str(j).unwrap();
    Field {
        text: None,
        integer: None,
        json: v.to_string(),
        reading: v.get("reading").and_then(|r| r.as_str()).map(String::from),
    }
}

fn term(t: &str, r: &str, def: &str, rules: &str, score: i64, gloss: &str, seq: i64, tt: &str) -> Vec<Field> {
    vec![text(t), text(r), text(def), text(rules), num(score), json(gloss), num(seq), text(tt)]
}

fn manifest(title: Option<&str>, revision: Option<&str>) -> Manifest {
    Manifest {
        title: title.map(String::from),
        revision: revision.map(String::from),
        author: None,
        url: None,
        description: None,
    }
}

fn key(t: &str, r: &str) -> DictKey {
    DictKey { title: t.to_string(), revision: r.to_string() }
}

fn row(term: &str, score: i64) -> ResultRow {
    ResultRow::from_columns(
        term.to_string(),
        String::new(),
        None,
        None,
        score,
        "[]".to_string(),
        None,
        None,
        "d".to_string(),
    )
}

#[test]
fn single_term_archive_yields_one_row_each() {
    let m = manifest(Some("JMdict"), Some("1"));
    assert_eq!(plan_archive(&Some(m), &vec![]), Ok(ArchiveAction::Import));
    let mut plan = TermPlan::new();
    plan.add_bank(1, &vec![term("猫", "ねこ", "", "", 100, r#"["cat"]"#, 1, "")]);
    assert_eq!(plan.terms.len(), 1);
    assert_eq!(plan.glossaries.len(), 1);
    assert_eq!(plan.glossaries.get(0), r#"["cat"]"#);
    let t = &plan.terms[0];
    assert_eq!(t.term, "猫");
    assert_eq!(t.reading, "ねこ");
    assert_eq!(t.score, 100);
    assert_eq!(t.sequence, Some(1));
    assert_eq!(t.def_tags, None);
    assert_eq!(t.rules, None);
    assert_eq!(t.term_tags, None);
    assert_eq!(t.glossary, 0);
    assert_eq!(plan.def_tags.len() + plan.rules.len() + plan.term_tags.len(), 0);
}

#[test]
fn glossary_hash_is_sha1_of_payload() {
    let mut plan = TermPlan::new();
    plan.add_bank(1, &vec![term("猫", "ねこ", "", "", 100, r#"["cat"]"#, 1, "")]);
    let expected: String = Sha1::digest(br#"["cat"]"#).iter().map(|b| format!("{:02x}", b)).collect();
    assert_eq!(plan.glossary_hashes[0], expected);
    assert_eq!(plan.glossary_hashes[0].len(), 40);
    assert_ne!(plan.glossary_hashes[0], r#"["cat"]"#);
}

#[test]
fn reimport_of_installed_revision_is_skipped() {
    let m = manifest(Some("JMdict"), Some("1"));
    assert_eq!(plan_archive(&Some(m), &vec![key("JMdict", "1")]), Ok(ArchiveAction::SkipInstalled));
    let newer = manifest(Some("JMdict"), Some("2"));
    assert_eq!(plan_archive(&Some(newer), &vec![key("JMdict", "1")]), Ok(ArchiveAction::Import));
}

#[test]
fn archive_without_index_is_skipped() {
    assert_eq!(plan_archive(&None, &vec![]), Ok(ArchiveAction::SkipNoIndex));
    assert_eq!(plan_archive(&None, &vec![key("JMdict", "1")]), Ok(ArchiveAction::SkipNoIndex));
}

#[test]
fn manifest_without_title_or_revision_fails() {
    assert_eq!(plan_archive(&Some(manifest(None, Some("1"))), &vec![]), Err(ImportError::MissingTitle));
    assert_eq!(plan_archive(&Some(manifest(Some("JMdict"), None)), &vec![]), Err(ImportError::MissingRevision));
    assert_eq!(ImportError::MissingTitle.message(), "index.json has no title");
}

#[test]
fn blank_def_tags_equal_missing_ones() {
    let blank = TermRecord::parse(&term("a", "b", " \t ", "", 0, "1", 0, ""));
    let short = TermRecord::parse(&vec![text("a"), text("b")]);
    assert_eq!(blank.def_tags, None);
    assert_eq!(short.def_tags, None);
    assert_eq!(short.glossary, "null");
    assert_eq!(short.score, 0);
    assert_eq!(short.sequence, None);
    assert_eq!(normalize_attr(&Some("  n vt ".to_string())), Some("n vt".to_string()));
    assert_eq!(normalize_attr(&Some("\u{3000}".to_string())), None);
    assert_eq!(normalize_attr(&None), None);
}

#[test]
fn equal_glossaries_share_one_row() {
    let mut plan = TermPlan::new();
    plan.add_bank(
        1,
        &vec![
            term("猫", "ねこ", "", "", 1, r#"["cat"]"#, 1, ""),
            term("ネコ", "ねこ", "", "", 2, r#"["dog"]"#, 2, ""),
        ],
    );
    plan.add_bank(2, &vec![term("猫", "びょう", "", "", 3, r#"["cat"]"#, 3, "")]);
    assert_eq!(plan.glossaries.len(), 2);
    assert_eq!(plan.glossary_hashes.len(), 2);
    assert_eq!(plan.terms[0].glossary, plan.terms[2].glossary);
    assert_ne!(plan.terms[0].glossary, plan.terms[1].glossary);
    assert_eq!(plan.terms[2].bank, 2);
}

#[test]
fn repeated_attribute_sets_are_stored_once() {
    let mut plan = TermPlan::new();
    let mut bank = vec![];
    for i in 0..5 {
        bank.push(term("x", "y", "n", "v1 v5", i, "[]", i, if i % 2 == 0 { "P" } else { " P " }));
    }
    bank.push(term("x", "y", "adj", "", 9, "[]", 9, ""));
    plan.add_bank(1, &bank);
    assert_eq!(plan.def_tags.len(), 2);
    assert_eq!(plan.rules.len(), 1);
    assert_eq!(plan.term_tags.len(), 1);
    assert_eq!(plan.term_tags.get(0), "P");
    assert_eq!(plan.terms[5].rules, None);
    assert_eq!(plan.terms[0].def_tags, plan.terms[4].def_tags);
    assert_ne!(plan.terms[0].def_tags, plan.terms[5].def_tags);
}

#[test]
fn interner_gives_equal_texts_one_id() {
    let mut i = Interner::new();
    assert_eq!(i.intern("a".to_string()), 0);
    assert_eq!(i.intern("b".to_string()), 1);
    assert_eq!(i.intern("a".to_string()), 0);
    assert_eq!(i.len(), 2);
    assert!(i.contains("b"));
    assert!(!i.contains("c"));
}

#[test]
fn pages_of_fifteen_split_ten_and_five() {
    let rows: Vec<ResultRow> = (0..15).map(|i| row(&format!("t{}", i), 100 - i)).collect();
    let again: Vec<ResultRow> = (0..15).map(|i| row(&format!("t{}", i), 100 - i)).collect();
    let first = page(rows, 10, 0);
    let second = page(again, 10, 10);
    assert_eq!(first.len(), 10);
    assert_eq!(second.len(), 5);
    let names: Vec<String> = first.iter().chain(second.iter()).map(|r| r.term.clone()).collect();
    let expected: Vec<String> = (0..15).map(|i| format!("t{}", i)).collect();
    assert_eq!(names, expected);
    assert!(first.iter().chain(second.iter()).zip(first.iter().chain(second.iter()).skip(1)).all(|(a, b)| a.score >= b.score));
}

#[test]
fn page_past_the_end_is_empty() {
    assert!(page(vec![1, 2, 3], 10, 7).is_empty());
    assert_eq!(page(vec![1, 2, 3], 0, 0), Vec::<i32>::new());
    assert_eq!(page(vec![1, 2, 3], 2, 1), vec![2, 3]);
}

#[test]
fn absent_attributes_read_as_empty_in_results() {
    let r = ResultRow::from_columns(
        "猫".to_string(),
        "ねこ".to_string(),
        None,
        Some("v5".to_string()),
        100,
        r#"["cat"]"#.to_string(),
        Some(1),
        None,
        "JMdict".to_string(),
    );
    assert_eq!(r.def_tags, "");
    assert_eq!(r.rules, "v5");
    assert_eq!(r.term_tags, "");
    assert_eq!(r.dictionary, "JMdict");
}

#[test]
fn meta_and_tag_records_use_defaults() {
    let m = MetaRecord::parse(&vec![text("猫"), text("freq"), json(r#"{"reading":"ねこ","frequency":5}"#)]);
    assert_eq!(m.term, "猫");
    assert_eq!(m.mode, "freq");
    assert_eq!(m.reading, Some("ねこ".to_string()));
    assert_eq!(m.data, r#"{"frequency":5,"reading":"ねこ"}"#);
    let bare = MetaRecord::parse(&vec![text("猫")]);
    assert_eq!(bare.mode, "");
    assert_eq!(bare.reading, None);
    assert_eq!(bare.data, "null");
    let t = TagRecord::parse(&vec![text("n"), text("partOfSpeech"), num(-3), text("noun"), num(1)]);
    assert_eq!((t.name.as_str(), t.category.as_deref(), t.sort_order, t.notes.as_deref(), t.score), ("n", Some("partOfSpeech"), -3, Some("noun"), 1));
    let short = TagRecord::parse(&vec![text("n")]);
    assert_eq!((short.category, short.sort_order, short.notes, short.score), (None, 0, None, 0));
}

#[test]
fn stored_rows_use_store_ids_and_keep_nulls() {
    let mut plan = TermPlan::new();
    plan.add_bank(
        1,
        &vec![
            term("猫", "ねこ", "n", "", 100, r#"["cat"]"#, 1, "P"),
            term("猫", "びょう", "", "", 5, r#"["cat"]"#, 2, ""),
        ],
    );
    let ids = StoreIds { glossaries: vec![41], def_tags: vec![7], rules: vec![], term_tags: vec![9] };
    let a = plan.store_row(0, 3, &ids);
    let b = plan.store_row(1, 3, &ids);
    assert_eq!((a.dict_id, a.glossary_id, a.def_tags_id, a.rules_id, a.term_tags_id), (3, 41, Some(7), None, Some(9)));
    assert_eq!((b.glossary_id, b.def_tags_id, b.rules_id, b.term_tags_id), (41, None, None, None));
    assert_eq!((a.term.as_str(), a.reading.as_str(), a.score, a.sequence), ("猫", "ねこ", 100, Some(1)));
    assert_eq!((b.reading.as_str(), b.score, b.sequence), ("びょう", 5, Some(2)));
}

#[test]
fn error_messages_carry_their_cause() {
    assert_eq!(ImportError::Store("disk full".to_string()).message(), "disk full");
    assert_eq!(ImportError::MissingRevision.message(), "index.json has no revision");
}
