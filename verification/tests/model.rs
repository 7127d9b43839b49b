use dev_monitor::model::{field_str, AttrValue, Attribute, Doc, Env, Location};

fn doc() -> Doc {
    Doc {
        id: String::new(),
        document_id: "D".into(),
        revision_id: "00".into(),
        business_key: String::new(),
        source_system: "NEO".into(),
        source_document_id: String::new(),
        document_type: String::new(),
        state: "Promoted".into(),
        file_name: String::new(),
        file_guid: "g".into(),
        mime_type: String::new(),
        sniffed_mime: String::new(),
        file_indicator: String::new(),
        size_bytes: None,
        actual_size_bytes: None,
        registered_at: None,
        uploaded_at: None,
        promoted_at: None,
        dispatched_at: None,
        produced_at: None,
        pending_since: None,
        pending_attempts: None,
        pending_key: None,
        pending_reason: None,
        quarantine_reason: None,
        correlation_id: String::new(),
        root_file_guid: String::new(),
        root_document_id: String::new(),
        parent_document_id: None,
        path_from_root: None,
        derivation_step: None,
        archive_extraction_state: None,
        archive_extracted_at: None,
        archive_member_count: None,
        archive_extraction_lease_expires_at: None,
        reference_data_as_of: None,
        landing: Some(Location { container: "landing".into(), path: "p".into() }),
        raw: None,
        curated: None,
        attributes: vec![
            Attribute { key: "a.null".into(), value: AttrValue::Null },
            Attribute { key: "b.empty".into(), value: AttrValue::Text(String::new()) },
            Attribute { key: "c.number".into(), value: AttrValue::Other("42".into()) },
            Attribute { key: "reference.sbmProjectNumber".into(), value: AttrValue::Text("SM1000".into()) },
        ],
        written_at: None,
    }
}

#[test]
fn the_operator_types_the_business_key_when_there_is_one() {
    let mut d = doc();
    assert_eq!(d.display_key(), "D");
    d.business_key = "001-x".into();
    assert_eq!(d.display_key(), "001-x");
}

#[test]
fn a_member_has_a_root_other_than_itself() {
    let mut d = doc();
    assert!(!d.is_member());
    d.root_file_guid = "g".into();
    assert!(!d.is_member());
    d.root_file_guid = "root".into();
    assert!(d.is_member());
}

#[test]
fn attributes_read_as_text_and_null_or_empty_as_absent() {
    let d = doc();
    assert_eq!(d.attribute("reference.sbmProjectNumber").as_deref(), Some("SM1000"));
    assert_eq!(d.attribute("c.number").as_deref(), Some("42"));
    assert_eq!(d.attribute("a.null"), None);
    assert_eq!(d.attribute("b.empty"), None);
    assert_eq!(d.attribute("missing"), None);
    assert_eq!(field_str(&d.attributes, "b.empty").as_deref(), Some(""));
}

#[test]
fn a_container_is_known_only_when_the_account_has_it() {
    let env = Env {
        name: "dev".into(),
        subscription: String::new(),
        resource_group: String::new(),
        cosmos_account: String::new(),
        cosmos_db: String::new(),
        store_account: String::new(),
        app_insights: String::new(),
        extract_job: String::new(),
        sb_namespace: String::new(),
        landing_retention_days: 8,
        pending_max_days: 5,
        containers: vec!["landing".into(), "raw".into()],
    };
    assert!(env.has_container("raw"));
    assert!(!env.has_container("curated"));
}
