use dev_monitor::steps::{catalog_or_defaults, StepCatalog, StepDef};

#[test]
fn the_defaults_are_what_the_app_shipped_with() {
    let c = StepCatalog::defaults();
    assert_eq!(c.steps.len(), 13);
    assert_eq!(c.chain().len(), 11, "Quarantine and Rejected are branches");
    let names: Vec<&str> = c.chain().iter().map(|s| s.name.as_str()).collect();
    assert_eq!(
        names,
        [
            "NEO", "Authentication", "APIM", "Landing", "Event Grid", "Raw",
            "Service Bus", "Container App Jobs", "Processing", "Curated", "Verification"
        ]
    );
    assert_eq!(c.icon_of("neo"), "ph-database");
    assert_eq!(c.icon_of("rejected"), "ph-x-circle");
}

#[test]
fn markers_resolve_the_way_they_did_before() {
    let c = StepCatalog::defaults();
    for raw in ["ContainerAppJobs", "Container App Jobs", "container-app-jobs", "CONTAINERAPPJOBS"] {
        assert_eq!(c.resolve(raw).as_deref(), Some("containerappjobs"), "{raw}");
    }
    assert_eq!(c.resolve("Event Grid").as_deref(), Some("eventgrid"));
    assert_eq!(c.resolve("Sausages"), None);
}

#[test]
fn an_alias_resolves_to_its_step() {
    let mut c = StepCatalog::defaults();
    c.steps[7].aliases.push("CAJ".into());
    assert_eq!(c.resolve("CAJ").as_deref(), Some("containerappjobs"));
    assert_eq!(c.resolve("caj").as_deref(), Some("containerappjobs"));
}

#[test]
fn renaming_a_step_keeps_its_marker_working() {
    let mut c = StepCatalog::defaults();
    c.steps[5].name = "Raw storage".into();
    assert_eq!(c.resolve("Raw").as_deref(), Some("raw"));
    assert_eq!(c.resolve("Raw storage").as_deref(), Some("raw"));
}

#[test]
fn a_deleted_step_no_longer_resolves_and_does_not_panic() {
    let mut c = StepCatalog::defaults();
    c.remove("raw");
    assert_eq!(c.resolve("Raw"), None);
    assert_eq!(c.chain().len(), 10);
    assert_eq!(c.name_of("raw"), "raw", "falls back to the id rather than empty");
    assert_eq!(c.icon_of("raw"), "ph-question");
}

#[test]
fn a_minted_id_never_collides() {
    let mut c = StepCatalog::defaults();
    assert_eq!(c.mint_id("Purge"), "purge");
    assert_eq!(c.mint_id("Raw"), "raw2", "the built-in raw already holds it");
    c.steps.push(StepDef {
        id: "raw2".into(), name: "Raw 2".into(), icon: "file".into(),
        aliases: vec![], on_chain: true,
    });
    assert_eq!(c.mint_id("Raw"), "raw3");
    assert_eq!(c.mint_id("!!!"), "step", "a name with no alphanumerics still yields one");
}

#[test]
fn reordering_moves_one_step_and_leaves_the_rest_in_order() {
    let mut c = StepCatalog::defaults();
    c.reorder(0, 2);
    let ids: Vec<&str> = c.steps.iter().take(3).map(|s| s.id.as_str()).collect();
    assert_eq!(ids, ["authentication", "apim", "neo"]);
}

#[test]
fn an_out_of_range_drag_changes_nothing() {
    let mut c = StepCatalog::defaults();
    let before = c.clone();
    c.reorder(0, 99);
    c.reorder(99, 0);
    c.reorder(3, 3);
    assert_eq!(c, before);
}

#[test]
fn chain_index_is_none_for_a_branch() {
    let c = StepCatalog::defaults();
    assert_eq!(c.chain_index("raw"), Some(5));
    assert_eq!(c.chain_index("quarantine"), None);
    assert_eq!(c.chain_index("rejected"), None);
}

#[test]
fn a_deleted_step_is_gone_from_the_list_and_the_rest_keep_their_order() {
    let mut c = StepCatalog::defaults();
    c.remove("landing");
    let ids: Vec<&str> = c.steps.iter().take(4).map(|s| s.id.as_str()).collect();
    assert_eq!(ids, ["neo", "authentication", "apim", "eventgrid"]);
    assert_eq!(c.steps.len(), 12);
    assert!(c.get("landing").is_none());
    assert_eq!(c.position("apim"), Some(2));
}

#[test]
fn the_normalised_form_keeps_letters_and_digits_only() {
    assert_eq!(dev_monitor::steps::normalise("Container-App Jobs 2"), "containerappjobs2");
    assert_eq!(dev_monitor::steps::normalise("!!!"), "");
}

#[test]
fn an_empty_saved_catalog_is_treated_as_broken() {
    assert_eq!(catalog_or_defaults(None), StepCatalog::defaults());
    assert_eq!(catalog_or_defaults(Some(StepCatalog { steps: vec![] })), StepCatalog::defaults());
    let mut mine = StepCatalog::defaults();
    mine.steps.truncate(2);
    assert_eq!(catalog_or_defaults(Some(mine.clone())), mine);
}

#[test]
fn an_added_step_joins_the_chain_under_a_fresh_id() {
    let mut c = StepCatalog::defaults();
    let n = c.steps.len();
    let id = c.add_step("Raw");
    assert_eq!(id, "raw2");
    assert_eq!(c.steps.len(), n + 1);
    let last = c.steps.last().unwrap();
    assert_eq!((last.id.as_str(), last.name.as_str(), last.icon.as_str()), ("raw2", "Raw", "circle"));
    assert!(last.aliases.is_empty() && last.on_chain);
    assert_eq!(c.add_step("New step"), "newstep");
}

#[test]
fn every_default_step_resolves_by_its_own_name() {
    let c = StepCatalog::defaults();
    for s in &c.steps {
        assert_eq!(c.resolve(&s.name).as_deref(), Some(s.id.as_str()));
        assert!(s.aliases.is_empty());
        assert_eq!(s.on_chain, s.id != "quarantine" && s.id != "rejected");
    }
}
