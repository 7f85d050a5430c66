use esi_rust::scopes::ScopeList;
use esi_rust::scopes::ScopeManager;

#[test]
fn scope_string() {
    let mut client = ScopeManager {
        scopes: vec![ScopeList::ReadStructures],
        scope_str: String::new(),
    };
    client.update_scope_string();
    assert_eq!(
        client.get_scope_string(),
        ScopeList::ReadStructures.canonical_name()
    );
}

#[test]
fn scope_string_multiple_elements() {
    let mut client = ScopeManager {
        scopes: vec![ScopeList::SearchStructures, ScopeList::ReadStructures],
        scope_str: String::new(),
    };
    client.update_scope_string();
    assert_eq!(
        client.get_scope_string(),
        format!(
            "{} {}",
            ScopeList::SearchStructures.canonical_name(),
            ScopeList::ReadStructures.canonical_name()
        )
    );
}

#[test]
fn scope_string_empty() {
    let client = ScopeManager {
        scopes: vec![],
        scope_str: String::new(),
    };
    assert_eq!(client.get_scope_string(), "");
}

#[test]
fn append_scopes() {
    let mut client = ScopeManager::new();
    assert_eq!(client.get_scope_string(), "");
    let _ = client.add_scope(ScopeList::SearchStructures);
    assert_eq!(client.get_scope_string(), "esi-search.search_structures.v1");
}

#[test]
fn append_duplicate_scopes() {
    let mut client = ScopeManager::new();
    assert_eq!(client.get_scope_string(), "");
    let _ = client.add_scope(ScopeList::SearchStructures);
    assert_eq!(client.get_scope_string(), "esi-search.search_structures.v1");
    let _ = client.add_scope(ScopeList::ReadStructures);
    assert_eq!(
        client.get_scope_string(),
        "esi-search.search_structures.v1 esi-universe.read_structures.v1"
    );
    let _ = client.add_scope(ScopeList::SearchStructures);
    assert_eq!(
        client.get_scope_string(),
        "esi-search.search_structures.v1 esi-universe.read_structures.v1"
    );
}

#[test]
fn render_independent_of_insertion_order() {
    let mut a = ScopeManager::new();
    let _ = a.add_scope(ScopeList::StructureMarkets);
    let _ = a.add_scope(ScopeList::ReadStructures);
    let _ = a.add_scope(ScopeList::SearchStructures);
    let mut b = ScopeManager::new();
    let _ = b.add_scope(ScopeList::ReadStructures);
    let _ = b.add_scope(ScopeList::SearchStructures);
    let _ = b.add_scope(ScopeList::StructureMarkets);
    assert_eq!(a.get_scope_string(), b.get_scope_string());
    assert_eq!(
        a.get_scope_string(),
        "esi-markets.structure_markets.v1 esi-search.search_structures.v1 esi-universe.read_structures.v1"
    );
}

#[test]
fn duplicate_add_is_rejected() {
    let mut client = ScopeManager::new();
    assert_eq!(client.add_scope(ScopeList::ReadStructures), Ok(0));
    let before = client.get_scope_string().to_string();
    assert_eq!(
        client.add_scope(ScopeList::ReadStructures),
        Err("Scope already in array")
    );
    assert_eq!(client.get_scope_string(), before);
}

#[test]
fn remove_absent_scope_is_rejected() {
    let mut client = ScopeManager::new();
    let _ = client.add_scope(ScopeList::SearchStructures);
    let before = client.get_scope_string().to_string();
    match client.remove_scope(ScopeList::StructureMarkets) {
        Err(msg) => assert_eq!(msg, "Scope not in array"),
        Ok(_) => panic!("removing an absent scope must fail"),
    }
    assert_eq!(client.get_scope_string(), before);
}

#[test]
fn remove_present_scope() {
    let mut client = ScopeManager::new();
    let _ = client.add_scope(ScopeList::SearchStructures);
    let _ = client.add_scope(ScopeList::ReadStructures);
    match client.remove_scope(ScopeList::SearchStructures) {
        Ok(sc) => assert!(sc == ScopeList::SearchStructures),
        Err(_) => panic!("removing a present scope must succeed"),
    }
    assert_eq!(client.get_scope_string(), "esi-universe.read_structures.v1");
}

#[test]
fn add_scopes_partitions() {
    let mut client = ScopeManager::new();
    let _ = client.add_scope(ScopeList::ReadStructures);
    let (accepted, rejected) = client.add_scopes(vec![
        ScopeList::ReadStructures,
        ScopeList::SearchStructures,
        ScopeList::SearchStructures,
    ]);
    assert_eq!(accepted, vec![ScopeList::SearchStructures]);
    assert_eq!(
        rejected,
        vec![ScopeList::ReadStructures, ScopeList::SearchStructures]
    );
    assert_eq!(
        client.get_scope_string(),
        "esi-search.search_structures.v1 esi-universe.read_structures.v1"
    );
}

#[test]
fn remove_scopes_partitions() {
    let mut client = ScopeManager::new();
    let _ = client.add_scope(ScopeList::ReadStructures);
    let _ = client.add_scope(ScopeList::StructureMarkets);
    let (removed, not_found) = client.remove_scopes(vec![
        ScopeList::StructureMarkets,
        ScopeList::SearchStructures,
    ]);
    assert_eq!(removed, vec![ScopeList::StructureMarkets]);
    assert_eq!(not_found, vec![ScopeList::SearchStructures]);
    assert_eq!(client.get_scope_string(), "esi-universe.read_structures.v1");
}
