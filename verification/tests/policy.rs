use node_manager::policy::{
    get_run_node_on_startup, policy_key, update_run_node_on_startup, PolicyStore,
};

#[test]
fn policy_key_shape() {
    assert_eq!(policy_key("alpha"), "alpha_run_on_startup");
    assert_eq!(policy_key(""), "_run_on_startup");
}

#[test]
fn get_insert_remove_roundtrip() {
    let mut store = PolicyStore::new();
    assert!(store.get("alpha_run_on_startup").is_none());
    store.insert("alpha_run_on_startup".to_string(), true);
    assert_eq!(store.get("alpha_run_on_startup"), Some(true));
    store.insert("alpha_run_on_startup".to_string(), false);
    assert_eq!(store.get("alpha_run_on_startup"), Some(false));
    store.remove("alpha_run_on_startup");
    assert!(store.get("alpha_run_on_startup").is_none());
}

#[test]
fn absent_policy_reads_as_false() {
    let mut store = PolicyStore::new();
    assert!(!get_run_node_on_startup(&store, "alpha"));
    update_run_node_on_startup(&mut store, "alpha", true);
    assert!(get_run_node_on_startup(&store, "alpha"));
    update_run_node_on_startup(&mut store, "alpha", false);
    assert!(!get_run_node_on_startup(&store, "alpha"));
}

#[test]
fn autostart_names_only_true_startup_keys() {
    let mut store = PolicyStore::new();
    update_run_node_on_startup(&mut store, "alpha", true);
    update_run_node_on_startup(&mut store, "beta", false);
    update_run_node_on_startup(&mut store, "gamma", true);
    // The application's own entry and unrelated keys are not node policies.
    store.insert("run_app_on_startup".to_string(), true);
    store.insert("unrelated".to_string(), true);
    assert_eq!(
        store.autostart_names(),
        vec!["alpha".to_string(), "gamma".to_string()]
    );
}

#[test]
fn keys_in_insertion_order() {
    let mut store = PolicyStore::new();
    store.insert("b".to_string(), true);
    store.insert("a".to_string(), false);
    store.insert("b".to_string(), false);
    assert_eq!(store.keys(), vec!["b".to_string(), "a".to_string()]);
}
