use schnorr_nizk::access_control::{
    add_action_to_resource, add_device_to_all_actions, add_device_to_resource_action,
    add_resource, check_access, get_json_file_path, read_access_data,
    remove_action_from_resource, remove_device_from_all_actions,
    remove_device_from_resource_action, remove_resource, write_access_data, AccessControl,
    AccessStore, ActionsControl,
};

fn name(text: &str) -> Vec<u8> {
    text.as_bytes().to_vec()
}

fn store_with_actions() -> AccessStore {
    let mut store = AccessStore::new();
    let actions = vec![name("POST"), name("GET"), name("SET")];
    assert_eq!(add_resource(&mut store, 12345, Some(actions)), 0);
    store
}

#[test]
fn devices_added_to_all_actions_have_access() {
    let mut store = store_with_actions();
    assert_eq!(add_device_to_all_actions(&mut store, 12345, 20000), 0);
    assert!(check_access(&store, 12345, name("GET"), 20000));
    assert!(!check_access(&store, 12345, name("GET"), 10000));
    assert!(check_access(&store, 12345, name("POST"), 20000));
    assert!(check_access(&store, 12345, name("SET"), 20000));
    assert!(!check_access(&store, 12345, name("DEL"), 20000));
}

#[test]
fn resources_are_created_once() {
    let mut store = AccessStore::new();
    assert!(!store.has_resource(1));
    assert_eq!(add_resource(&mut store, 1, None), 0);
    assert!(store.has_resource(1));
    assert_eq!(add_resource(&mut store, 1, None), 1);
    assert_eq!(add_resource(&mut store, 1, Some(vec![name("GET")])), 1);
    assert_eq!(add_action_to_resource(&mut store, 1, name("GET")), 0);
    assert_eq!(remove_resource(&mut store, 1), 0);
    assert!(!store.has_resource(1));
    assert_eq!(remove_resource(&mut store, 1), 1);
    assert_eq!(add_resource(&mut store, 1, None), 0);
    assert_eq!(add_action_to_resource(&mut store, 1, name("GET")), 0);
}

#[test]
fn operations_on_a_missing_resource_answer_one() {
    let mut store = AccessStore::new();
    assert_eq!(add_action_to_resource(&mut store, 1, name("GET")), 1);
    assert_eq!(remove_action_from_resource(&mut store, 1, name("GET")), 1);
    assert_eq!(add_device_to_resource_action(&mut store, 1, name("GET"), 5), 1);
    assert_eq!(remove_device_from_resource_action(&mut store, 1, name("GET"), 5), 1);
    assert_eq!(add_device_to_all_actions(&mut store, 1, 5), 1);
    assert_eq!(remove_device_from_all_actions(&mut store, 1, 5), 1);
    assert!(!check_access(&store, 1, name("GET"), 5));
    assert!(!store.has_resource(1));
}

#[test]
fn actions_are_added_once_and_removed() {
    let mut store = store_with_actions();
    assert_eq!(add_action_to_resource(&mut store, 12345, name("DEL")), 0);
    assert_eq!(add_action_to_resource(&mut store, 12345, name("DEL")), 1);
    assert_eq!(add_action_to_resource(&mut store, 12345, name("GET")), 1);
    assert_eq!(remove_action_from_resource(&mut store, 12345, name("POST")), 0);
    assert_eq!(remove_action_from_resource(&mut store, 12345, name("POST")), 1);
    let resource = read_access_data(&store, 12345).unwrap();
    let names: Vec<Vec<u8>> = resource.actions.iter().map(|a| a.action_name.clone()).collect();
    assert_eq!(names, vec![name("GET"), name("SET"), name("DEL")]);
}

#[test]
fn devices_are_added_to_and_removed_from_one_action() {
    let mut store = store_with_actions();
    assert_eq!(add_device_to_resource_action(&mut store, 12345, name("GET"), 7), 0);
    assert!(check_access(&store, 12345, name("GET"), 7));
    assert!(!check_access(&store, 12345, name("SET"), 7));
    assert!(!check_access(&store, 12345, name("GET"), 8));
    assert_eq!(add_device_to_resource_action(&mut store, 12345, name("DEL"), 7), 1);
    assert_eq!(remove_device_from_resource_action(&mut store, 12345, name("DEL"), 7), 1);
    assert_eq!(remove_device_from_resource_action(&mut store, 12345, name("GET"), 8), 2);
    assert_eq!(remove_device_from_resource_action(&mut store, 12345, name("SET"), 7), 2);
    assert_eq!(remove_device_from_resource_action(&mut store, 12345, name("GET"), 7), 0);
    assert!(!check_access(&store, 12345, name("GET"), 7));
    assert_eq!(remove_device_from_resource_action(&mut store, 12345, name("GET"), 7), 2);
}

#[test]
fn allowed_devices_form_a_set() {
    let mut store = store_with_actions();
    assert_eq!(add_device_to_resource_action(&mut store, 12345, name("GET"), 7), 0);
    assert_eq!(add_device_to_resource_action(&mut store, 12345, name("GET"), 7), 0);
    assert_eq!(add_device_to_all_actions(&mut store, 12345, 7), 0);
    let resource = read_access_data(&store, 12345).unwrap();
    assert_eq!(resource.actions[1].allowed_devices, vec![7]);
    assert_eq!(remove_device_from_resource_action(&mut store, 12345, name("GET"), 7), 0);
    assert!(!check_access(&store, 12345, name("GET"), 7));
    assert!(check_access(&store, 12345, name("POST"), 7));
}

#[test]
fn repeated_devices_in_loaded_data_are_removed_together() {
    let mut store = AccessStore::new();
    write_access_data(
        &mut store,
        AccessControl {
            resource_id: 9,
            actions: vec![ActionsControl {
                action_name: name("GET"),
                allowed_devices: vec![5, 6, 5, 7, 5],
            }],
        },
    );
    assert!(check_access(&store, 9, name("GET"), 5));
    assert_eq!(remove_device_from_resource_action(&mut store, 9, name("GET"), 5), 0);
    assert!(!check_access(&store, 9, name("GET"), 5));
    assert!(check_access(&store, 9, name("GET"), 6));
    assert!(check_access(&store, 9, name("GET"), 7));
    assert_eq!(read_access_data(&store, 9).unwrap().actions[0].allowed_devices, vec![6, 7]);
}

#[test]
fn first_action_of_a_name_is_the_one_that_counts() {
    let mut store = AccessStore::new();
    let actions = vec![name("GET"), name("GET")];
    assert_eq!(add_resource(&mut store, 3, Some(actions)), 0);
    assert_eq!(add_device_to_resource_action(&mut store, 3, name("GET"), 5), 0);
    let resource = read_access_data(&store, 3).unwrap();
    assert_eq!(resource.actions[0].allowed_devices, vec![5]);
    assert_eq!(resource.actions[1].allowed_devices, Vec::<u32>::new());
    assert_eq!(remove_action_from_resource(&mut store, 3, name("GET")), 0);
    assert!(!check_access(&store, 3, name("GET"), 5));
    assert_eq!(read_access_data(&store, 3).unwrap().actions.len(), 1);
}

#[test]
fn devices_are_removed_from_all_actions() {
    let mut store = store_with_actions();
    assert_eq!(add_device_to_all_actions(&mut store, 12345, 10000), 0);
    assert_eq!(add_device_to_all_actions(&mut store, 12345, 20000), 0);
    assert_eq!(remove_device_from_all_actions(&mut store, 12345, 10000), 0);
    for action in ["POST", "GET", "SET"] {
        assert!(!check_access(&store, 12345, name(action), 10000));
        assert!(check_access(&store, 12345, name(action), 20000));
    }
    assert_eq!(remove_device_from_all_actions(&mut store, 12345, 10000), 0);
}

#[test]
fn demonstration_sequence_ends_as_expected() {
    let mut store = AccessStore::new();
    assert_eq!(add_resource(&mut store, 12345, None), 0);
    assert_eq!(remove_resource(&mut store, 12345), 0);
    let actions = vec![name("POST"), name("GET"), name("SET")];
    assert_eq!(add_resource(&mut store, 12345, Some(actions)), 0);
    assert_eq!(add_action_to_resource(&mut store, 12345, name("DEL")), 0);
    assert_eq!(remove_action_from_resource(&mut store, 12345, name("POST")), 0);
    assert_eq!(add_device_to_all_actions(&mut store, 12345, 10000), 0);
    assert_eq!(add_device_to_all_actions(&mut store, 12345, 20000), 0);
    assert_eq!(remove_device_from_all_actions(&mut store, 12345, 10000), 0);
    assert_eq!(remove_device_from_resource_action(&mut store, 12345, name("DEL"), 20000), 0);
    assert!(!check_access(&store, 12345, name("DEL"), 10000));
    assert!(check_access(&store, 12345, name("GET"), 20000));
    assert!(!check_access(&store, 12345, name("DEL"), 20000));
}

#[test]
fn resources_are_separate() {
    let mut store = store_with_actions();
    assert_eq!(add_resource(&mut store, 2, Some(vec![name("GET")])), 0);
    assert_eq!(add_device_to_all_actions(&mut store, 2, 5), 0);
    assert!(check_access(&store, 2, name("GET"), 5));
    assert!(!check_access(&store, 12345, name("GET"), 5));
    assert_eq!(remove_resource(&mut store, 12345), 0);
    assert!(check_access(&store, 2, name("GET"), 5));
}

#[test]
fn access_data_round_trips() {
    let mut store = store_with_actions();
    assert_eq!(add_device_to_resource_action(&mut store, 12345, name("GET"), 7), 0);
    let resource = read_access_data(&store, 12345).unwrap();
    assert_eq!(resource.resource_id, 12345);
    assert_eq!(resource.actions.len(), 3);
    assert!(read_access_data(&store, 1).is_none());
    let mut other = AccessStore::new();
    write_access_data(&mut other, resource);
    assert!(check_access(&other, 12345, name("GET"), 7));
    assert!(!check_access(&other, 12345, name("POST"), 7));
}

#[test]
fn access_file_names_hold_the_resource_number() {
    assert_eq!(get_json_file_path(12345), ".nizk-auth/access_control/resource_12345.json");
    assert_eq!(get_json_file_path(0), ".nizk-auth/access_control/resource_0.json");
}
