//! Access control: for each resource, the actions that can be taken on it
//! and, for each action, the devices that may take it.
//!
//! An [`AccessStore`] is a plain value that the caller owns. Every operation
//! answers with a code: [`CONST_DONE`], [`CONST_MISSING_OR_DUPLICATE`] or
//! [`CONST_NOT_LISTED`].

use crate::text::{decimal_digits, decimal_string};
use std::collections::HashMap;
use vstd::prelude::*;
use vstd::string::*;

verus! {

broadcast use vstd::std_specs::hash::group_hash_axioms;

/// The operation was carried out.
pub const CONST_DONE: u8 = 0;

/// The resource or the action is missing, or what was to be added exists.
pub const CONST_MISSING_OR_DUPLICATE: u8 = 1;

/// The device is not among those allowed for the action.
pub const CONST_NOT_LISTED: u8 = 2;

/// An action and the devices that may take it. A device is allowed if it
/// occurs among `allowed_devices`, however often.
pub struct ActionsControl {
    /// Name of the action.
    pub action_name: Vec<u8>,
    /// The devices that may take the action.
    pub allowed_devices: Vec<u32>,
}

/// A resource and its actions, in the order in which they were added.
pub struct AccessControl {
    /// Number of the resource.
    pub resource_id: u32,
    /// The actions of the resource.
    pub actions: Vec<ActionsControl>,
}

/// An action as the contracts see it: its name and the set of devices that
/// may take it.
pub type ActionView = (Seq<u8>, Set<u32>);

/// What the contracts see of an action.
pub open spec fn action_view(action: ActionsControl) -> ActionView {
    (action.action_name@, action.allowed_devices@.to_set())
}

/// What the contracts see of a list of actions.
pub open spec fn actions_view(actions: Seq<ActionsControl>) -> Seq<ActionView> {
    actions.map_values(|action: ActionsControl| action_view(action))
}

/// `i` is the place of the first action of `actions` that is named `name`.
pub open spec fn is_first_match(actions: Seq<ActionView>, name: Seq<u8>, i: int) -> bool {
    &&& 0 <= i < actions.len()
    &&& actions[i].0 == name
    &&& forall|j: int| 0 <= j < i ==> (#[trigger] actions[j]).0 != name
}

/// Whether an action of `actions` is named `name`.
pub open spec fn has_action(actions: Seq<ActionView>, name: Seq<u8>) -> bool {
    exists|i: int| is_first_match(actions, name, i)
}

/// Place of the first action of `actions` that is named `name`.
pub open spec fn first_match(actions: Seq<ActionView>, name: Seq<u8>) -> int {
    choose|i: int| is_first_match(actions, name, i)
}

/// The first match is the only place that [`is_first_match`] holds of.
pub proof fn lemma_first_match_unique(actions: Seq<ActionView>, name: Seq<u8>, i: int)
    requires
        is_first_match(actions, name, i),
    ensures
        has_action(actions, name),
        first_match(actions, name) == i,
{
    let k = first_match(actions, name);
    assert(is_first_match(actions, name, k));
    if k < i {
        assert(actions[k].0 != name);
    }
    if i < k {
        assert(actions[i].0 != name);
    }
}

/// Whether two byte strings are the same.
pub fn bytes_eq(a: &Vec<u8>, b: &Vec<u8>) -> (same: bool)
    ensures
        same == (a@ == b@),
{
    if a.len() != b.len() {
        return false;
    }
    let mut i: usize = 0;
    while i < a.len()
        invariant
            i <= a.len(),
            a.len() == b.len(),
            forall|j: int| 0 <= j < i ==> a@[j] == b@[j],
        decreases a.len() - i,
    {
        if a[i] != b[i] {
            return false;
        }
        i += 1;
    }
    assert(a@ =~= b@);
    true
}

fn find_action(actions: &Vec<ActionsControl>, name: &Vec<u8>) -> (place: Option<usize>)
    ensures
        match place {
            Some(i) => is_first_match(actions_view(actions@), name@, i as int),
            None => !has_action(actions_view(actions@), name@),
        },
{
    let mut i: usize = 0;
    while i < actions.len()
        invariant
            i <= actions.len(),
            forall|j: int| 0 <= j < i ==> (#[trigger] actions_view(actions@)[j]).0 != name@,
        decreases actions.len() - i,
    {
        if bytes_eq(&actions[i].action_name, name) {
            assert(actions_view(actions@)[i as int].0 == name@);
            return Some(i);
        }
        i += 1;
    }
    assert forall|k: int| !is_first_match(actions_view(actions@), name@, k) by {
        if 0 <= k < actions.len() {
            assert(actions_view(actions@)[k].0 != name@);
        }
    }
    None
}

fn contains_device(devices: &Vec<u32>, device: u32) -> (found: bool)
    ensures
        found == devices@.to_set().contains(device),
{
    let mut i: usize = 0;
    while i < devices.len()
        invariant
            i <= devices.len(),
            forall|j: int| 0 <= j < i ==> devices@[j] != device,
        decreases devices.len() - i,
    {
        if devices[i] == device {
            assert(devices@.contains(device));
            return true;
        }
        i += 1;
    }
    assert(!devices@.contains(device));
    false
}

/// The devices of `devices` other than `device`, in their order.
fn without_device(devices: &Vec<u32>, device: u32) -> (rest: Vec<u32>)
    ensures
        rest@.to_set() == devices@.to_set().remove(device),
{
    let mut rest: Vec<u32> = Vec::new();
    let mut i: usize = 0;
    assert(devices@.subrange(0, 0).to_set() =~= Set::<u32>::empty());
    assert(rest@.to_set() =~= Set::<u32>::empty().remove(device));
    while i < devices.len()
        invariant
            i <= devices.len(),
            rest@.to_set() == devices@.subrange(0, i as int).to_set().remove(device),
        decreases devices.len() - i,
    {
        let ghost before = rest@;
        let ghost seen = devices@.subrange(0, i as int);
        let current = devices[i];
        if current != device {
            rest.push(current);
        }
        proof {
            assert(devices@.subrange(0, i + 1) =~= seen.push(current));
            seen.lemma_push_to_set_commute(current);
            if current != device {
                before.lemma_push_to_set_commute(current);
                assert(rest@.to_set() =~= seen.push(current).to_set().remove(device));
            } else {
                assert(rest@.to_set() =~= seen.push(current).to_set().remove(device));
            }
        }
        i += 1;
    }
    assert(devices@.subrange(0, devices.len() as int) =~= devices@);
    rest
}

/// The byte strings of a list of names.
pub open spec fn names_view(names: Seq<Vec<u8>>) -> Seq<Seq<u8>> {
    names.map_values(|name: Vec<u8>| name@)
}

/// The actions of a new resource: one for each name, in order, with no
/// device allowed.
pub open spec fn spec_new_actions(names: Option<Vec<Vec<u8>>>) -> Seq<ActionView> {
    match names {
        Some(list) => names_view(list@).map_values(|name: Seq<u8>| (name, Set::<u32>::empty())),
        None => Seq::empty(),
    }
}

/// The resources and their actions, by resource number.
pub struct AccessStore {
    resources: HashMap<u32, Vec<ActionsControl>>,
}

impl View for AccessStore {
    type V = Map<u32, Seq<ActionView>>;

    closed spec fn view(&self) -> Map<u32, Seq<ActionView>> {
        Map::new(
            |id: u32| self.resources@.contains_key(id),
            |id: u32| actions_view(self.resources@[id]@),
        )
    }
}

/// Store and answer of [`add_resource`].
pub open spec fn spec_add_resource(
    store: Map<u32, Seq<ActionView>>,
    resource_id: u32,
    actions: Option<Vec<Vec<u8>>>,
) -> (Map<u32, Seq<ActionView>>, u8) {
    if store.contains_key(resource_id) {
        (store, CONST_MISSING_OR_DUPLICATE)
    } else {
        (store.insert(resource_id, spec_new_actions(actions)), CONST_DONE)
    }
}

/// Store and answer of [`remove_resource`].
pub open spec fn spec_remove_resource(store: Map<u32, Seq<ActionView>>, resource_id: u32) -> (
    Map<u32, Seq<ActionView>>,
    u8,
) {
    if store.contains_key(resource_id) {
        (store.remove(resource_id), CONST_DONE)
    } else {
        (store, CONST_MISSING_OR_DUPLICATE)
    }
}

/// Store and answer of [`add_action_to_resource`].
pub open spec fn spec_add_action(
    store: Map<u32, Seq<ActionView>>,
    resource_id: u32,
    action_name: Seq<u8>,
) -> (Map<u32, Seq<ActionView>>, u8) {
    if store.contains_key(resource_id) && !has_action(store[resource_id], action_name) {
        (
            store.insert(
                resource_id,
                store[resource_id].push((action_name, Set::<u32>::empty())),
            ),
            CONST_DONE,
        )
    } else {
        (store, CONST_MISSING_OR_DUPLICATE)
    }
}

/// Store and answer of [`remove_action_from_resource`].
pub open spec fn spec_remove_action(
    store: Map<u32, Seq<ActionView>>,
    resource_id: u32,
    action_name: Seq<u8>,
) -> (Map<u32, Seq<ActionView>>, u8) {
    if store.contains_key(resource_id) && has_action(store[resource_id], action_name) {
        let actions = store[resource_id];
        (store.insert(resource_id, actions.remove(first_match(actions, action_name))), CONST_DONE)
    } else {
        (store, CONST_MISSING_OR_DUPLICATE)
    }
}

/// Store and answer of [`add_device_to_resource_action`].
pub open spec fn spec_add_device(
    store: Map<u32, Seq<ActionView>>,
    resource_id: u32,
    action_name: Seq<u8>,
    device_id: u32,
) -> (Map<u32, Seq<ActionView>>, u8) {
    if store.contains_key(resource_id) && has_action(store[resource_id], action_name) {
        let actions = store[resource_id];
        let place = first_match(actions, action_name);
        (
            store.insert(
                resource_id,
                actions.update(place, (action_name, actions[place].1.insert(device_id))),
            ),
            CONST_DONE,
        )
    } else {
        (store, CONST_MISSING_OR_DUPLICATE)
    }
}

/// Store and answer of [`remove_device_from_resource_action`].
pub open spec fn spec_remove_device(
    store: Map<u32, Seq<ActionView>>,
    resource_id: u32,
    action_name: Seq<u8>,
    device_id: u32,
) -> (Map<u32, Seq<ActionView>>, u8) {
    if store.contains_key(resource_id) && has_action(store[resource_id], action_name) {
        let actions = store[resource_id];
        let place = first_match(actions, action_name);
        if actions[place].1.contains(device_id) {
            (
                store.insert(
                    resource_id,
                    actions.update(place, (action_name, actions[place].1.remove(device_id))),
                ),
                CONST_DONE,
            )
        } else {
            (store, CONST_NOT_LISTED)
        }
    } else {
        (store, CONST_MISSING_OR_DUPLICATE)
    }
}

/// Whether `device_id` may take the action `action_name` on `resource_id`:
/// the resource exists, it has an action of that name, and the device is
/// among those allowed for the first such action.
pub open spec fn spec_check_access(
    store: Map<u32, Seq<ActionView>>,
    resource_id: u32,
    action_name: Seq<u8>,
    device_id: u32,
) -> bool {
    &&& store.contains_key(resource_id)
    &&& has_action(store[resource_id], action_name)
    &&& store[resource_id][first_match(store[resource_id], action_name)].1.contains(device_id)
}

/// Store and answer of [`add_device_to_all_actions`].
pub open spec fn spec_add_device_to_all(
    store: Map<u32, Seq<ActionView>>,
    resource_id: u32,
    device_id: u32,
) -> (Map<u32, Seq<ActionView>>, u8) {
    if store.contains_key(resource_id) {
        (
            store.insert(
                resource_id,
                store[resource_id].map_values(
                    |action: ActionView| (action.0, action.1.insert(device_id)),
                ),
            ),
            CONST_DONE,
        )
    } else {
        (store, CONST_MISSING_OR_DUPLICATE)
    }
}

/// Store and answer of [`remove_device_from_all_actions`].
pub open spec fn spec_remove_device_from_all(
    store: Map<u32, Seq<ActionView>>,
    resource_id: u32,
    device_id: u32,
) -> (Map<u32, Seq<ActionView>>, u8) {
    if store.contains_key(resource_id) {
        (
            store.insert(
                resource_id,
                store[resource_id].map_values(
                    |action: ActionView| (action.0, action.1.remove(device_id)),
                ),
            ),
            CONST_DONE,
        )
    } else {
        (store, CONST_MISSING_OR_DUPLICATE)
    }
}

impl AccessStore {
    /// A store without resources.
    pub fn new() -> (store: AccessStore)
        ensures
            store@ == Map::<u32, Seq<ActionView>>::empty(),
    {
        let store = AccessStore { resources: HashMap::new() };
        assert(store@ =~= Map::<u32, Seq<ActionView>>::empty());
        store
    }

    /// Whether the store holds the resource `resource_id`.
    pub fn has_resource(&self, resource_id: u32) -> (present: bool)
        ensures
            present == self@.contains_key(resource_id),
    {
        self.resources.contains_key(&resource_id)
    }

    fn take(&mut self, resource_id: u32) -> (actions: Option<Vec<ActionsControl>>)
        ensures
            match actions {
                Some(list) => {
                    &&& old(self)@.contains_key(resource_id)
                    &&& actions_view(list@) == old(self)@[resource_id]
                },
                None => !old(self)@.contains_key(resource_id),
            },
            final(self)@ == old(self)@.remove(resource_id),
    {
        let actions = self.resources.remove(&resource_id);
        assert(self@ =~= old(self)@.remove(resource_id));
        actions
    }

    fn put(&mut self, resource_id: u32, actions: Vec<ActionsControl>)
        ensures
            final(self)@ == old(self)@.insert(resource_id, actions_view(actions@)),
    {
        self.resources.insert(resource_id, actions);
        assert(self@ =~= old(self)@.insert(resource_id, actions_view(actions@)));
    }
}

/// Name of the file that keeps the access control data of `resource_id`.
pub fn get_json_file_path(resource_id: u32) -> (path: String)
    ensures
        path@ == ".nizk-auth/access_control/resource_"@ + decimal_digits(resource_id as nat)
            + ".json"@,
{
    let mut path = String::from_str(".nizk-auth/access_control/resource_");
    path.append(decimal_string(resource_id).as_str());
    path.append(".json");
    path
}

fn new_actions(names: Option<Vec<Vec<u8>>>) -> (actions: Vec<ActionsControl>)
    ensures
        actions_view(actions@) == spec_new_actions(names),
{
    let mut actions: Vec<ActionsControl> = Vec::new();
    match names {
        None => {
            assert(actions_view(actions@) =~= spec_new_actions(names));
        },
        Some(list) => {
            let mut i: usize = 0;
            while i < list.len()
                invariant
                    i <= list.len(),
                    actions@.len() == i,
                    forall|j: int|
                        0 <= j < i ==> #[trigger] action_view(actions@[j]) == (
                            list@[j]@,
                            Set::<u32>::empty(),
                        ),
                decreases list.len() - i,
            {
                let action = ActionsControl {
                    action_name: list[i].clone(),
                    allowed_devices: Vec::new(),
                };
                assert(action.allowed_devices@.to_set() =~= Set::<u32>::empty());
                actions.push(action);
                i += 1;
            }
            assert(actions_view(actions@) =~= spec_new_actions(names));
        },
    }
    actions
}

/// Creates the resource `resource_id` with one action for each name of
/// `actions` and no device allowed, unless the resource exists.
pub fn add_resource(
    store: &mut AccessStore,
    resource_id: u32,
    actions: Option<Vec<Vec<u8>>>,
) -> (code: u8)
    ensures
        (final(store)@, code) == spec_add_resource(old(store)@, resource_id, actions),
{
    if store.has_resource(resource_id) {
        return CONST_MISSING_OR_DUPLICATE;
    }
    store.put(resource_id, new_actions(actions));
    CONST_DONE
}

/// Removes the resource `resource_id` with all its actions.
pub fn remove_resource(store: &mut AccessStore, resource_id: u32) -> (code: u8)
    ensures
        (final(store)@, code) == spec_remove_resource(old(store)@, resource_id),
{
    match store.take(resource_id) {
        Some(_) => CONST_DONE,
        None => {
            assert(store@ =~= old(store)@);
            CONST_MISSING_OR_DUPLICATE
        },
    }
}

/// Adds the action `action_name`, with no device allowed, at the end of the
/// actions of `resource_id`, unless the resource is missing or has an action
/// of that name.
pub fn add_action_to_resource(
    store: &mut AccessStore,
    resource_id: u32,
    action_name: Vec<u8>,
) -> (code: u8)
    ensures
        (final(store)@, code) == spec_add_action(old(store)@, resource_id, action_name@),
{
    match store.take(resource_id) {
        None => {
            assert(store@ =~= old(store)@);
            CONST_MISSING_OR_DUPLICATE
        },
        Some(actions) => {
            let mut actions = actions;
            let code = match find_action(&actions, &action_name) {
                Some(i) => {
                    proof {
                        lemma_first_match_unique(actions_view(actions@), action_name@, i as int);
                    }
                    CONST_MISSING_OR_DUPLICATE
                },
                None => {
                    let ghost before = actions@;
                    let action = ActionsControl { action_name, allowed_devices: Vec::new() };
                    assert(action.allowed_devices@.to_set() =~= Set::<u32>::empty());
                    actions.push(action);
                    assert(actions_view(actions@) =~= actions_view(before).push(
                        (action_name@, Set::<u32>::empty()),
                    ));
                    CONST_DONE
                },
            };
            store.put(resource_id, actions);
            assert(store@ =~= spec_add_action(old(store)@, resource_id, action_name@).0);
            code
        },
    }
}

/// Removes the first action of `resource_id` that is named `action_name`,
/// with its devices.
pub fn remove_action_from_resource(
    store: &mut AccessStore,
    resource_id: u32,
    action_name: Vec<u8>,
) -> (code: u8)
    ensures
        (final(store)@, code) == spec_remove_action(old(store)@, resource_id, action_name@),
{
    match store.take(resource_id) {
        None => {
            assert(store@ =~= old(store)@);
            CONST_MISSING_OR_DUPLICATE
        },
        Some(actions) => {
            let mut actions = actions;
            let code = match find_action(&actions, &action_name) {
                None => CONST_MISSING_OR_DUPLICATE,
                Some(i) => {
                    let ghost before = actions@;
                    proof {
                        lemma_first_match_unique(actions_view(before), action_name@, i as int);
                    }
                    actions.remove(i);
                    assert(actions_view(actions@) =~= actions_view(before).remove(i as int));
                    CONST_DONE
                },
            };
            store.put(resource_id, actions);
            assert(store@ =~= spec_remove_action(old(store)@, resource_id, action_name@).0);
            code
        },
    }
}

/// Allows `device_id` to take the first action of `resource_id` that is
/// named `action_name`. A device that is allowed already stays allowed.
pub fn add_device_to_resource_action(
    store: &mut AccessStore,
    resource_id: u32,
    action_name: Vec<u8>,
    device_id: u32,
) -> (code: u8)
    ensures
        (final(store)@, code) == spec_add_device(
            old(store)@,
            resource_id,
            action_name@,
            device_id,
        ),
{
    match store.take(resource_id) {
        None => {
            assert(store@ =~= old(store)@);
            CONST_MISSING_OR_DUPLICATE
        },
        Some(actions) => {
            let mut actions = actions;
            let code = match find_action(&actions, &action_name) {
                None => CONST_MISSING_OR_DUPLICATE,
                Some(i) => {
                    let ghost before = actions@;
                    proof {
                        lemma_first_match_unique(actions_view(before), action_name@, i as int);
                    }
                    let mut devices = actions[i].allowed_devices.clone();
                    if !contains_device(&devices, device_id) {
                        proof {
                            devices@.lemma_push_to_set_commute(device_id);
                        }
                        devices.push(device_id);
                    }
                    assert(devices@.to_set() =~= before[i as int].allowed_devices@.to_set().insert(
                        device_id,
                    ));
                    actions.set(i, ActionsControl { action_name, allowed_devices: devices });
                    assert(actions_view(actions@) =~= actions_view(before).update(
                        i as int,
                        (action_name@, actions_view(before)[i as int].1.insert(device_id)),
                    ));
                    CONST_DONE
                },
            };
            store.put(resource_id, actions);
            assert(store@ =~= spec_add_device(
                old(store)@,
                resource_id,
                action_name@,
                device_id,
            ).0);
            code
        },
    }
}

/// Withdraws from `device_id` the first action of `resource_id` that is
/// named `action_name`.
pub fn remove_device_from_resource_action(
    store: &mut AccessStore,
    resource_id: u32,
    action_name: Vec<u8>,
    device_id: u32,
) -> (code: u8)
    ensures
        (final(store)@, code) == spec_remove_device(
            old(store)@,
            resource_id,
            action_name@,
            device_id,
        ),
{
    match store.take(resource_id) {
        None => {
            assert(store@ =~= old(store)@);
            CONST_MISSING_OR_DUPLICATE
        },
        Some(actions) => {
            let mut actions = actions;
            let code = match find_action(&actions, &action_name) {
                None => CONST_MISSING_OR_DUPLICATE,
                Some(i) => {
                    let ghost before = actions@;
                    proof {
                        lemma_first_match_unique(actions_view(before), action_name@, i as int);
                    }
                    if contains_device(&actions[i].allowed_devices, device_id) {
                        let devices = without_device(&actions[i].allowed_devices, device_id);
                        actions.set(i, ActionsControl { action_name, allowed_devices: devices });
                        assert(actions_view(actions@) =~= actions_view(before).update(
                            i as int,
                            (action_name@, actions_view(before)[i as int].1.remove(device_id)),
                        ));
                        CONST_DONE
                    } else {
                        CONST_NOT_LISTED
                    }
                },
            };
            store.put(resource_id, actions);
            assert(store@ =~= spec_remove_device(
                old(store)@,
                resource_id,
                action_name@,
                device_id,
            ).0);
            code
        },
    }
}

/// Whether `device_id` may take the action `action_name` on `resource_id`.
pub fn check_access(
    store: &AccessStore,
    resource_id: u32,
    action_name: Vec<u8>,
    device_id: u32,
) -> (allowed: bool)
    ensures
        allowed == spec_check_access(store@, resource_id, action_name@, device_id),
{
    match store.resources.get(&resource_id) {
        None => false,
        Some(actions) => match find_action(actions, &action_name) {
            None => false,
            Some(i) => {
                proof {
                    lemma_first_match_unique(actions_view(actions@), action_name@, i as int);
                }
                contains_device(&actions[i].allowed_devices, device_id)
            },
        },
    }
}

/// Allows `device_id` to take every action of `resource_id`.
pub fn add_device_to_all_actions(
    store: &mut AccessStore,
    resource_id: u32,
    device_id: u32,
) -> (code: u8)
    ensures
        (final(store)@, code) == spec_add_device_to_all(old(store)@, resource_id, device_id),
{
    match store.take(resource_id) {
        None => {
            assert(store@ =~= old(store)@);
            CONST_MISSING_OR_DUPLICATE
        },
        Some(actions) => {
            let mut changed: Vec<ActionsControl> = Vec::new();
            let mut i: usize = 0;
            while i < actions.len()
                invariant
                    i <= actions.len(),
                    changed@.len() == i,
                    forall|j: int|
                        0 <= j < i ==> #[trigger] action_view(changed@[j]) == (
                            actions@[j].action_name@,
                            actions@[j].allowed_devices@.to_set().insert(device_id),
                        ),
                decreases actions.len() - i,
            {
                let mut devices = actions[i].allowed_devices.clone();
                if !contains_device(&devices, device_id) {
                    proof {
                        devices@.lemma_push_to_set_commute(device_id);
                    }
                    devices.push(device_id);
                }
                assert(devices@.to_set() =~= actions@[i as int].allowed_devices@.to_set().insert(
                    device_id,
                ));
                changed.push(
                    ActionsControl {
                        action_name: actions[i].action_name.clone(),
                        allowed_devices: devices,
                    },
                );
                i += 1;
            }
            assert(actions_view(changed@) =~= actions_view(actions@).map_values(
                |action: ActionView| (action.0, action.1.insert(device_id)),
            ));
            store.put(resource_id, changed);
            assert(store@ =~= spec_add_device_to_all(old(store)@, resource_id, device_id).0);
            CONST_DONE
        },
    }
}

/// Withdraws every action of `resource_id` from `device_id`.
pub fn remove_device_from_all_actions(
    store: &mut AccessStore,
    resource_id: u32,
    device_id: u32,
) -> (code: u8)
    ensures
        (final(store)@, code) == spec_remove_device_from_all(old(store)@, resource_id, device_id),
{
    match store.take(resource_id) {
        None => {
            assert(store@ =~= old(store)@);
            CONST_MISSING_OR_DUPLICATE
        },
        Some(actions) => {
            let mut changed: Vec<ActionsControl> = Vec::new();
            let mut i: usize = 0;
            while i < actions.len()
                invariant
                    i <= actions.len(),
                    changed@.len() == i,
                    forall|j: int|
                        0 <= j < i ==> #[trigger] action_view(changed@[j]) == (
                            actions@[j].action_name@,
                            actions@[j].allowed_devices@.to_set().remove(device_id),
                        ),
                decreases actions.len() - i,
            {
                changed.push(
                    ActionsControl {
                        action_name: actions[i].action_name.clone(),
                        allowed_devices: without_device(&actions[i].allowed_devices, device_id),
                    },
                );
                i += 1;
            }
            assert(actions_view(changed@) =~= actions_view(actions@).map_values(
                |action: ActionView| (action.0, action.1.remove(device_id)),
            ));
            store.put(resource_id, changed);
            assert(store@ =~= spec_remove_device_from_all(old(store)@, resource_id, device_id).0);
            CONST_DONE
        },
    }
}

fn copy_actions(actions: &Vec<ActionsControl>) -> (copy: Vec<ActionsControl>)
    ensures
        actions_view(copy@) == actions_view(actions@),
{
    let mut copy: Vec<ActionsControl> = Vec::new();
    let mut i: usize = 0;
    while i < actions.len()
        invariant
            i <= actions.len(),
            copy@.len() == i,
            forall|j: int|
                0 <= j < i ==> #[trigger] action_view(copy@[j]) == action_view(actions@[j]),
        decreases actions.len() - i,
    {
        copy.push(
            ActionsControl {
                action_name: actions[i].action_name.clone(),
                allowed_devices: actions[i].allowed_devices.clone(),
            },
        );
        i += 1;
    }
    assert(actions_view(copy@) =~= actions_view(actions@));
    copy
}

/// A copy of the resource `resource_id` with its actions, if the store
/// holds it.
pub fn read_access_data(store: &AccessStore, resource_id: u32) -> (resource: Option<AccessControl>)
    ensures
        match resource {
            Some(found) => {
                &&& store@.contains_key(resource_id)
                &&& found.resource_id == resource_id
                &&& actions_view(found.actions@) == store@[resource_id]
            },
            None => !store@.contains_key(resource_id),
        },
{
    match store.resources.get(&resource_id) {
        Some(actions) => Some(AccessControl { resource_id, actions: copy_actions(actions) }),
        None => None,
    }
}

/// Puts `resource` into the store under its number, in place of what the
/// store held under that number.
pub fn write_access_data(store: &mut AccessStore, resource: AccessControl)
    ensures
        final(store)@ == old(store)@.insert(resource.resource_id, actions_view(resource.actions@)),
{
    store.put(resource.resource_id, resource.actions);
}

/// Two lists of actions with the same names in the same places have the
/// same first match for every name.
pub proof fn lemma_same_names_same_match(a: Seq<ActionView>, b: Seq<ActionView>, name: Seq<u8>)
    requires
        a.len() == b.len(),
        forall|i: int| 0 <= i < a.len() ==> (#[trigger] a[i]).0 == (#[trigger] b[i]).0,
    ensures
        has_action(a, name) == has_action(b, name),
        has_action(a, name) ==> first_match(a, name) == first_match(b, name),
{
    if has_action(a, name) {
        let i = first_match(a, name);
        assert(is_first_match(b, name, i)) by {
            assert(a[i].0 == b[i].0);
            assert forall|j: int| 0 <= j < i implies (#[trigger] b[j]).0 != name by {
                assert(a[j].0 == b[j].0);
            }
        }
        lemma_first_match_unique(b, name, i);
    }
    if has_action(b, name) {
        let i = first_match(b, name);
        assert(is_first_match(a, name, i)) by {
            assert(a[i].0 == b[i].0);
            assert forall|j: int| 0 <= j < i implies (#[trigger] a[j]).0 != name by {
                assert(a[j].0 == b[j].0);
            }
        }
        lemma_first_match_unique(a, name, i);
    }
}

/// Giving an action to a device gives it access to that action, and changes
/// no other answer of [`check_access`].
pub proof fn lemma_add_device_gives_access(
    store: Map<u32, Seq<ActionView>>,
    resource_id: u32,
    action_name: Seq<u8>,
    device_id: u32,
)
    requires
        spec_add_device(store, resource_id, action_name, device_id).1 == CONST_DONE,
    ensures
        ({
            let after = spec_add_device(store, resource_id, action_name, device_id).0;
            &&& spec_check_access(after, resource_id, action_name, device_id)
            &&& forall|resource: u32, action: Seq<u8>, device: u32|
                (resource != resource_id || action != action_name || device != device_id) ==> (
                #[trigger] spec_check_access(after, resource, action, device)) == spec_check_access(
                    store,
                    resource,
                    action,
                    device,
                )
        }),
{
    let after = spec_add_device(store, resource_id, action_name, device_id).0;
    let actions = store[resource_id];
    let place = first_match(actions, action_name);
    assert(is_first_match(actions, action_name, place));
    assert forall|action: Seq<u8>| has_action(after[resource_id], action) == has_action(
        actions,
        action,
    ) && (has_action(actions, action) ==> first_match(after[resource_id], action) == first_match(
        actions,
        action,
    )) by {
        lemma_same_names_same_match(after[resource_id], actions, action);
    }
    assert forall|resource: u32, action: Seq<u8>, device: u32|
        (resource != resource_id || action != action_name || device != device_id) implies (
    #[trigger] spec_check_access(after, resource, action, device)) == spec_check_access(
        store,
        resource,
        action,
        device,
    ) by {
        if resource == resource_id && has_action(actions, action) {
            let i = first_match(actions, action);
            assert(is_first_match(actions, action, i));
            if i == place {
                assert(action == action_name);
            }
        }
    }
}

/// Withdrawing an action from a device ends its access to that action, and
/// changes no other answer of [`check_access`].
pub proof fn lemma_remove_device_ends_access(
    store: Map<u32, Seq<ActionView>>,
    resource_id: u32,
    action_name: Seq<u8>,
    device_id: u32,
)
    requires
        spec_remove_device(store, resource_id, action_name, device_id).1 == CONST_DONE,
    ensures
        ({
            let after = spec_remove_device(store, resource_id, action_name, device_id).0;
            &&& spec_check_access(store, resource_id, action_name, device_id)
            &&& !spec_check_access(after, resource_id, action_name, device_id)
            &&& forall|resource: u32, action: Seq<u8>, device: u32|
                (resource != resource_id || action != action_name || device != device_id) ==> (
                #[trigger] spec_check_access(after, resource, action, device)) == spec_check_access(
                    store,
                    resource,
                    action,
                    device,
                )
        }),
{
    let after = spec_remove_device(store, resource_id, action_name, device_id).0;
    let actions = store[resource_id];
    let place = first_match(actions, action_name);
    assert(is_first_match(actions, action_name, place));
    assert forall|action: Seq<u8>| has_action(after[resource_id], action) == has_action(
        actions,
        action,
    ) && (has_action(actions, action) ==> first_match(after[resource_id], action) == first_match(
        actions,
        action,
    )) by {
        lemma_same_names_same_match(after[resource_id], actions, action);
    }
    assert forall|resource: u32, action: Seq<u8>, device: u32|
        (resource != resource_id || action != action_name || device != device_id) implies (
    #[trigger] spec_check_access(after, resource, action, device)) == spec_check_access(
        store,
        resource,
        action,
        device,
    ) by {
        if resource == resource_id && has_action(actions, action) {
            let i = first_match(actions, action);
            assert(is_first_match(actions, action, i));
            if i == place {
                assert(action == action_name);
            }
        }
    }
}

/// A device that was given all actions of a resource has access to every
/// action that the resource has; a device that all actions were withdrawn
/// from has access to none.
pub proof fn lemma_all_actions(
    store: Map<u32, Seq<ActionView>>,
    resource_id: u32,
    action_name: Seq<u8>,
    device_id: u32,
)
    requires
        store.contains_key(resource_id),
    ensures
        spec_check_access(
            spec_add_device_to_all(store, resource_id, device_id).0,
            resource_id,
            action_name,
            device_id,
        ) == has_action(store[resource_id], action_name),
        !spec_check_access(
            spec_remove_device_from_all(store, resource_id, device_id).0,
            resource_id,
            action_name,
            device_id,
        ),
{
    let actions = store[resource_id];
    let added = spec_add_device_to_all(store, resource_id, device_id).0[resource_id];
    let removed = spec_remove_device_from_all(store, resource_id, device_id).0[resource_id];
    lemma_same_names_same_match(added, actions, action_name);
    lemma_same_names_same_match(removed, actions, action_name);
    if has_action(actions, action_name) {
        let i = first_match(actions, action_name);
        assert(is_first_match(actions, action_name, i));
    }
}

/// A resource that was just created gives no device access to anything, and
/// a resource that was removed gives none either.
pub proof fn lemma_new_and_removed_resources(
    store: Map<u32, Seq<ActionView>>,
    resource_id: u32,
    actions: Option<Vec<Vec<u8>>>,
    action_name: Seq<u8>,
    device_id: u32,
)
    ensures
        spec_add_resource(store, resource_id, actions).1 == CONST_DONE ==> !spec_check_access(
            spec_add_resource(store, resource_id, actions).0,
            resource_id,
            action_name,
            device_id,
        ),
        !spec_check_access(
            spec_remove_resource(store, resource_id).0,
            resource_id,
            action_name,
            device_id,
        ),
{
    let created = spec_add_resource(store, resource_id, actions).0;
    if spec_add_resource(store, resource_id, actions).1 == CONST_DONE && has_action(
        created[resource_id],
        action_name,
    ) {
        let i = first_match(created[resource_id], action_name);
        assert(is_first_match(created[resource_id], action_name, i));
    }
}

} // verus!
