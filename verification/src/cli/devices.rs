//! The devices that are connected.
use vstd::prelude::*;

use crate::text::views;

verus! {

/// A device that is connected.
#[derive(Debug)]
pub struct Device {
    /// The name it goes by.
    pub identifier: String,
}

/// The names of the devices, in their order.
pub fn get_devices(found: &Vec<Device>) -> (names: Vec<String>)
    ensures
        views(names@) == found@.map_values(|d: Device| d.identifier@),
{
    let mut names: Vec<String> = Vec::new();
    let mut i: usize = 0;
    while i < found.len()
        invariant
            i <= found@.len(),
            views(names@) == found@.take(i as int).map_values(|d: Device| d.identifier@),
        decreases found@.len() - i,
    {
        let ghost before = views(names@);
        names.push(found[i].identifier.clone());
        assert(views(names@) == before.push(found@[i as int].identifier@));
        assert(found@.take(i + 1).map_values(|d: Device| d.identifier@) == before.push(
            found@[i as int].identifier@,
        ));
        i += 1;
    }
    assert(found@.take(i as int) == found@);
    names
}

/// The devices that the user selected from `names`, in the order of the
/// selection: those whose space is shown.
pub fn get_storage_info(names: &Vec<String>, selection: &Vec<usize>) -> (chosen: Vec<String>)
    requires
        forall|k: int| 0 <= k < selection@.len() ==> #[trigger] selection@[k] < names@.len(),
    ensures
        views(chosen@) == selection@.map_values(|idx: usize| names@[idx as int]@),
{
    let mut chosen: Vec<String> = Vec::new();
    let mut i: usize = 0;
    while i < selection.len()
        invariant
            i <= selection@.len(),
            forall|k: int| 0 <= k < selection@.len() ==> #[trigger] selection@[k] < names@.len(),
            views(chosen@) == selection@.take(i as int).map_values(
                |idx: usize| names@[idx as int]@,
            ),
        decreases selection@.len() - i,
    {
        let ghost before = views(chosen@);
        let idx: usize = selection[i];
        chosen.push(names[idx].clone());
        assert(views(chosen@) == before.push(names@[idx as int]@));
        assert(selection@.take(i + 1).map_values(|idx: usize| names@[idx as int]@) == before.push(
            names@[idx as int]@,
        ));
        i += 1;
    }
    assert(selection@.take(i as int) == selection@);
    chosen
}

} // verus!
