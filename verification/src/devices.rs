//! The devices of a backend, as its search found them.

use vstd::prelude::*;

use crate::asio::{
    drivers_listed, law_drivers_are_listed_on_both_sides, law_every_driver_is_listed, Driver,
};
use crate::engine::{device_views, DeviceInfo, DeviceView};
use crate::wasapi::{endpoints_listed, EndpointName};
use crate::wdmks::{filter_entries, filters_listed, law_every_filter_is_listed, FilterFacts};

verus! {

/// What the search for the devices of a backend found.
pub enum Inventory {
    /// The active endpoints, by direction.
    Wasapi { render: Vec<EndpointName>, capture: Vec<EndpointName> },
    /// The filters that can be opened.
    WdmKs(Vec<FilterFacts>),
    /// The installed drivers.
    Asio(Vec<Driver>),
}

impl Inventory {
    /// How what was found is listed.
    pub open spec fn listed(self) -> Seq<DeviceView> {
        match self {
            Inventory::Wasapi { render, capture } => endpoints_listed(render@, false)
                + endpoints_listed(capture@, true),
            Inventory::WdmKs(filters) => filters_listed(filters@, filters@.len()),
            Inventory::Asio(drivers) => drivers_listed(drivers@, drivers@.len()),
        }
    }
}

/// Lists the devices of a backend.
pub fn list_devices(found: &Inventory) -> (r: Vec<DeviceInfo>)
    ensures
        device_views(r@) == found.listed(),
{
    match found {
        Inventory::Wasapi { render, capture } => crate::wasapi::list_devices(
            render.as_slice(),
            capture.as_slice(),
        ),
        Inventory::WdmKs(filters) => crate::wdmks::list_devices(filters.as_slice()),
        Inventory::Asio(drivers) => crate::asio::list_devices(drivers.as_slice()),
    }
}

/// A listing holds what was found and nothing else: every endpoint in its own
/// direction, render endpoints first, and every driver on both sides.
pub proof fn law_listing_holds_what_was_found(found: Inventory, i: int)
    ensures
        found matches Inventory::Wasapi { render, capture } ==> {
            &&& found.listed().len() == render@.len() + capture@.len()
            &&& 0 <= i < render@.len() ==> found.listed()[i].id == render@[i].id@
                && !found.listed()[i].is_capture
            &&& 0 <= i < capture@.len() ==> found.listed()[render@.len() + i].id == capture@[i].id@
                && found.listed()[render@.len() + i].is_capture
        },
        found matches Inventory::Asio(drivers) ==> {
            &&& drivers@.len() > 0 ==> found.listed().len() == 2 * drivers@.len()
            &&& 0 <= i < drivers@.len() ==> found.listed()[2 * i].is_capture
                != found.listed()[2 * i + 1].is_capture
        },
        found matches Inventory::WdmKs(filters) ==> (0 <= i < filters@.len() ==> forall|k: int|
            0 <= k < filter_entries(filters@[i]).len() ==> found.listed().contains(
                #[trigger] filter_entries(filters@[i])[k],
            )),
{
    match found {
        Inventory::Wasapi { render, capture } => {},
        Inventory::WdmKs(filters) => {
            if 0 <= i < filters@.len() {
                let n = filters@.len();
                law_every_filter_is_listed(filters@, i as nat, n);
                let from = filters_listed(filters@, i as nat).len() as int;
                let entries = filter_entries(filters@[i]);
                let all = filters_listed(filters@, n);
                assert forall|k: int| 0 <= k < entries.len() implies all.contains(
                    #[trigger] entries[k],
                ) by {
                    assert(all.subrange(from, from + entries.len())[k] == all[from + k]);
                }
            }
        },
        Inventory::Asio(drivers) => {
            if drivers@.len() > 0 {
                law_every_driver_is_listed(drivers@, drivers@.len(), 0);
            }
            if 0 <= i < drivers@.len() {
                law_every_driver_is_listed(drivers@, drivers@.len(), i);
                law_drivers_are_listed_on_both_sides(drivers@[i]);
            }
        },
    }
}

} // verus!
