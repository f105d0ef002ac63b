//! The devices that the user has logged in from.

use crate::database::ids::{shift_id, shifted};
use crate::database::timestamp::Timestamp;
use crate::text::same_text;
use vstd::prelude::*;

verus! {

pub type DeviceID = usize;

/// What kind of machine a device is.
#[derive(PartialEq, Eq, Debug)]
pub enum DeviceType {
    Smartphone,
    Desktop,
    Laptop,
    SmartGlasses,
    SmartWatch,
    Other(String),
}

/// The mathematical value of a [`DeviceType`].
pub enum DeviceTypeView {
    Smartphone,
    Desktop,
    Laptop,
    SmartGlasses,
    SmartWatch,
    Other(Seq<char>),
}

impl View for DeviceType {
    type V = DeviceTypeView;

    open spec fn view(&self) -> DeviceTypeView {
        match self {
            DeviceType::Smartphone => DeviceTypeView::Smartphone,
            DeviceType::Desktop => DeviceTypeView::Desktop,
            DeviceType::Laptop => DeviceTypeView::Laptop,
            DeviceType::SmartGlasses => DeviceTypeView::SmartGlasses,
            DeviceType::SmartWatch => DeviceTypeView::SmartWatch,
            DeviceType::Other(name) => DeviceTypeView::Other(name@),
        }
    }
}

impl Clone for DeviceType {
    fn clone(&self) -> (r: Self)
        ensures
            r@ == self@,
    {
        match self {
            DeviceType::Smartphone => DeviceType::Smartphone,
            DeviceType::Desktop => DeviceType::Desktop,
            DeviceType::Laptop => DeviceType::Laptop,
            DeviceType::SmartGlasses => DeviceType::SmartGlasses,
            DeviceType::SmartWatch => DeviceType::SmartWatch,
            DeviceType::Other(name) => DeviceType::Other(name.clone()),
        }
    }
}

impl DeviceType {
    /// Whether both are the same kind of machine.
    pub fn same_as(&self, other: &DeviceType) -> (r: bool)
        ensures
            r == (self@ == other@),
    {
        match (self, other) {
            (DeviceType::Smartphone, DeviceType::Smartphone) => true,
            (DeviceType::Desktop, DeviceType::Desktop) => true,
            (DeviceType::Laptop, DeviceType::Laptop) => true,
            (DeviceType::SmartGlasses, DeviceType::SmartGlasses) => true,
            (DeviceType::SmartWatch, DeviceType::SmartWatch) => true,
            (DeviceType::Other(a), DeviceType::Other(b)) => same_text(a.as_str(), b.as_str()),
            _ => false,
        }
    }
}

/// A device.
#[derive(PartialEq, Eq, Debug)]
pub struct Device {
    pub id: DeviceID,
    pub device_name: String,
    pub device_type: DeviceType,
    pub device_os: String,
    pub device_model: String,
    pub added_on: Timestamp,
}

/// The mathematical value of a [`Device`].
pub struct DeviceView {
    pub id: usize,
    pub device_name: Seq<char>,
    pub device_type: DeviceTypeView,
    pub device_os: Seq<char>,
    pub device_model: Seq<char>,
    pub added_on: Timestamp,
}

impl View for Device {
    type V = DeviceView;

    open spec fn view(&self) -> DeviceView {
        DeviceView {
            id: self.id,
            device_name: self.device_name@,
            device_type: self.device_type@,
            device_os: self.device_os@,
            device_model: self.device_model@,
            added_on: self.added_on,
        }
    }
}

impl Clone for Device {
    fn clone(&self) -> (r: Self)
        ensures
            r@ == self@,
    {
        Device {
            id: self.id,
            device_name: self.device_name.clone(),
            device_type: self.device_type.clone(),
            device_os: self.device_os.clone(),
            device_model: self.device_model.clone(),
            added_on: self.added_on,
        }
    }
}

impl Device {
    /// A device first seen at the time of the call.
    pub fn new(
        id: DeviceID,
        device_name: String,
        device_type: DeviceType,
        device_os: String,
        device_model: String,
    ) -> (r: Device)
        ensures
            r@ == (DeviceView {
                id,
                device_name: device_name@,
                device_type: device_type@,
                device_os: device_os@,
                device_model: device_model@,
                added_on: r.added_on,
            }),
    {
        Device { id, device_name, device_type, device_os, device_model, added_on: Timestamp::now() }
    }

    /// The id of the device.
    pub fn get_id(&self) -> (r: DeviceID)
        ensures
            r == self.id,
    {
        self.id
    }
}

/// The values of a sequence of devices.
pub open spec fn device_views(devices: Seq<Device>) -> Seq<DeviceView> {
    devices.map_values(|d: Device| d@)
}

/// `devices` with `device` inserted at the position that is its id, and the id
/// of each one behind it raised by one.
pub open spec fn devices_inserted(devices: Seq<DeviceView>, device: DeviceView) -> Seq<DeviceView> {
    Seq::new(
        devices.len() + 1,
        |i: int|
            if i < device.id {
                devices[i]
            } else if i == device.id {
                device
            } else {
                (DeviceView { id: shifted(devices[i - 1].id, 0), ..devices[i - 1] })
            },
    )
}

/// All devices, each at the position that is its id.
#[derive(PartialEq, Eq, Debug)]
pub struct Devices {
    all_devices: Vec<Device>,
}

impl View for Devices {
    type V = Seq<DeviceView>;

    closed spec fn view(&self) -> Seq<DeviceView> {
        device_views(self.all_devices@)
    }
}

impl Clone for Devices {
    fn clone(&self) -> (r: Self)
        ensures
            r@ == self@,
    {
        let all_devices = self.all_devices.clone();
        proof {
            assert(device_views(all_devices@) =~= device_views(self.all_devices@));
        }
        Devices { all_devices }
    }
}

/// Whether every device of `devices` has its position as its id.
pub open spec fn devices_dense(devices: Seq<DeviceView>) -> bool {
    forall|i: int| 0 <= i < devices.len() ==> (#[trigger] devices[i]).id == i
}

impl Devices {
    /// Whether every device has its position as its id.
    pub open spec fn wf(&self) -> bool {
        devices_dense(self@)
    }

    /// No devices.
    pub fn new() -> (r: Devices)
        ensures
            r@ == Seq::<DeviceView>::empty(),
            r.wf(),
    {
        let all_devices: Vec<Device> = Vec::new();
        proof {
            assert(device_views(all_devices@) =~= Seq::<DeviceView>::empty());
        }
        Devices { all_devices }
    }

    /// Whether every device has its position as its id.
    pub fn is_dense(&self) -> (r: bool)
        ensures
            r == devices_dense(self@),
    {
        let mut i: usize = 0;
        while i < self.all_devices.len()
            invariant
                i <= self.all_devices.len(),
                forall|j: int| 0 <= j < i ==> (#[trigger] self@[j]).id == j,
            decreases self.all_devices.len() - i,
        {
            if self.all_devices[i].id != i {
                proof {
                    assert(self@[i as int].id != i);
                }
                return false;
            }
            i += 1;
        }
        true
    }

    /// The devices.
    pub fn get_devices(&self) -> (r: &Vec<Device>)
        ensures
            device_views(r@) == self@,
    {
        &self.all_devices
    }

    /// The devices, to be changed in place.
    pub fn get_devices_mut(&mut self) -> (r: &mut Vec<Device>)
        ensures
            device_views(r@) == old(self)@,
            final(self)@ == device_views(final(r)@),
    {
        &mut self.all_devices
    }

    /// Puts `device` in the place of the device that has its id.
    pub fn update_device(&mut self, device: Device)
        requires
            device.id < old(self)@.len(),
        ensures
            final(self)@ == old(self)@.update(device.id as int, device@),
            old(self).wf() ==> final(self).wf(),
    {
        let id = device.id;
        let ghost before = self.all_devices@;
        self.all_devices[id] = device;
        proof {
            assert(device_views(self.all_devices@) =~= device_views(before).update(
                id as int,
                device@,
            ));
        }
    }

    /// Inserts `device` at the position that is its id; the id of each one
    /// behind it goes up by one.
    pub fn insert_device(&mut self, device: Device)
        requires
            device@.id <= old(self)@.len(),
        ensures
            final(self)@ == devices_inserted(old(self)@, device@),
    {
        let id = device.id;
        let ghost before = self@;
        let mut i: usize = id;
        while i < self.all_devices.len()
            invariant
                id <= i <= self.all_devices.len(),
                self@.len() == before.len(),
                forall|j: int|
                    0 <= j < before.len() ==> #[trigger] self@[j] == if id <= j < i {
                        (DeviceView { id: shifted(before[j].id, 0), ..before[j] })
                    } else {
                        before[j]
                    },
            decreases self.all_devices.len() - i,
        {
            let ghost prev = self.all_devices@;
            let old_id = self.all_devices[i].id;
            let new_id = shift_id(old_id, 0);
            self.all_devices[i].id = new_id;
            proof {
                assert forall|j: int| 0 <= j < before.len() implies #[trigger] self@[j] == if id
                    <= j < i + 1 {
                    (DeviceView { id: shifted(before[j].id, 0), ..before[j] })
                } else {
                    before[j]
                } by {
                    assert(device_views(prev)[j] == prev[j]@);
                    if j != i {
                        assert(self.all_devices@[j] == prev[j]);
                    } else {
                        assert(self.all_devices@[j]@ == (DeviceView { id: new_id, ..prev[j]@ }));
                    }
                }
            }
            i += 1;
        }
        let ghost shifted_all = self@;
        self.all_devices.insert(id, device);
        proof {
            assert forall|j: int| 0 <= j < self@.len() implies self@[j] == devices_inserted(
                before,
                device@,
            )[j] by {
                if j < id {
                    assert(self@[j] == shifted_all[j]);
                } else if j > id {
                    assert(self@[j] == shifted_all[j - 1]);
                }
            }
            assert(self@ =~= devices_inserted(before, device@));
        }
    }

    /// Adds `device` at the end, under the next id, which is returned.
    pub fn add_device(&mut self, device: Device) -> (id: DeviceID)
        ensures
            id == old(self)@.len(),
            final(self)@ == old(self)@.push((DeviceView { id, ..device@ })),
            old(self).wf() ==> final(self).wf(),
    {
        let mut device = device;
        let id = self.all_devices.len();
        device.id = id;
        let ghost before = self.all_devices@;
        self.all_devices.push(device);
        proof {
            assert(device_views(self.all_devices@) =~= device_views(before).push(device@));
        }
        id
    }
}

} // verus!
