//! Discovery of other devices: the announcements heard within a time
//! window, one device per fingerprint, the latest announcement winning.
use vstd::prelude::*;
use crate::protocol::Announce;
use crate::text::{decimal, push_decimal, string_from};
use crate::string_map::{has_key, key_position, map_of, StringMap};

verus! {

/// The address an announcement came from.
#[derive(Debug, Clone, Copy)]
pub enum IpAddress {
    V4([u8; 4]),
    V6([u16; 8]),
}

/// A device heard on the network: what it announced and where from.
#[derive(Debug, Clone)]
pub struct Device {
    pub info: Announce,
    pub address: IpAddress,
}

/// Why discovery found nothing to offer.
#[derive(Debug, Clone, Copy, PartialEq, Eq, Structural)]
pub enum DiscoverError {
    /// No device announced itself within the window.
    NoDevice,
}

/// The devices heard so far, keyed by fingerprint.
#[derive(Debug)]
pub struct DeviceTable {
    by_fingerprint: StringMap<Device>,
}

impl DeviceTable {
    /// The devices heard, each under its fingerprint, in the order their
    /// fingerprints were first heard.
    pub closed spec fn entries(&self) -> Seq<(Seq<char>, Device)> {
        self.by_fingerprint.pairs()
    }

    /// The device last heard under each fingerprint.
    pub open spec fn heard(&self) -> Map<Seq<char>, Device> {
        map_of(self.entries())
    }

    /// Each device is filed under its own fingerprint.
    #[verifier::type_invariant]
    closed spec fn filed_by_fingerprint(&self) -> bool {
        forall|i: int|
            0 <= i < self.entries().len() ==> (#[trigger] self.entries()[i]).1.info.fingerprint@
                == self.entries()[i].0
    }

    /// No device heard yet.
    pub fn new() -> (t: DeviceTable)
        ensures
            t.heard() == Map::<Seq<char>, Device>::empty(),
            t.entries().len() == 0,
    {
        DeviceTable { by_fingerprint: StringMap::new() }
    }

    /// Records an announcement heard from `address`: the device with its
    /// fingerprint is now this one, whatever was heard before.
    pub fn record(&mut self, info: Announce, address: IpAddress)
        ensures
            final(self).heard() == old(self).heard().insert(
                info.fingerprint@,
                (Device { info, address }),
            ),
            has_key(old(self).entries(), info.fingerprint@) ==> final(self).entries() == old(
                self,
            ).entries().update(
                key_position(old(self).entries(), info.fingerprint@),
                (info.fingerprint@, (Device { info, address })),
            ),
            !has_key(old(self).entries(), info.fingerprint@) ==> final(self).entries() == old(
                self,
            ).entries().push((info.fingerprint@, (Device { info, address }))),
    {
        proof {
            use_type_invariant(&*self);
        }
        let ghost fp = info.fingerprint@;
        let key = info.fingerprint.clone();
        let mut table = StringMap::new();
        std::mem::swap(&mut table, &mut self.by_fingerprint);
        let ghost p = table.pairs();
        table.insert(key, Device { info, address });
        proof {
            let q = table.pairs();
            assert forall|i: int| 0 <= i < q.len() implies (#[trigger] q[i]).1.info.fingerprint@
                == q[i].0 by {
                if has_key(p, fp) {
                    if i != key_position(p, fp) {
                        assert(q[i] == p[i]);
                    }
                } else if i < p.len() {
                    assert(q[i] == p[i]);
                }
            }
        }
        self.by_fingerprint = table;
    }

    /// The devices heard, in the order their fingerprints were first heard,
    /// no fingerprint twice, or `NoDevice` when none was.
    pub fn into_devices(self) -> (r: Result<Vec<Device>, DiscoverError>)
        ensures
            self.entries().len() == 0 ==> r == Err::<Vec<Device>, DiscoverError>(
                DiscoverError::NoDevice,
            ),
            self.entries().len() > 0 ==> (r matches Ok(v) && v@ == self.entries().map_values(
                |e: (Seq<char>, Device)| e.1,
            )),
            r matches Ok(v) ==> forall|i: int, j: int|
                0 <= i < j < v@.len() ==> (#[trigger] v@[i]).info.fingerprint@
                    != (#[trigger] v@[j]).info.fingerprint@,
    {
        proof {
            use_type_invariant(&self);
        }
        if self.by_fingerprint.len() == 0 {
            return Err(DiscoverError::NoDevice);
        }
        let ghost p = self.entries();
        let v = self.by_fingerprint.into_values();
        proof {
            assert forall|i: int, j: int| 0 <= i < j < v@.len() implies (#[trigger] v@[i]).info.fingerprint@
                != (#[trigger] v@[j]).info.fingerprint@ by {
                assert(v@[i] == p[i].1);
                assert(v@[j] == p[j].1);
                assert(p[i].0 != p[j].0);
            }
        }
        Ok(v)
    }
}

/// One line of the list of devices to choose from.
#[derive(Debug)]
pub struct DeviceRow {
    pub number: String,
    pub alias: String,
    pub device_type: String,
}

/// The list of devices shown to choose from: a number from 1, the alias and
/// the device type ("" when not given).
pub fn device_rows(devices: &Vec<Device>) -> (rows: Vec<DeviceRow>)
    ensures
        rows@.len() == devices@.len(),
        forall|i: int|
            0 <= i < rows@.len() ==> {
                &&& (#[trigger] rows@[i]).number@ == decimal((i + 1) as nat)
                &&& rows@[i].alias@ == devices@[i].info.alias@
                &&& rows@[i].device_type@ == match devices@[i].info.device_type {
                    Some(t) => t@,
                    None => Seq::<char>::empty(),
                }
            },
{
    let mut rows: Vec<DeviceRow> = Vec::new();
    let mut i: usize = 0;
    while i < devices.len()
        invariant
            i <= devices@.len(),
            rows@.len() == i,
            forall|j: int|
                0 <= j < i ==> {
                    &&& (#[trigger] rows@[j]).number@ == decimal((j + 1) as nat)
                    &&& rows@[j].alias@ == devices@[j].info.alias@
                    &&& rows@[j].device_type@ == match devices@[j].info.device_type {
                        Some(t) => t@,
                        None => Seq::<char>::empty(),
                    }
                },
        decreases devices@.len() - i,
    {
        let d = &devices[i];
        let mut digits: Vec<char> = Vec::new();
        push_decimal(&mut digits, (i as u128) + 1);
        let device_type = match &d.info.device_type {
            Some(t) => t.clone(),
            None => String::new(),
        };
        rows.push(DeviceRow { number: string_from(digits.as_slice()), alias: d.info.alias.clone(), device_type });
        i = i + 1;
    }
    rows
}

/// How much of a discovery window of `timeout` is left after `elapsed`
/// (both in nanoseconds); none once it has passed. Discovery stops at 0.
pub fn time_left(timeout: u128, elapsed: u128) -> (left: u128)
    ensures
        left == if elapsed >= timeout {
            0
        } else {
            timeout - elapsed
        },
{
    timeout.saturating_sub(elapsed)
}

} // verus!
