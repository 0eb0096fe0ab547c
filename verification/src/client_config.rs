//! The worker-side configuration records: which compute devices the
//! client uses and how hard it drives them.

use vstd::prelude::*;

verus! {

/// Description of one compute device as persisted in the client's
/// configuration file.
#[derive(Clone, Debug)]
pub struct DevConf {
    pub dev_name: String,
    pub platform_name: String,
    pub id: usize,
    pub work_size: usize,
    pub batch_size: u32,
}

/// The client's configuration: the chosen devices and a fill factor.
#[derive(Clone, Debug)]
pub struct AppConfig {
    pub devices: Vec<DevConf>,
    pub dev_fill: u8,
}

impl AppConfig {
    /// Whether a device with the given name is in the configuration.
    pub fn device_name_exist(&self, dev_name: &str) -> (r: bool)
        ensures
            r == exists|i: int|
                0 <= i < self.devices@.len() && self.devices@[i].dev_name@ == dev_name@,
    {
        let target: String = dev_name.to_owned();
        let n = self.devices.len();
        let mut i: usize = 0;
        while i < n
            invariant
                n == self.devices@.len(),
                target@ == dev_name@,
                i <= n,
                forall|j: int| 0 <= j < i ==> self.devices@[j].dev_name@ != dev_name@,
            decreases n - i,
        {
            if self.devices[i].dev_name == target {
                return true;
            }
            i = i + 1;
        }
        false
    }
}

} // verus!
