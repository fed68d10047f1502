use vstd::prelude::*;

verus! {

/// Bus-level settings: which master to open and where the device
/// description files live.
#[derive(Debug, Default, Clone, PartialEq, Eq)]
pub struct EthercatConfig {
    pub master_id: u32,
    pub esi: String,
}

impl EthercatConfig {
    /// Settings for the given master and description path.
    pub fn new(master_id: u32, esi: String) -> (r: EthercatConfig)
        ensures
            r.master_id == master_id,
            r.esi@ == esi@,
    {
        EthercatConfig { master_id, esi }
    }
}

} // verus!
