//! User preferences: gateway address and ports, active profile, and switches.
use vstd::prelude::*;

verus! {

/// The persisted application settings.
#[derive(Debug, Clone)]
pub struct AppSettings {
    pub vps_host: String,
    pub vps_ch1: u16,
    pub vps_ch2: u16,
    pub active_profile: String,
    pub enable_registry_tuning: bool,
    pub auto_connect: bool,
}

impl Default for AppSettings {
    /// The settings used when none are saved: gateway 72.61.111.131 on ports
    /// 51820 and 4433, the profile `profiles/farever.json`, registry tuning
    /// on, automatic connection off.
    fn default() -> (s: Self)
        ensures
            s.vps_host@ == "72.61.111.131"@,
            s.vps_ch1 == 51820,
            s.vps_ch2 == 4433,
            s.active_profile@ == "profiles/farever.json"@,
            s.enable_registry_tuning,
            !s.auto_connect,
    {
        AppSettings {
            vps_host: "72.61.111.131".to_owned(),
            vps_ch1: 51820,
            vps_ch2: 4433,
            active_profile: "profiles/farever.json".to_owned(),
            enable_registry_tuning: true,
            auto_connect: false,
        }
    }
}

} // verus!
