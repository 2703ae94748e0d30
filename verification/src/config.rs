use vstd::prelude::*;

use crate::payload::names_of;

verus! {

/// The bot's settings, as the configuration file carries them.
pub struct Config {
    pub token: String,
    pub api_url: String,
    pub rust_log: String,
    pub supported_partitions: Vec<String>,
}

/// The partition names a fresh configuration permits.
pub open spec fn spec_default_partitions() -> Seq<Seq<char>> {
    seq![
        "boot"@, "dtbo"@, "init_boot"@, "modem"@, "modemfirmware"@, "recovery"@,
        "system_dlkm"@, "vbmeta"@, "vbmeta_system"@, "vbmeta_vendor"@, "vendor_boot"@,
        "vendor_dlkm"@,
    ]
}

impl Default for Config {
    /// The configuration written when none exists yet: a placeholder
    /// token, the public chat API address, debug logging and the stock
    /// partition list.
    fn default() -> (r: Config)
        ensures
            r.token@ == "YOUR_BOT_TOKEN"@,
            r.api_url@ == "https://api.telegram.org"@,
            r.rust_log@ == "debug"@,
            names_of(r.supported_partitions@) == spec_default_partitions(),
    {
        let mut parts: Vec<String> = Vec::new();
        parts.push(String::from_str("boot"));
        parts.push(String::from_str("dtbo"));
        parts.push(String::from_str("init_boot"));
        parts.push(String::from_str("modem"));
        parts.push(String::from_str("modemfirmware"));
        parts.push(String::from_str("recovery"));
        parts.push(String::from_str("system_dlkm"));
        parts.push(String::from_str("vbmeta"));
        parts.push(String::from_str("vbmeta_system"));
        parts.push(String::from_str("vbmeta_vendor"));
        parts.push(String::from_str("vendor_boot"));
        parts.push(String::from_str("vendor_dlkm"));
        proof {
            assert(names_of(parts@) =~= spec_default_partitions());
        }
        Config {
            token: String::from_str("YOUR_BOT_TOKEN"),
            api_url: String::from_str("https://api.telegram.org"),
            rust_log: String::from_str("debug"),
            supported_partitions: parts,
        }
    }
}

} // verus!
