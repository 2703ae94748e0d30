use payload_dump_bot::commands::Command;
use payload_dump_bot::config::Config;
use payload_dump_bot::utils::{to_tg_md, u64_to_dec};

#[test]
fn markdown_control_characters_are_quoted() {
    assert_eq!(
        to_tg_md(String::from("v1.2-rc(3)+x#y")),
        "v1\\.2\\-rc\\(3\\)\\+x\\#y"
    );
}

#[test]
fn plain_text_passes_through() {
    assert_eq!(to_tg_md(String::from("boot vbmeta")), "boot vbmeta");
    assert_eq!(to_tg_md(String::new()), "");
}

#[test]
fn decimal_rendering_is_exact() {
    assert_eq!(u64_to_dec(0), "0");
    assert_eq!(u64_to_dec(7), "7");
    assert_eq!(u64_to_dec(10), "10");
    assert_eq!(u64_to_dec(1229), "1229");
    assert_eq!(u64_to_dec(u64::MAX), "18446744073709551615");
}

#[test]
fn default_config_matches_the_stock_settings() {
    let c = Config::default();
    assert_eq!(c.token, "YOUR_BOT_TOKEN");
    assert_eq!(c.api_url, "https://api.telegram.org");
    assert_eq!(c.rust_log, "debug");
    let parts: Vec<&str> = c.supported_partitions.iter().map(|s| s.as_str()).collect();
    assert_eq!(
        parts,
        vec![
            "boot",
            "dtbo",
            "init_boot",
            "modem",
            "modemfirmware",
            "recovery",
            "system_dlkm",
            "vbmeta",
            "vbmeta_system",
            "vbmeta_vendor",
            "vendor_boot",
            "vendor_dlkm",
        ]
    );
}

#[test]
fn only_the_four_transfer_commands_carry_arguments() {
    assert!(Command::Dump { arg: String::from("u p") }.has_arg());
    assert!(Command::Dumper { arg: String::from("u p") }.has_arg());
    assert!(Command::Patch { arg: String::from("u p m") }.has_arg());
    assert!(Command::List { arg: String::from("u") }.has_arg());
    assert!(!Command::Help.has_arg());
    assert!(!Command::Start.has_arg());
    assert!(!Command::Q.has_arg());
}
