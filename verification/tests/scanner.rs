use payload_dump_bot::kmi::{get_kmi, KmiError};

fn image(chunks: &[&[u8]]) -> Vec<u8> {
    let mut data = Vec::new();
    for c in chunks {
        data.extend_from_slice(c);
        data.push(0);
    }
    data
}

#[test]
fn round_trip_kmi_and_kernel_version() {
    let data = image(&[
        b"junk header",
        b"foo 5.10.101-android13-8-00674-g12345678",
        b"Linux version 5.10.101-something",
        b"trailing",
    ]);
    let (kmi, kv) = get_kmi(&data).expect("both strings present");
    assert_eq!(kmi, "android13-5.10.101");
    assert_eq!(kv, "5.10.101-something");
}

#[test]
fn kernel_version_line_stops_at_newline_and_is_trimmed() {
    let data = image(&[
        b"5.15.0-android14-11-gabc",
        b"Linux version   6.1.43-x \nrest of the chunk",
    ]);
    let (kmi, kv) = get_kmi(&data).expect("both strings present");
    assert_eq!(kmi, "android14-5.15.0");
    assert_eq!(kv, "6.1.43-x");
}

#[test]
fn kernel_version_missing_is_an_error_not_an_empty_value() {
    let data = image(&[b"foo 5.10.101-android13-8-00674-gff", b"no version line here"]);
    let err = get_kmi(&data).unwrap_err();
    assert_eq!(err, KmiError::KernelVersionMissing);
}

#[test]
fn empty_captured_version_counts_as_missing() {
    let data = image(&[b"5.10.101-android13-8", b"Linux version    "]);
    let err = get_kmi(&data).unwrap_err();
    assert_eq!(err, KmiError::KernelVersionMissing);
}

#[test]
fn kmi_missing_is_reported() {
    let data = image(&[b"Linux version 5.10.1", b"nothing androidish"]);
    let err = get_kmi(&data).unwrap_err();
    assert_eq!(err, KmiError::KmiMissing);
}

#[test]
fn both_missing_is_reported() {
    let data = image(&[b"alpha", b"beta", b"gamma"]);
    let err = get_kmi(&data).unwrap_err();
    assert_eq!(err, KmiError::BothMissing);
}

#[test]
fn unprintable_candidate_yields_no_kmi() {
    let mut chunk = b"5.10.101-android13".to_vec();
    chunk.push(1);
    let data = image(&[chunk.as_slice(), b"Linux version 5.10.101"]);
    let err = get_kmi(&data).unwrap_err();
    assert_eq!(err, KmiError::KmiMissing);
}

#[test]
fn space_between_version_and_android_breaks_the_match() {
    let data = image(&[b"5.10.101 android13", b"Linux version 5.10.101"]);
    let err = get_kmi(&data).unwrap_err();
    assert_eq!(err, KmiError::KmiMissing);
}

#[test]
fn first_candidate_with_a_match_wins() {
    let data = image(&[
        b"5.4.250-android11-2",
        b"5.10.101-android13-8",
        b"Linux version first",
        b"Linux version second",
    ]);
    let (kmi, kv) = get_kmi(&data).expect("both strings present");
    assert_eq!(kmi, "android11-5.4.250");
    assert_eq!(kv, "first");
}

#[test]
fn the_last_space_preceded_pair_wins_within_a_candidate() {
    let data = image(&[b"1.2-android3 4.5-android6", b"Linux version x"]);
    let (kmi, _) = get_kmi(&data).expect("both strings present");
    assert_eq!(kmi, "android6-4.5");
}

#[test]
fn without_a_space_preceded_pair_the_leftmost_match_wins() {
    let data = image(&[b"x1.2-android3", b"Linux version x"]);
    let (kmi, _) = get_kmi(&data).expect("both strings present");
    assert_eq!(kmi, "android3-1.2");
}

#[test]
fn android_must_follow_the_version_token() {
    let data = image(&[b"android13-5.10.101", b"Linux version x"]);
    let err = get_kmi(&data).unwrap_err();
    assert_eq!(err, KmiError::KmiMissing);
}

#[test]
fn version_token_needs_a_dot() {
    let data = image(&[b"510-android13", b"Linux version x"]);
    let err = get_kmi(&data).unwrap_err();
    assert_eq!(err, KmiError::KmiMissing);
}

#[test]
fn error_messages_name_the_missing_piece() {
    assert_eq!(
        KmiError::KmiMissing.message(),
        "Can't parse kmi from boot.img"
    );
    assert_eq!(
        KmiError::KernelVersionMissing.message(),
        "Can't parse kernel version from kernel"
    );
    assert_eq!(
        KmiError::BothMissing.message(),
        "Can't parse kmi and kernel version from boot.img"
    );
}
