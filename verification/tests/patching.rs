use payload_dump_bot::kmi::KmiError;
use payload_dump_bot::patch_boot::{
    patch_dump_arg, unpack_args, Patch, PatchError, PatchMethod, PatchPartition,
};
use payload_dump_bot::payload::DumpError;

#[test]
fn method_tokens_are_read_exactly() {
    assert_eq!(PatchMethod::from("kernelsu").unwrap(), PatchMethod::KernelSU);
    assert_eq!(PatchMethod::from("ksu").unwrap(), PatchMethod::KernelSU);
    assert_eq!(PatchMethod::from("k").unwrap(), PatchMethod::KernelSU);
    assert_eq!(PatchMethod::from("magisk").unwrap(), PatchMethod::Magisk);
    assert_eq!(PatchMethod::from("m").unwrap(), PatchMethod::Magisk);
    assert!(matches!(
        PatchMethod::from("kernel_su"),
        Err(PatchError::InvalidMethodError)
    ));
    assert!(matches!(
        PatchMethod::from(""),
        Err(PatchError::InvalidMethodError)
    ));
}

#[test]
fn partition_tokens_are_read_exactly() {
    assert_eq!(PatchPartition::from("boot").unwrap(), PatchPartition::Boot);
    assert_eq!(PatchPartition::from("b").unwrap(), PatchPartition::Boot);
    assert_eq!(
        PatchPartition::from("init_boot").unwrap(),
        PatchPartition::InitBoot
    );
    assert_eq!(PatchPartition::from("ib").unwrap(), PatchPartition::InitBoot);
    assert_eq!(
        PatchPartition::from("vendor_boot").unwrap(),
        PatchPartition::VendorBoot
    );
    assert_eq!(
        PatchPartition::from("vb").unwrap(),
        PatchPartition::VendorBoot
    );
    assert!(matches!(
        PatchPartition::from("recovery"),
        Err(PatchError::InvalidPartitionError)
    ));
}

#[test]
fn canonical_names_round_trip() {
    assert_eq!(PatchMethod::KernelSU.to_string(), "kernelsu");
    assert_eq!(PatchMethod::Magisk.to_string(), "magisk");
    assert_eq!(PatchPartition::Boot.get_partition_name(), "boot");
    assert_eq!(PatchPartition::InitBoot.get_partition_name(), "init_boot");
    assert_eq!(PatchPartition::VendorBoot.get_partition_name(), "vendor_boot");
}

#[test]
fn magisk_always_fails_as_not_implemented() {
    let kmi = String::from("android13-5.10");
    for dir in ["tmp/1", "", "not even a : path"] {
        let patch = Patch {
            method: PatchMethod::Magisk,
            partition: PatchPartition::InitBoot,
        };
        // The method gate refuses it before any dump, and the plan
        // refuses it too, whatever the other inputs hold.
        let err = patch.check_method().unwrap_err();
        assert!(matches!(err, PatchError::NotImplementedError));
        let err = patch.plan(dir, "bin/ksud", "bin/magiskboot", &kmi).unwrap_err();
        assert!(matches!(err, PatchError::NotImplementedError));
    }
}

#[test]
fn kernelsu_passes_the_method_gate() {
    let patch = Patch {
        method: PatchMethod::KernelSU,
        partition: PatchPartition::Boot,
    };
    assert!(patch.check_method().is_ok());
}

#[test]
fn kernelsu_plan_builds_the_exact_invocation() {
    let patch = Patch {
        method: PatchMethod::KernelSU,
        partition: PatchPartition::InitBoot,
    };
    let kmi = String::from("android13-5.10");
    let cmd = patch
        .plan("tmp/5", "bin/linux/x86_64/ksud", "bin/linux/x86_64/magiskboot", &kmi)
        .expect("kernelsu is implemented");
    assert_eq!(cmd.program, "bin/linux/x86_64/ksud");
    assert_eq!(cmd.current_dir, "tmp/5");
    let args: Vec<&str> = cmd.args.iter().map(|s| s.as_str()).collect();
    assert_eq!(
        args,
        vec![
            "boot-patch",
            "-b",
            "init_boot.img",
            "--magiskboot",
            "bin/linux/x86_64/magiskboot",
            "--kmi",
            "android13-5.10",
            "--out-name",
            "kernelsu_patched_init_boot-android13-5.10.img",
        ]
    );
    assert_eq!(
        cmd.output_path,
        "tmp/5/kernelsu_patched_init_boot-android13-5.10.img"
    );
}

#[test]
fn patch_dumps_the_target_and_the_boot_partition() {
    assert_eq!(patch_dump_arg(&PatchPartition::InitBoot), "init_boot,boot");
    assert_eq!(patch_dump_arg(&PatchPartition::Boot), "boot,boot");
    assert_eq!(patch_dump_arg(&PatchPartition::VendorBoot), "vendor_boot,boot");
}

#[test]
fn unpack_runs_in_place_on_the_boot_image() {
    let args = unpack_args();
    let got: Vec<&str> = args.iter().map(|s| s.as_str()).collect();
    assert_eq!(got, vec!["unpack", "-n", "boot.img"]);
}

#[test]
fn scan_failures_map_onto_the_patch_taxonomy() {
    assert!(matches!(
        PatchError::from_kmi_error(KmiError::KmiMissing),
        PatchError::KmiMissingError
    ));
    assert!(matches!(
        PatchError::from_kmi_error(KmiError::KernelVersionMissing),
        PatchError::KernelVersionMissingError
    ));
    assert!(matches!(
        PatchError::from_kmi_error(KmiError::BothMissing),
        PatchError::KmiAndKernelVersionMissingError
    ));
}

#[test]
fn patch_error_messages_carry_their_cause() {
    assert_eq!(
        PatchError::NotImplementedError.message(),
        "Magisk patch hasn't implemented!"
    );
    assert_eq!(PatchError::InvalidMethodError.message(), "Invalid patch method");
    assert_eq!(
        PatchError::UnpackError(String::from("exec failed")).message(),
        "exec failed"
    );
    assert_eq!(
        PatchError::SubprocessError(String::from("no such file")).message(),
        "no such file"
    );
    assert_eq!(
        PatchError::Dump(DumpError::ExtractError(String::from("short read"))).message(),
        "short read"
    );
    assert_eq!(
        PatchError::KmiMissingError.message(),
        "Can't parse kmi from boot.img"
    );
}
