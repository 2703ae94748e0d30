use vstd::prelude::*;

use crate::kmi::KmiError;
use crate::payload::DumpError;
use crate::utils::str_eq;

verus! {

/// Why a patch request fails.
#[derive(Debug)]
pub enum PatchError {
    /// The method token names no known method.
    InvalidMethodError,
    /// The partition token names no patchable partition.
    InvalidPartitionError,
    /// The method is recognized but deliberately not implemented.
    NotImplementedError,
    /// The underlying dump failed.
    Dump(DumpError),
    /// Unpacking the boot image failed, with the reason.
    UnpackError(String),
    /// The kernel image yields no KMI.
    KmiMissingError,
    /// The kernel image yields no kernel version.
    KernelVersionMissingError,
    /// The kernel image yields neither KMI nor kernel version.
    KmiAndKernelVersionMissingError,
    /// Launching the patch subprocess failed, with the reason.
    SubprocessError(String),
}

impl PatchError {
    /// The patch error that stands for a failed metadata scan.
    pub fn from_kmi_error(e: KmiError) -> (r: PatchError)
        ensures
            r == spec_patch_error_of_kmi(e),
    {
        match e {
            KmiError::KmiMissing => PatchError::KmiMissingError,
            KmiError::KernelVersionMissing => PatchError::KernelVersionMissingError,
            KmiError::BothMissing => PatchError::KmiAndKernelVersionMissingError,
        }
    }

    /// The message shown for this failure.
    pub fn message(self) -> (r: String)
        ensures
            self is InvalidMethodError ==> r@ == "Invalid patch method"@,
            self is InvalidPartitionError ==> r@ == "Invalid patch partition"@,
            self is NotImplementedError ==> r@ == "Magisk patch hasn't implemented!"@,
            self is Dump ==> r@ == self->Dump_0.spec_message(),
            self is UnpackError ==> r == self->UnpackError_0,
            self is SubprocessError ==> r == self->SubprocessError_0,
            self is KmiMissingError ==> r@ == KmiError::KmiMissing.spec_message(),
            self is KernelVersionMissingError ==> r@
                == KmiError::KernelVersionMissing.spec_message(),
            self is KmiAndKernelVersionMissingError ==> r@
                == KmiError::BothMissing.spec_message(),
    {
        match self {
            PatchError::InvalidMethodError => String::from_str("Invalid patch method"),
            PatchError::InvalidPartitionError => String::from_str("Invalid patch partition"),
            PatchError::NotImplementedError => String::from_str("Magisk patch hasn't implemented!"),
            PatchError::Dump(e) => e.message(),
            PatchError::UnpackError(m) => m,
            PatchError::KmiMissingError => String::from_str(KmiError::KmiMissing.message()),
            PatchError::KernelVersionMissingError => String::from_str(
                KmiError::KernelVersionMissing.message(),
            ),
            PatchError::KmiAndKernelVersionMissingError => String::from_str(
                KmiError::BothMissing.message(),
            ),
            PatchError::SubprocessError(m) => m,
        }
    }
}

pub open spec fn spec_patch_error_of_kmi(e: KmiError) -> PatchError {
    match e {
        KmiError::KmiMissing => PatchError::KmiMissingError,
        KmiError::KernelVersionMissing => PatchError::KernelVersionMissingError,
        KmiError::BothMissing => PatchError::KmiAndKernelVersionMissingError,
    }
}

/// How a boot image is patched.
#[derive(Clone, Copy, Debug, PartialEq, Eq, Structural)]
pub enum PatchMethod {
    KernelSU,
    Magisk,
}

impl PatchMethod {
    /// The canonical token of this method.
    pub open spec fn spec_str(&self) -> Seq<char> {
        match self {
            PatchMethod::KernelSU => "kernelsu"@,
            PatchMethod::Magisk => "magisk"@,
        }
    }

    /// Reads a method token; `kernelsu`, `ksu` and `k` name KernelSU,
    /// `magisk` and `m` name Magisk, and nothing else is accepted.
    pub fn from(s: &str) -> (r: Result<Self, PatchError>)
        ensures
            match r {
                Ok(m) => (m == PatchMethod::KernelSU <==> (s@ == "kernelsu"@ || s@ == "ksu"@ || s@
                    == "k"@)) && (m == PatchMethod::Magisk <==> (s@ == "magisk"@ || s@ == "m"@)),
                Err(e) => e is InvalidMethodError && s@ != "kernelsu"@ && s@ != "ksu"@ && s@
                    != "k"@ && s@ != "magisk"@ && s@ != "m"@,
            },
    {
        proof {
            reveal_strlit("kernelsu");
            reveal_strlit("ksu");
            reveal_strlit("k");
            reveal_strlit("magisk");
            reveal_strlit("m");
            assert("kernelsu"@.len() == 8 && "ksu"@.len() == 3 && "k"@.len() == 1 && "magisk"@.len()
                == 6 && "m"@.len() == 1);
            assert("k"@[0] == 'k' && "m"@[0] == 'm');
        }
        if str_eq(s, "kernelsu") || str_eq(s, "ksu") || str_eq(s, "k") {
            Ok(PatchMethod::KernelSU)
        } else if str_eq(s, "magisk") || str_eq(s, "m") {
            Ok(PatchMethod::Magisk)
        } else {
            Err(PatchError::InvalidMethodError)
        }
    }

    /// The canonical token of this method.
    pub fn to_string(&self) -> (r: String)
        ensures
            r@ == self.spec_str(),
    {
        match self {
            PatchMethod::KernelSU => String::from_str("kernelsu"),
            PatchMethod::Magisk => String::from_str("magisk"),
        }
    }
}

/// The boot-type partitions a patch can target.
#[derive(Clone, Copy, Debug, PartialEq, Eq, Structural)]
pub enum PatchPartition {
    Boot,
    InitBoot,
    VendorBoot,
}

impl PatchPartition {
    /// The canonical partition name of this target.
    pub open spec fn spec_name(&self) -> Seq<char> {
        match self {
            PatchPartition::Boot => "boot"@,
            PatchPartition::InitBoot => "init_boot"@,
            PatchPartition::VendorBoot => "vendor_boot"@,
        }
    }

    /// Reads a partition token; `boot`/`b`, `init_boot`/`ib` and
    /// `vendor_boot`/`vb` are the accepted spellings.
    pub fn from(s: &str) -> (r: Result<Self, PatchError>)
        ensures
            match r {
                Ok(p) => {
                    &&& p == PatchPartition::Boot <==> (s@ == "boot"@ || s@ == "b"@)
                    &&& p == PatchPartition::InitBoot <==> (s@ == "init_boot"@ || s@ == "ib"@)
                    &&& p == PatchPartition::VendorBoot <==> (s@ == "vendor_boot"@ || s@ == "vb"@)
                },
                Err(e) => e is InvalidPartitionError && s@ != "boot"@ && s@ != "b"@ && s@
                    != "init_boot"@ && s@ != "ib"@ && s@ != "vendor_boot"@ && s@ != "vb"@,
            },
    {
        proof {
            reveal_strlit("boot");
            reveal_strlit("b");
            reveal_strlit("init_boot");
            reveal_strlit("ib");
            reveal_strlit("vendor_boot");
            reveal_strlit("vb");
            assert("boot"@.len() == 4 && "b"@.len() == 1 && "init_boot"@.len() == 9 && "ib"@.len()
                == 2 && "vendor_boot"@.len() == 11 && "vb"@.len() == 2);
            assert("ib"@[0] == 'i' && "vb"@[0] == 'v');
        }
        if str_eq(s, "boot") || str_eq(s, "b") {
            Ok(PatchPartition::Boot)
        } else if str_eq(s, "init_boot") || str_eq(s, "ib") {
            Ok(PatchPartition::InitBoot)
        } else if str_eq(s, "vendor_boot") || str_eq(s, "vb") {
            Ok(PatchPartition::VendorBoot)
        } else {
            Err(PatchError::InvalidPartitionError)
        }
    }

    /// The canonical partition name of this target.
    pub fn get_partition_name(&self) -> (r: String)
        ensures
            r@ == self.spec_name(),
    {
        match self {
            PatchPartition::Boot => String::from_str("boot"),
            PatchPartition::InitBoot => String::from_str("init_boot"),
            PatchPartition::VendorBoot => String::from_str("vendor_boot"),
        }
    }
}

/// A validated patch request.
pub struct Patch {
    pub method: PatchMethod,
    pub partition: PatchPartition,
}

/// The artifact a successful patch leaves, beside the metadata
/// recovered from the kernel.  Its path lies inside the dump's temp
/// directory, which stays the caller's to remove.
#[derive(Debug)]
pub struct PatchedFile {
    pub path: String,
    pub kmi: String,
    pub kernel_version: String,
}

/// The comma-separated dump request a patch needs: the target partition
/// and the canonical boot partition.  The dump itself deduplicates the
/// two when they coincide.
pub fn patch_dump_arg(p: &PatchPartition) -> (r: String)
    ensures
        r@ == p.spec_name() + ","@ + "boot"@,
{
    let mut s = p.get_partition_name();
    s.append(",");
    s.append("boot");
    s
}

/// The arguments that unpack `boot.img` in place.
pub fn unpack_args() -> (r: Vec<String>)
    ensures
        r@.len() == 3,
        r@[0]@ == "unpack"@,
        r@[1]@ == "-n"@,
        r@[2]@ == "boot.img"@,
{
    let mut v: Vec<String> = Vec::new();
    v.push(String::from_str("unpack"));
    v.push(String::from_str("-n"));
    v.push(String::from_str("boot.img"));
    v
}

/// The output name a patched image is written under.
pub open spec fn spec_patched_name(
    method: PatchMethod,
    partition: PatchPartition,
    kmi: Seq<char>,
) -> Seq<char> {
    method.spec_str() + "_patched_"@ + partition.spec_name() + "-"@ + kmi + ".img"@
}

/// One subprocess invocation of the patch driver, ready for the caller
/// to run inside the dump's temp directory.
#[derive(Debug)]
pub struct PatchCommand {
    pub program: String,
    pub current_dir: String,
    pub args: Vec<String>,
    pub output_path: String,
}

impl Patch {
    /// The method gate that runs first, before anything is dumped: a
    /// Magisk request is recognized but refused as not implemented,
    /// whatever else the request holds; a KernelSU request passes.
    pub fn check_method(&self) -> (r: Result<(), PatchError>)
        ensures
            self.method is KernelSU <==> r is Ok,
            self.method is Magisk <==> (r matches Err(e) && e is NotImplementedError),
    {
        match self.method {
            PatchMethod::KernelSU => Ok(()),
            PatchMethod::Magisk => Err(PatchError::NotImplementedError),
        }
    }

    /// Decides what a patch request runs.  A Magisk request is
    /// recognized but always refused as not implemented, whatever the
    /// other inputs; a KernelSU request yields the exact `boot-patch`
    /// invocation and the path the patched image will appear under.
    pub fn plan(
        &self,
        dir: &str,
        ksud_path: &str,
        magiskboot_path: &str,
        kmi: &String,
    ) -> (r: Result<PatchCommand, PatchError>)
        ensures
            self.method is Magisk ==> (r matches Err(e) && e is NotImplementedError),
            self.method is KernelSU ==> (r matches Ok(c) && {
                &&& c.program@ == ksud_path@
                &&& c.current_dir@ == dir@
                &&& c.args@.len() == 9
                &&& c.args@[0]@ == "boot-patch"@
                &&& c.args@[1]@ == "-b"@
                &&& c.args@[2]@ == self.partition.spec_name() + ".img"@
                &&& c.args@[3]@ == "--magiskboot"@
                &&& c.args@[4]@ == magiskboot_path@
                &&& c.args@[5]@ == "--kmi"@
                &&& c.args@[6]@ == kmi@
                &&& c.args@[7]@ == "--out-name"@
                &&& c.args@[8]@ == spec_patched_name(self.method, self.partition, kmi@)
                &&& c.output_path@ == dir@ + "/"@ + spec_patched_name(
                    self.method,
                    self.partition,
                    kmi@,
                )
            }),
    {
        match self.method {
            PatchMethod::Magisk => Err(PatchError::NotImplementedError),
            PatchMethod::KernelSU => {
                let mut patched_name = self.method.to_string();
                patched_name.append("_patched_");
                let part = self.partition.get_partition_name();
                patched_name.append(part.as_str());
                patched_name.append("-");
                patched_name.append(kmi.as_str());
                patched_name.append(".img");
                let mut base_image = self.partition.get_partition_name();
                base_image.append(".img");
                let mut args: Vec<String> = Vec::new();
                args.push(String::from_str("boot-patch"));
                args.push(String::from_str("-b"));
                args.push(base_image);
                args.push(String::from_str("--magiskboot"));
                args.push(String::from_str(magiskboot_path));
                args.push(String::from_str("--kmi"));
                args.push(kmi.clone());
                args.push(String::from_str("--out-name"));
                args.push(patched_name.clone());
                let mut output_path = String::from_str(dir);
                output_path.append("/");
                output_path.append(patched_name.as_str());
                Ok(
                    PatchCommand {
                        program: String::from_str(ksud_path),
                        current_dir: String::from_str(dir),
                        args,
                        output_path,
                    },
                )
            },
        }
    }
}

} // verus!
