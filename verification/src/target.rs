//! Targets: operating systems, architectures, and the names that tools use for them.

use vstd::prelude::*;
use vstd::string::*;

use crate::text;
use crate::text::{contains, ends_with, same};

verus! {

/// The operating system that a target triplet identifies.
pub open spec fn os_of_triplet(triplet: Seq<char>) -> Option<Seq<char>> {
    if text::holds(triplet, "windows"@) {
        Some("windows"@)
    } else if text::holds(triplet, "apple-ios"@) {
        Some("ios"@)
    } else if text::holds(triplet, "apple-tvos"@) {
        Some("tvos"@)
    } else if text::holds(triplet, "apple-visionos"@) {
        Some("visionos"@)
    } else if text::holds(triplet, "apple"@) || text::holds(triplet, "darwin"@) {
        Some("macos"@)
    } else if text::holds(triplet, "linux"@) || text::holds(triplet, "android"@) {
        Some("linux"@)
    } else {
        None
    }
}

/// Maps a target triplet to the operating system for which a library is
/// patched, or to `None` where the triplet does not clearly identify one.
pub fn target_os_from_triplet(triplet: &str) -> (r: Option<&'static str>)
    ensures
        r.deep_view() == os_of_triplet(triplet@),
{
    if contains(triplet, "windows") {
        Some("windows")
    } else if contains(triplet, "apple-ios") {
        Some("ios")
    } else if contains(triplet, "apple-tvos") {
        Some("tvos")
    } else if contains(triplet, "apple-visionos") {
        Some("visionos")
    } else if contains(triplet, "apple") || contains(triplet, "darwin") {
        Some("macos")
    } else if contains(triplet, "linux") || contains(triplet, "android") {
        Some("linux")
    } else {
        None
    }
}

/// The prefix of the GNU cross tools for an architecture.
pub open spec fn gnu_prefix(arch: Seq<char>) -> Option<Seq<char>> {
    if arch == "aarch64"@ || arch == "arm64"@ {
        Some("aarch64-linux-gnu"@)
    } else if arch == "arm"@ || arch == "armv7"@ {
        Some("arm-linux-gnueabihf"@)
    } else if arch == "x86_64"@ {
        Some("x86_64-linux-gnu"@)
    } else if arch == "x86"@ || arch == "i686"@ {
        Some("i686-linux-gnu"@)
    } else if arch == "riscv64"@ {
        Some("riscv64-linux-gnu"@)
    } else if arch == "powerpc64"@ {
        Some("powerpc64-linux-gnu"@)
    } else if arch == "powerpc64le"@ {
        Some("powerpc64le-linux-gnu"@)
    } else if arch == "s390x"@ {
        Some("s390x-linux-gnu"@)
    } else {
        None
    }
}

/// Maps an architecture to the prefix of its GNU cross tools, or to `None`
/// where there is none, so that the native tools are used.
pub fn linux_triplet_prefix(target_arch: &str) -> (r: Option<&'static str>)
    ensures
        r.deep_view() == gnu_prefix(target_arch@),
{
    if same(target_arch, "aarch64") || same(target_arch, "arm64") {
        Some("aarch64-linux-gnu")
    } else if same(target_arch, "arm") || same(target_arch, "armv7") {
        Some("arm-linux-gnueabihf")
    } else if same(target_arch, "x86_64") {
        Some("x86_64-linux-gnu")
    } else if same(target_arch, "x86") || same(target_arch, "i686") {
        Some("i686-linux-gnu")
    } else if same(target_arch, "riscv64") {
        Some("riscv64-linux-gnu")
    } else if same(target_arch, "powerpc64") {
        Some("powerpc64-linux-gnu")
    } else if same(target_arch, "powerpc64le") {
        Some("powerpc64le-linux-gnu")
    } else if same(target_arch, "s390x") {
        Some("s390x-linux-gnu")
    } else {
        None
    }
}

/// The `/MACHINE` type of an architecture.
pub open spec fn machine_of(arch: Seq<char>) -> Option<Seq<char>> {
    if arch == "aarch64"@ || arch == "arm64"@ {
        Some("ARM64"@)
    } else if arch == "x86_64"@ {
        Some("X64"@)
    } else if arch == "x86"@ || arch == "i686"@ {
        Some("X86"@)
    } else if arch == "arm"@ {
        Some("ARM"@)
    } else {
        None
    }
}

/// Maps an architecture to its MSVC `/MACHINE` type, or to `None` where the
/// librarian is run without one.
pub fn msvc_machine_type(arch: &str) -> (r: Option<&'static str>)
    ensures
        r.deep_view() == machine_of(arch@),
{
    if same(arch, "aarch64") || same(arch, "arm64") {
        Some("ARM64")
    } else if same(arch, "x86_64") {
        Some("X64")
    } else if same(arch, "x86") || same(arch, "i686") {
        Some("X86")
    } else if same(arch, "arm") {
        Some("ARM")
    } else {
        None
    }
}

/// The emulation that `ld.lld` is asked for.
pub open spec fn lld_emulation(arch: Seq<char>) -> Option<Seq<char>> {
    if arch == "aarch64"@ || arch == "arm64"@ {
        Some("aarch64elf"@)
    } else if arch == "arm"@ || arch == "armv7"@ {
        Some("armelf_linux_eabi"@)
    } else if arch == "x86"@ || arch == "i686"@ {
        Some("elf_i386"@)
    } else if arch == "x86_64"@ {
        Some("elf_x86_64"@)
    } else {
        None
    }
}

/// The arguments that select the emulation of `ld.lld` for an architecture:
/// none where the architecture is not known.
pub fn android_lld_emulation_args(target_arch: &str) -> (r: Vec<&'static str>)
    ensures
        r.deep_view() == match lld_emulation(target_arch@) {
            Some(emulation) => seq!["-m"@, emulation],
            None => Seq::empty(),
        },
{
    let emulation: &'static str = if same(target_arch, "aarch64") || same(target_arch, "arm64") {
        "aarch64elf"
    } else if same(target_arch, "arm") || same(target_arch, "armv7") {
        "armelf_linux_eabi"
    } else if same(target_arch, "x86") || same(target_arch, "i686") {
        "elf_i386"
    } else if same(target_arch, "x86_64") {
        "elf_x86_64"
    } else {
        let none: Vec<&'static str> = Vec::new();
        assert(none.deep_view() =~= Seq::empty());
        return none;
    };
    let mut args: Vec<&'static str> = Vec::new();
    args.push("-m");
    args.push(emulation);
    assert(args.deep_view() =~= seq!["-m"@, emulation@]);
    args
}

/// The oldest macOS that a library for an architecture runs on.
pub open spec fn macos_baseline(arch: Seq<char>) -> (Seq<char>, Seq<char>, Seq<char>) {
    if arch == "arm64"@ {
        ("macos"@, "11.0"@, "14.0"@)
    } else {
        ("macos"@, "10.13"@, "14.0"@)
    }
}

/// The platform, the oldest version of it and the SDK version that the Apple
/// linker is told.
pub open spec fn apple_platform(
    triplet: Option<Seq<char>>,
    arch: Seq<char>,
) -> (Seq<char>, Seq<char>, Seq<char>) {
    match triplet {
        None => macos_baseline(arch),
        Some(t) => if text::holds(t, "apple-tvos"@) {
            if "-sim"@.is_suffix_of(t) || arch == "x86_64"@ {
                ("tvos-simulator"@, "15.0"@, "17.0"@)
            } else {
                ("tvos"@, "15.0"@, "17.0"@)
            }
        } else if text::holds(t, "apple-visionos"@) {
            if text::holds(t, "-sim"@) {
                ("xros-simulator"@, "1.0"@, "2.0"@)
            } else {
                ("xros"@, "1.0"@, "2.0"@)
            }
        } else if text::holds(t, "apple-ios"@) {
            if "-macabi"@.is_suffix_of(t) {
                ("mac-catalyst"@, "15.0"@, "17.0"@)
            } else if "-sim"@.is_suffix_of(t) || arch == "x86_64"@ {
                ("ios-simulator"@, "15.0"@, "17.0"@)
            } else {
                ("ios"@, "15.0"@, "17.0"@)
            }
        } else {
            macos_baseline(arch)
        },
    }
}

/// The arguments of `ld -platform_version` for an Apple target: the platform,
/// its oldest supported version, and the SDK version.
///
/// iOS and tvOS never ran on Intel devices, so an `x86_64` target of either is
/// the simulator though its triplet does not say so.
pub fn apple_platform_version(
    triplet: Option<&str>,
    arch: &str,
) -> (r: (&'static str, &'static str, &'static str))
    ensures
        r.deep_view() == apple_platform(triplet.deep_view(), arch@),
{
    if let Some(t) = triplet {
        if contains(t, "apple-tvos") {
            return if ends_with(t, "-sim") || same(arch, "x86_64") {
                ("tvos-simulator", "15.0", "17.0")
            } else {
                ("tvos", "15.0", "17.0")
            };
        }
        if contains(t, "apple-visionos") {
            return if contains(t, "-sim") {
                ("xros-simulator", "1.0", "2.0")
            } else {
                ("xros", "1.0", "2.0")
            };
        }
        if contains(t, "apple-ios") {
            return if ends_with(t, "-macabi") {
                ("mac-catalyst", "15.0", "17.0")
            } else if ends_with(t, "-sim") || same(arch, "x86_64") {
                ("ios-simulator", "15.0", "17.0")
            } else {
                ("ios", "15.0", "17.0")
            };
        }
    }
    if same(arch, "arm64") {
        ("macos", "11.0", "14.0")
    } else {
        ("macos", "10.13", "14.0")
    }
}

/// What a triplet says of the system: `windows` decides alone, then the Apple systems
/// by their names, then Apple at all, then Linux with Android.
pub proof fn systems_by_what_a_triplet_holds(triplet: Seq<char>)
    ensures
        text::holds(triplet, "windows"@) ==> os_of_triplet(triplet) == Some("windows"@),
        !text::holds(triplet, "windows"@) ==> {
            &&& text::holds(triplet, "apple-ios"@) ==> os_of_triplet(triplet) == Some("ios"@)
            &&& text::holds(triplet, "apple-tvos"@) && !text::holds(triplet, "apple-ios"@)
                ==> os_of_triplet(triplet) == Some("tvos"@)
            &&& text::holds(triplet, "apple-visionos"@) && !text::holds(triplet, "apple-ios"@)
                && !text::holds(triplet, "apple-tvos"@) ==> os_of_triplet(triplet) == Some(
                "visionos"@,
            )
            &&& !text::holds(triplet, "apple-ios"@) && !text::holds(triplet, "apple-tvos"@)
                && !text::holds(triplet, "apple-visionos"@) ==> {
                &&& text::holds(triplet, "apple"@) || text::holds(triplet, "darwin"@)
                    ==> os_of_triplet(triplet) == Some("macos"@)
                &&& !text::holds(triplet, "apple"@) && !text::holds(triplet, "darwin"@) ==> {
                    &&& text::holds(triplet, "linux"@) || text::holds(triplet, "android"@)
                        ==> os_of_triplet(triplet) == Some("linux"@)
                    &&& !text::holds(triplet, "linux"@) && !text::holds(triplet, "android"@)
                        ==> os_of_triplet(triplet) is None
                }
            }
        },
{
}

/// The known architectures, each with the prefix of its GNU tools. Others have none.
pub proof fn gnu_prefixes_of_architectures(arch: Seq<char>)
    ensures
        gnu_prefix("aarch64"@) == Some("aarch64-linux-gnu"@),
        gnu_prefix("arm64"@) == gnu_prefix("aarch64"@),
        gnu_prefix("arm"@) == Some("arm-linux-gnueabihf"@),
        gnu_prefix("armv7"@) == gnu_prefix("arm"@),
        gnu_prefix("x86_64"@) == Some("x86_64-linux-gnu"@),
        gnu_prefix("x86"@) == Some("i686-linux-gnu"@),
        gnu_prefix("i686"@) == gnu_prefix("x86"@),
        gnu_prefix("riscv64"@) == Some("riscv64-linux-gnu"@),
        gnu_prefix("powerpc64"@) == Some("powerpc64-linux-gnu"@),
        gnu_prefix("powerpc64le"@) == Some("powerpc64le-linux-gnu"@),
        gnu_prefix("s390x"@) == Some("s390x-linux-gnu"@),
        gnu_prefix(arch) is Some ==> set![
            "aarch64"@,
            "arm64"@,
            "arm"@,
            "armv7"@,
            "x86_64"@,
            "x86"@,
            "i686"@,
            "riscv64"@,
            "powerpc64"@,
            "powerpc64le"@,
            "s390x"@,
        ].contains(arch),
{
    lemma_architectures_differ();
}

/// The known architectures, each with its machine type. Others have none.
pub proof fn machine_types_of_architectures(arch: Seq<char>)
    ensures
        machine_of("aarch64"@) == Some("ARM64"@),
        machine_of("arm64"@) == machine_of("aarch64"@),
        machine_of("x86_64"@) == Some("X64"@),
        machine_of("x86"@) == Some("X86"@),
        machine_of("i686"@) == machine_of("x86"@),
        machine_of("arm"@) == Some("ARM"@),
        machine_of(arch) is Some ==> set![
            "aarch64"@,
            "arm64"@,
            "x86_64"@,
            "x86"@,
            "i686"@,
            "arm"@,
        ].contains(arch),
{
    lemma_architectures_differ();
}

/// The known architectures, each with the emulation of `ld.lld`. Others have none.
pub proof fn emulations_of_architectures(arch: Seq<char>)
    ensures
        lld_emulation("aarch64"@) == Some("aarch64elf"@),
        lld_emulation("arm64"@) == lld_emulation("aarch64"@),
        lld_emulation("arm"@) == Some("armelf_linux_eabi"@),
        lld_emulation("armv7"@) == lld_emulation("arm"@),
        lld_emulation("x86"@) == Some("elf_i386"@),
        lld_emulation("i686"@) == lld_emulation("x86"@),
        lld_emulation("x86_64"@) == Some("elf_x86_64"@),
        lld_emulation(arch) is Some ==> set![
            "aarch64"@,
            "arm64"@,
            "arm"@,
            "armv7"@,
            "x86"@,
            "i686"@,
            "x86_64"@,
        ].contains(arch),
{
    lemma_architectures_differ();
}

proof fn lemma_architectures_differ()
    ensures
        "aarch64"@.len() == 7,
        "arm64"@.len() == 5,
        "arm"@.len() == 3,
        "armv7"@.len() == 5,
        "x86_64"@.len() == 6,
        "x86"@.len() == 3,
        "i686"@.len() == 4,
        "riscv64"@.len() == 7,
        "powerpc64"@.len() == 9,
        "powerpc64le"@.len() == 11,
        "s390x"@.len() == 5,
        "aarch64"@ != "riscv64"@,
        "arm64"@ != "armv7"@,
        "arm64"@ != "s390x"@,
        "armv7"@ != "s390x"@,
        "arm"@ != "x86"@,
{
    reveal_strlit("aarch64");
    reveal_strlit("arm64");
    reveal_strlit("arm");
    reveal_strlit("armv7");
    reveal_strlit("x86_64");
    reveal_strlit("x86");
    reveal_strlit("i686");
    reveal_strlit("riscv64");
    reveal_strlit("powerpc64");
    reveal_strlit("powerpc64le");
    reveal_strlit("s390x");
    assert("aarch64"@[0] != "riscv64"@[0]);
    assert("arm64"@[3] != "armv7"@[3]);
    assert("arm64"@[0] != "s390x"@[0]);
    assert("armv7"@[0] != "s390x"@[0]);
    assert("arm"@[0] != "x86"@[0]);
}

/// The platform that the Apple linker is told, by what the triplet says and by the
/// architecture: the simulators of iOS and tvOS are those of Intel machines or are
/// named, visionOS says so anywhere, and what is none of these is macOS.
pub proof fn apple_platforms_by_triplet(t: Seq<char>, arch: Seq<char>)
    ensures
        text::holds(t, "apple-tvos"@) ==> apple_platform(Some(t), arch) == (
            if "-sim"@.is_suffix_of(t) || arch == "x86_64"@ {
                "tvos-simulator"@
            } else {
                "tvos"@
            },
            "15.0"@,
            "17.0"@,
        ),
        text::holds(t, "apple-visionos"@) && !text::holds(t, "apple-tvos"@) ==> apple_platform(
            Some(t),
            arch,
        ) == (
            if text::holds(t, "-sim"@) {
                "xros-simulator"@
            } else {
                "xros"@
            },
            "1.0"@,
            "2.0"@,
        ),
        text::holds(t, "apple-ios"@) && !text::holds(t, "apple-tvos"@) && !text::holds(
            t,
            "apple-visionos"@,
        ) ==> apple_platform(Some(t), arch) == (
            if "-macabi"@.is_suffix_of(t) {
                "mac-catalyst"@
            } else if "-sim"@.is_suffix_of(t) || arch == "x86_64"@ {
                "ios-simulator"@
            } else {
                "ios"@
            },
            "15.0"@,
            "17.0"@,
        ),
        !text::holds(t, "apple-tvos"@) && !text::holds(t, "apple-visionos"@) && !text::holds(
            t,
            "apple-ios"@,
        ) ==> apple_platform(Some(t), arch) == apple_platform(None, arch),
        arch == "arm64"@ ==> apple_platform(None, arch) == ("macos"@, "11.0"@, "14.0"@),
        arch != "arm64"@ ==> apple_platform(None, arch) == ("macos"@, "10.13"@, "14.0"@),
{
}

} // verus!
