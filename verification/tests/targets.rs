use lib_patcher::android::{
    android_ndk_home, android_ndk_host_tag, exe, get_android_toolchain, patch_android,
    AndroidError, Present,
};
use lib_patcher::command::Program;
use lib_patcher::linux::{cross_linker, get_linux_toolchain, patch_linux};
use lib_patcher::patch::{choose_os, choose_platform, patch_lib, PatchError, Platform};
use lib_patcher::target::{
    android_lld_emulation_args, apple_platform_version, linux_triplet_prefix, msvc_machine_type,
    target_os_from_triplet,
};

#[test]
fn triplet_dispatch_selects_the_right_os() {
    assert_eq!(target_os_from_triplet("x86_64-pc-windows-gnullvm"), Some("windows"));
    assert_eq!(target_os_from_triplet("x86_64-pc-windows-msvc"), Some("windows"));
    assert_eq!(target_os_from_triplet("aarch64-apple-ios"), Some("ios"));
    assert_eq!(target_os_from_triplet("aarch64-apple-ios-sim"), Some("ios"));
    assert_eq!(target_os_from_triplet("aarch64-apple-tvos"), Some("tvos"));
    assert_eq!(target_os_from_triplet("aarch64-apple-visionos"), Some("visionos"));
    assert_eq!(target_os_from_triplet("aarch64-apple-darwin"), Some("macos"));
    assert_eq!(target_os_from_triplet("x86_64-unknown-linux-gnu"), Some("linux"));
    assert_eq!(target_os_from_triplet("aarch64-linux-android"), Some("linux"));
    // An iOS Catalyst target is iOS, not macOS.
    assert_eq!(target_os_from_triplet("x86_64-apple-ios-macabi"), Some("ios"));
    // Unknown targets are left to the build and the host.
    assert_eq!(target_os_from_triplet("wasm32-unknown-unknown"), None);
}

#[test]
fn known_arches_map_to_gnu_triplet_prefixes() {
    assert_eq!(linux_triplet_prefix("aarch64"), Some("aarch64-linux-gnu"));
    assert_eq!(linux_triplet_prefix("arm64"), Some("aarch64-linux-gnu"));
    assert_eq!(linux_triplet_prefix("arm"), Some("arm-linux-gnueabihf"));
    assert_eq!(linux_triplet_prefix("x86_64"), Some("x86_64-linux-gnu"));
    assert_eq!(linux_triplet_prefix("i686"), Some("i686-linux-gnu"));
    assert_eq!(linux_triplet_prefix("riscv64"), Some("riscv64-linux-gnu"));
    assert_eq!(linux_triplet_prefix("s390x"), Some("s390x-linux-gnu"));
}

#[test]
fn unknown_arch_has_no_prefix_so_caller_uses_native_tools() {
    assert_eq!(linux_triplet_prefix("m68k"), None);
}

#[test]
fn further_arches_have_gnu_prefixes() {
    assert_eq!(linux_triplet_prefix("armv7"), Some("arm-linux-gnueabihf"));
    assert_eq!(linux_triplet_prefix("x86"), Some("i686-linux-gnu"));
    assert_eq!(linux_triplet_prefix("powerpc64"), Some("powerpc64-linux-gnu"));
    assert_eq!(linux_triplet_prefix("powerpc64le"), Some("powerpc64le-linux-gnu"));
}

#[test]
fn arch_maps_to_msvc_machine_type() {
    assert_eq!(msvc_machine_type("aarch64"), Some("ARM64"));
    assert_eq!(msvc_machine_type("arm64"), Some("ARM64"));
    assert_eq!(msvc_machine_type("x86_64"), Some("X64"));
    assert_eq!(msvc_machine_type("i686"), Some("X86"));
    assert_eq!(msvc_machine_type("arm"), Some("ARM"));
    // No machine type is asked for where none is known.
    assert_eq!(msvc_machine_type("mips"), None);
}

#[test]
fn lld_emulation_args_cover_android_arches() {
    assert_eq!(android_lld_emulation_args("aarch64"), ["-m", "aarch64elf"]);
    assert_eq!(android_lld_emulation_args("arm64"), ["-m", "aarch64elf"]);
    assert_eq!(android_lld_emulation_args("armv7"), ["-m", "armelf_linux_eabi"]);
    assert_eq!(android_lld_emulation_args("i686"), ["-m", "elf_i386"]);
    assert_eq!(android_lld_emulation_args("x86"), ["-m", "elf_i386"]);
    assert_eq!(android_lld_emulation_args("x86_64"), ["-m", "elf_x86_64"]);
    assert!(android_lld_emulation_args("mips64").is_empty());
}

#[test]
fn macos_default_baseline_depends_on_arch() {
    assert_eq!(apple_platform_version(None, "arm64"), ("macos", "11.0", "14.0"));
    assert_eq!(apple_platform_version(None, "x86_64"), ("macos", "10.13", "14.0"));
}

#[test]
fn ios_device_simulator_and_catalyst_are_distinguished() {
    assert_eq!(apple_platform_version(Some("aarch64-apple-ios"), "arm64").0, "ios");
    assert_eq!(
        apple_platform_version(Some("aarch64-apple-ios-sim"), "arm64").0,
        "ios-simulator"
    );
    assert_eq!(
        apple_platform_version(Some("x86_64-apple-ios-macabi"), "x86_64").0,
        "mac-catalyst"
    );
}

#[test]
fn intel_ios_and_tvos_triples_are_simulators_without_a_sim_suffix() {
    assert_eq!(
        apple_platform_version(Some("x86_64-apple-ios"), "x86_64").0,
        "ios-simulator"
    );
    assert_eq!(
        apple_platform_version(Some("x86_64-apple-tvos"), "x86_64").0,
        "tvos-simulator"
    );
    // The Intel Catalyst triplet is Catalyst all the same.
    assert_eq!(
        apple_platform_version(Some("x86_64-apple-ios-macabi"), "x86_64").0,
        "mac-catalyst"
    );
}

#[test]
fn tvos_and_visionos_map_to_ld_platform_names() {
    assert_eq!(apple_platform_version(Some("aarch64-apple-tvos"), "arm64").0, "tvos");
    assert_eq!(
        apple_platform_version(Some("aarch64-apple-tvos-sim"), "arm64").0,
        "tvos-simulator"
    );
    assert_eq!(apple_platform_version(Some("aarch64-apple-visionos"), "arm64").0, "xros");
    assert_eq!(
        apple_platform_version(Some("aarch64-apple-visionos-sim"), "arm64").0,
        "xros-simulator"
    );
}

#[test]
fn darwin_triplet_falls_through_to_macos_baseline() {
    assert_eq!(
        apple_platform_version(Some("aarch64-apple-darwin"), "arm64"),
        ("macos", "11.0", "14.0")
    );
    assert_eq!(
        apple_platform_version(Some("x86_64-apple-darwin"), "x86_64"),
        ("macos", "10.13", "14.0")
    );
}

#[test]
fn linux_uses_cross_tools_only_where_they_are_needed_and_there() {
    let native = ("ld".to_string(), "objcopy".to_string(), "ar".to_string());
    assert_eq!(get_linux_toolchain("x86_64", "x86_64", true), native);
    assert_eq!(get_linux_toolchain("m68k", "x86_64", true), native);
    assert_eq!(get_linux_toolchain("aarch64", "x86_64", false), native);
    assert_eq!(
        get_linux_toolchain("aarch64", "x86_64", true),
        (
            "aarch64-linux-gnu-ld".to_string(),
            "aarch64-linux-gnu-objcopy".to_string(),
            "aarch64-linux-gnu-ar".to_string()
        )
    );
    assert_eq!(
        cross_linker("aarch64", "x86_64"),
        Some("aarch64-linux-gnu-ld".to_string())
    );
    assert_eq!(cross_linker("x86_64", "x86_64"), None);
    assert_eq!(cross_linker("m68k", "x86_64"), None);
}

#[test]
fn linux_job_has_a_second_archiver() {
    let job = patch_linux("mylib", "mylib_", "riscv64", "x86_64", true);
    assert!(matches!(&job.tools.ld, Program::Named(p) if p == "riscv64-linux-gnu-ld"));
    assert!(matches!(&job.tools.readelf, Program::Named(p) if p == "readelf"));
    assert!(matches!(&job.tools.ar_fallback, Some(Program::Named(p)) if p == "llvm-ar"));
    assert!(job.tools.ld_pre_args.is_empty());
    assert_eq!(job.tools.label, "Linux");
    assert_eq!(job.keep_prefix, "mylib_");
}

#[test]
fn first_variable_that_is_not_empty_names_the_ndk() {
    assert_eq!(
        android_ndk_home(Some("/a"), Some("/b"), Some("/c")),
        Some("ANDROID_NDK_HOME")
    );
    assert_eq!(
        android_ndk_home(Some(""), Some("/b"), Some("/c")),
        Some("ANDROID_NDK_ROOT")
    );
    assert_eq!(android_ndk_home(None, Some(""), Some("/c")), Some("NDK_HOME"));
    assert_eq!(android_ndk_home(None, None, Some("")), None);
}

#[test]
fn ndk_tools_depend_on_the_host() {
    assert_eq!(android_ndk_host_tag("linux", "aarch64"), Some("linux-x86_64"));
    assert_eq!(android_ndk_host_tag("macos", "aarch64"), Some("darwin-arm64"));
    assert_eq!(android_ndk_host_tag("macos", "x86_64"), Some("darwin-x86_64"));
    assert_eq!(android_ndk_host_tag("windows", "x86_64"), Some("windows-x86_64"));
    assert_eq!(android_ndk_host_tag("freebsd", "x86_64"), None);
    assert_eq!(exe("ld.lld", "windows"), "ld.lld.exe");
    assert_eq!(exe("ld.lld", "linux"), "ld.lld");
}

#[test]
fn android_toolchain_needs_an_ndk_and_a_known_host() {
    assert!(matches!(
        get_android_toolchain(None, "linux", "x86_64"),
        Err(AndroidError::NoNdk)
    ));
    assert!(matches!(
        get_android_toolchain(Some("NDK_HOME"), "freebsd", "x86_64"),
        Err(AndroidError::UnsupportedHost)
    ));
    let tools = match get_android_toolchain(Some("NDK_HOME"), "windows", "x86_64") {
        Ok(tools) => tools,
        Err(_) => panic!("the host is known"),
    };
    assert_eq!(tools.bin, ["toolchains", "llvm", "prebuilt", "windows-x86_64", "bin"]);
    assert_eq!(tools.ld_lld, "ld.lld.exe");
    assert_eq!(tools.readelf, "llvm-readelf.exe");
    assert_eq!(tools.objcopy, "llvm-objcopy.exe");
    assert_eq!(tools.ar, "llvm-ar.exe");
}

#[test]
fn android_job_needs_every_tool() {
    let all = Present { ld_lld: true, readelf: true, objcopy: true, ar: true };
    let tools = get_android_toolchain(Some("NDK_HOME"), "linux", "x86_64");
    let job = match patch_android("lib", "p_", "aarch64", tools, all) {
        Ok(job) => job,
        Err(_) => panic!("all tools are there"),
    };
    assert_eq!(job.tools.ld_pre_args, ["-m", "aarch64elf"]);
    assert!(matches!(&job.tools.ld, Program::Ndk(p) if p == "ld.lld"));
    assert!(job.tools.ar_fallback.is_none());
    assert_eq!(job.tools.label, "Android");

    let some = Present { ld_lld: true, readelf: true, objcopy: false, ar: false };
    let tools = get_android_toolchain(Some("NDK_HOME"), "linux", "x86_64");
    match patch_android("lib", "p_", "aarch64", tools, some) {
        Err(AndroidError::ToolMissing(tool)) => assert_eq!(tool, "llvm-objcopy"),
        _ => panic!("a tool is missing"),
    }
    let none = get_android_toolchain(None, "linux", "x86_64");
    assert!(matches!(
        patch_android("lib", "p_", "aarch64", none, all),
        Err(AndroidError::NoNdk)
    ));
}

#[test]
fn triplet_decides_before_build_and_host() {
    assert_eq!(choose_os(Some("aarch64-apple-ios"), Some("linux"), "windows"), "ios");
    assert_eq!(choose_os(Some("wasm32-unknown-unknown"), Some("tvos"), "windows"), "tvos");
    assert_eq!(choose_os(None, None, "windows"), "windows");
    assert_eq!(choose_os(None, None, "macos"), "macos");
    assert_eq!(choose_os(None, None, "ios"), "ios");
    assert_eq!(choose_os(None, None, "freebsd"), "linux");
}

#[test]
fn every_system_has_a_platform() {
    assert_eq!(choose_platform("windows", None), Platform::Windows);
    assert_eq!(choose_platform("macos", None), Platform::Apple);
    assert_eq!(choose_platform("ios", None), Platform::Apple);
    assert_eq!(choose_platform("tvos", None), Platform::Apple);
    assert_eq!(choose_platform("visionos", None), Platform::Apple);
    assert_eq!(choose_platform("linux", None), Platform::Linux);
    assert_eq!(choose_platform("freebsd", None), Platform::Linux);
    assert_eq!(choose_platform("android", None), Platform::Android);
    assert_eq!(
        choose_platform("linux", Some("aarch64-linux-android")),
        Platform::Android
    );
    assert_eq!(
        choose_platform("linux", Some("x86_64-unknown-linux-gnu")),
        Platform::Linux
    );
}

#[test]
fn empty_prefix_is_rejected() {
    let refused = patch_lib("", Some("x86_64"), None, None, "linux", None);
    assert!(matches!(refused, Err(PatchError::EmptyPrefix)));
}

#[test]
fn plan_takes_the_given_architecture() {
    let plan = match patch_lib(
        "mylib_",
        Some("armv7"),
        Some("armv7-linux-androideabi"),
        None,
        "macos",
        None,
    ) {
        Ok(plan) => plan,
        Err(_) => panic!("the prefix is not empty"),
    };
    assert_eq!(plan.target_os, "linux");
    assert_eq!(plan.arch, "armv7");
    assert_eq!(plan.platform, Platform::Android);

    let plan = match patch_lib("mylib_", None, None, Some("windows"), "linux", None) {
        Ok(plan) => plan,
        Err(_) => panic!("the prefix is not empty"),
    };
    assert_eq!(plan.target_os, "windows");
    assert_eq!(plan.arch, "x86_64");
    assert_eq!(plan.platform, Platform::Windows);
}
