//! The tools for Android libraries, which are those of the Android NDK.

use vstd::prelude::*;
use vstd::string::*;

use crate::command::{Program, ProgramView};
use crate::elf::{ElfJob, ElfJobView, ElfToolchain, ToolchainView};
use crate::target;
use crate::target::android_lld_emulation_args;
use crate::text::{concat, same};

verus! {

/// Why an Android library cannot be patched.
pub enum AndroidError {
    /// No environment variable names an NDK.
    NoNdk,
    /// The NDK has no tools for the host.
    UnsupportedHost,
    /// The NDK lacks a tool.
    ToolMissing(String),
}

/// What an `AndroidError` says.
pub enum AndroidErrorView {
    NoNdk,
    UnsupportedHost,
    ToolMissing(Seq<char>),
}

impl DeepView for AndroidError {
    type V = AndroidErrorView;

    open spec fn deep_view(&self) -> AndroidErrorView {
        match self {
            AndroidError::NoNdk => AndroidErrorView::NoNdk,
            AndroidError::UnsupportedHost => AndroidErrorView::UnsupportedHost,
            AndroidError::ToolMissing(tool) => AndroidErrorView::ToolMissing(tool@),
        }
    }
}

/// Whether an environment variable is set to something.
pub open spec fn is_given(value: Option<&str>) -> bool {
    value matches Some(value) && value@.len() > 0
}

/// The environment variable that names the NDK: the first that is set and not
/// empty.
pub open spec fn ndk_variable(
    home: Option<&str>,
    root: Option<&str>,
    ndk_home: Option<&str>,
) -> Option<Seq<char>> {
    if is_given(home) {
        Some("ANDROID_NDK_HOME"@)
    } else if is_given(root) {
        Some("ANDROID_NDK_ROOT"@)
    } else if is_given(ndk_home) {
        Some("NDK_HOME"@)
    } else {
        None
    }
}

fn given(value: Option<&str>) -> (r: bool)
    ensures
        r == is_given(value),
{
    match value {
        Some(value) => value.unicode_len() > 0,
        None => false,
    }
}

/// Selects the environment variable that names the NDK, given the values of
/// `ANDROID_NDK_HOME`, `ANDROID_NDK_ROOT` and `NDK_HOME`.
pub fn android_ndk_home(
    home: Option<&str>,
    root: Option<&str>,
    ndk_home: Option<&str>,
) -> (r: Option<&'static str>)
    ensures
        r.deep_view() == ndk_variable(home, root, ndk_home),
{
    if given(home) {
        Some("ANDROID_NDK_HOME")
    } else if given(root) {
        Some("ANDROID_NDK_ROOT")
    } else if given(ndk_home) {
        Some("NDK_HOME")
    } else {
        None
    }
}

/// The directory of the NDK that holds the tools for a host.
pub open spec fn host_tag(host_os: Seq<char>, host_arch: Seq<char>) -> Option<Seq<char>> {
    if host_os == "linux"@ {
        Some("linux-x86_64"@)
    } else if host_os == "macos"@ {
        if host_arch == "aarch64"@ {
            Some("darwin-arm64"@)
        } else {
            Some("darwin-x86_64"@)
        }
    } else if host_os == "windows"@ {
        Some("windows-x86_64"@)
    } else {
        None
    }
}

/// Names the directory of the NDK that holds the tools for a host.
pub fn android_ndk_host_tag(host_os: &str, host_arch: &str) -> (r: Option<&'static str>)
    ensures
        r.deep_view() == host_tag(host_os@, host_arch@),
{
    if same(host_os, "linux") {
        Some("linux-x86_64")
    } else if same(host_os, "macos") {
        if same(host_arch, "aarch64") {
            Some("darwin-arm64")
        } else {
            Some("darwin-x86_64")
        }
    } else if same(host_os, "windows") {
        Some("windows-x86_64")
    } else {
        None
    }
}

/// The file name of a program on a host.
pub open spec fn exe_name(name: Seq<char>, host_os: Seq<char>) -> Seq<char> {
    if host_os == "windows"@ {
        name + ".exe"@
    } else {
        name
    }
}

/// Gives the file name of a program on a host.
pub fn exe(name: &str, host_os: &str) -> (r: String)
    ensures
        r@ == exe_name(name@, host_os@),
{
    if same(host_os, "windows") {
        concat(name, ".exe")
    } else {
        name.to_owned()
    }
}

/// The tools of the NDK.
pub struct AndroidToolchain {
    /// The directories that lead from the NDK to its tools.
    pub bin: Vec<String>,
    pub ld_lld: String,
    pub readelf: String,
    pub objcopy: String,
    pub ar: String,
}

/// What an `AndroidToolchain` says.
pub struct NdkView {
    pub bin: Seq<Seq<char>>,
    pub ld_lld: Seq<char>,
    pub readelf: Seq<char>,
    pub objcopy: Seq<char>,
    pub ar: Seq<char>,
}

impl DeepView for AndroidToolchain {
    type V = NdkView;

    open spec fn deep_view(&self) -> NdkView {
        NdkView {
            bin: self.bin.deep_view(),
            ld_lld: self.ld_lld@,
            readelf: self.readelf@,
            objcopy: self.objcopy@,
            ar: self.ar@,
        }
    }
}

/// The tools of the NDK for a host.
pub open spec fn ndk_tools(tag: Seq<char>, host_os: Seq<char>) -> NdkView {
    NdkView {
        bin: seq!["toolchains"@, "llvm"@, "prebuilt"@, tag, "bin"@],
        ld_lld: exe_name("ld.lld"@, host_os),
        readelf: exe_name("llvm-readelf"@, host_os),
        objcopy: exe_name("llvm-objcopy"@, host_os),
        ar: exe_name("llvm-ar"@, host_os),
    }
}

/// The tools for Android libraries, where an NDK is named and serves the host.
pub open spec fn android_tools(
    ndk: Option<Seq<char>>,
    host_os: Seq<char>,
    host_arch: Seq<char>,
) -> Result<NdkView, AndroidErrorView> {
    match ndk {
        None => Err(AndroidErrorView::NoNdk),
        Some(_) => match host_tag(host_os, host_arch) {
            Some(tag) => Ok(ndk_tools(tag, host_os)),
            None => Err(AndroidErrorView::UnsupportedHost),
        },
    }
}

/// What a selection of tools says.
pub open spec fn tools_view(
    tools: Result<AndroidToolchain, AndroidError>,
) -> Result<NdkView, AndroidErrorView> {
    match tools {
        Ok(tools) => Ok(tools.deep_view()),
        Err(error) => Err(error.deep_view()),
    }
}

/// Selects the tools for Android libraries, given the variable that names the NDK.
pub fn get_android_toolchain(ndk: Option<&str>, host_os: &str, host_arch: &str) -> (r: Result<
    AndroidToolchain,
    AndroidError,
>)
    ensures
        tools_view(r) == android_tools(ndk.deep_view(), host_os@, host_arch@),
{
    if ndk.is_none() {
        return Err(AndroidError::NoNdk);
    }
    let tag = match android_ndk_host_tag(host_os, host_arch) {
        Some(tag) => tag,
        None => {
            return Err(AndroidError::UnsupportedHost);
        },
    };
    let bin = vec![
        "toolchains".to_owned(),
        "llvm".to_owned(),
        "prebuilt".to_owned(),
        tag.to_owned(),
        "bin".to_owned(),
    ];
    assert(bin.deep_view() =~= seq!["toolchains"@, "llvm"@, "prebuilt"@, tag@, "bin"@]);
    Ok(
        AndroidToolchain {
            bin,
            ld_lld: exe("ld.lld", host_os),
            readelf: exe("llvm-readelf", host_os),
            objcopy: exe("llvm-objcopy", host_os),
            ar: exe("llvm-ar", host_os),
        },
    )
}

/// Which tools of the NDK are there.
#[derive(Clone, Copy)]
pub struct Present {
    pub ld_lld: bool,
    pub readelf: bool,
    pub objcopy: bool,
    pub ar: bool,
}

/// The first tool that is not there.
pub open spec fn missing_tool(tools: NdkView, present: Present) -> Option<Seq<char>> {
    if !present.ld_lld {
        Some(tools.ld_lld)
    } else if !present.readelf {
        Some(tools.readelf)
    } else if !present.objcopy {
        Some(tools.objcopy)
    } else if !present.ar {
        Some(tools.ar)
    } else {
        None
    }
}

fn first_missing(tools: &AndroidToolchain, present: Present) -> (r: Option<String>)
    ensures
        r.deep_view() == missing_tool(tools.deep_view(), present),
{
    if !present.ld_lld {
        Some(tools.ld_lld.clone())
    } else if !present.readelf {
        Some(tools.readelf.clone())
    } else if !present.objcopy {
        Some(tools.objcopy.clone())
    } else if !present.ar {
        Some(tools.ar.clone())
    } else {
        None
    }
}

/// The arguments that select an emulation of the linker.
pub open spec fn emulation_args(target_arch: Seq<char>) -> Seq<Seq<char>> {
    match target::lld_emulation(target_arch) {
        Some(emulation) => seq!["-m"@, emulation],
        None => Seq::empty(),
    }
}

/// The patching of an Android library.
pub open spec fn android_job(
    lib_name: Seq<char>,
    keep_prefix: Seq<char>,
    target_arch: Seq<char>,
    tools: NdkView,
) -> ElfJobView {
    ElfJobView {
        lib_name,
        keep_prefix,
        tools: ToolchainView {
            ld: ProgramView::Ndk(tools.ld_lld),
            ld_pre_args: emulation_args(target_arch),
            readelf: ProgramView::Ndk(tools.readelf),
            objcopy: ProgramView::Ndk(tools.objcopy),
            ar: ProgramView::Ndk(tools.ar),
            ar_fallback: None,
            label: "Android"@,
        },
    }
}

/// What a preparation says.
pub open spec fn job_view(job: Result<ElfJob, AndroidError>) -> Result<
    ElfJobView,
    AndroidErrorView,
> {
    match job {
        Ok(job) => Ok(job.deep_view()),
        Err(error) => Err(error.deep_view()),
    }
}

/// The patching of an Android library, or why there is none.
pub open spec fn preparation(
    lib_name: Seq<char>,
    keep_prefix: Seq<char>,
    target_arch: Seq<char>,
    tools: Result<NdkView, AndroidErrorView>,
    present: Present,
) -> Result<ElfJobView, AndroidErrorView> {
    match tools {
        Err(error) => Err(error),
        Ok(ndk) => match missing_tool(ndk, present) {
            Some(tool) => Err(AndroidErrorView::ToolMissing(tool)),
            None => Ok(android_job(lib_name, keep_prefix, target_arch, ndk)),
        },
    }
}

/// Prepares the patching of an Android library with the tools of the NDK, all of
/// which must be there.
pub fn patch_android(
    lib_name: &str,
    keep_prefix: &str,
    target_arch: &str,
    tools: Result<AndroidToolchain, AndroidError>,
    present: Present,
) -> (r: Result<ElfJob, AndroidError>)
    ensures
        job_view(r) == preparation(
            lib_name@,
            keep_prefix@,
            target_arch@,
            tools_view(tools),
            present,
        ),
{
    let ndk = match tools {
        Ok(ndk) => ndk,
        Err(error) => {
            return Err(error);
        },
    };
    if let Some(tool) = first_missing(&ndk, present) {
        return Err(AndroidError::ToolMissing(tool));
    }
    let args = android_lld_emulation_args(target_arch);
    let mut ld_pre_args: Vec<String> = Vec::new();
    let n: usize = args.len();
    for i in 0..n
        invariant
            n == args@.len(),
            ld_pre_args.deep_view() =~= args.deep_view().take(i as int),
    {
        let ghost before = ld_pre_args.deep_view();
        ld_pre_args.push(args[i].to_owned());
        assert(ld_pre_args.deep_view() =~= before.push(args@[i as int]@));
    }
    assert(args.deep_view().take(n as int) =~= args.deep_view());
    Ok(
        ElfJob {
            lib_name: lib_name.to_owned(),
            keep_prefix: keep_prefix.to_owned(),
            tools: ElfToolchain {
                ld: Program::Ndk(ndk.ld_lld),
                ld_pre_args,
                readelf: Program::Ndk(ndk.readelf),
                objcopy: Program::Ndk(ndk.objcopy),
                ar: Program::Ndk(ndk.ar),
                ar_fallback: None,
                label: "Android",
            },
        },
    )
}

/// The NDK is named by the first of three variables that is set and not empty.
pub proof fn the_first_variable_that_is_set_names_the_ndk(
    home: Option<&str>,
    root: Option<&str>,
    ndk_home: Option<&str>,
)
    ensures
        ({
            let first = home is Some && home->0@.len() > 0;
            let second = root is Some && root->0@.len() > 0;
            let third = ndk_home is Some && ndk_home->0@.len() > 0;
            let named = ndk_variable(home, root, ndk_home);
            &&& first ==> named == Some("ANDROID_NDK_HOME"@)
            &&& !first && second ==> named == Some("ANDROID_NDK_ROOT"@)
            &&& !first && !second && third ==> named == Some("NDK_HOME"@)
            &&& !first && !second && !third ==> named is None
        }),
{
}

/// The tools of the NDK lie in the directory for the host, and have the names that
/// programs have on it.
pub proof fn ndk_tools_are_those_for_the_host(
    variable: Seq<char>,
    host_os: Seq<char>,
    host_arch: Seq<char>,
)
    ensures
        android_tools(None, host_os, host_arch) == Err::<NdkView, AndroidErrorView>(
            AndroidErrorView::NoNdk,
        ),
        android_tools(Some(variable), host_os, host_arch) is Ok <==> host_os == "linux"@ || host_os
            == "macos"@ || host_os == "windows"@,
        android_tools(Some(variable), host_os, host_arch) matches Err(error) ==> error
            == AndroidErrorView::UnsupportedHost,
        android_tools(Some(variable), host_os, host_arch) matches Ok(tools) ==> {
            let extension = if host_os == "windows"@ {
                ".exe"@
            } else {
                Seq::empty()
            };
            &&& tools.bin.len() == 5
            &&& tools.bin[0] == "toolchains"@
            &&& tools.bin[1] == "llvm"@
            &&& tools.bin[2] == "prebuilt"@
            &&& host_os == "linux"@ ==> tools.bin[3] == "linux-x86_64"@
            &&& host_os == "windows"@ ==> tools.bin[3] == "windows-x86_64"@
            &&& host_os == "macos"@ ==> tools.bin[3] == if host_arch == "aarch64"@ {
                "darwin-arm64"@
            } else {
                "darwin-x86_64"@
            }
            &&& tools.bin[4] == "bin"@
            &&& tools.ld_lld == "ld.lld"@ + extension
            &&& tools.readelf == "llvm-readelf"@ + extension
            &&& tools.objcopy == "llvm-objcopy"@ + extension
            &&& tools.ar == "llvm-ar"@ + extension
        },
{
    reveal_strlit("linux");
    reveal_strlit("macos");
    reveal_strlit("windows");
    assert("linux"@[0] != "macos"@[0]);
    if host_os != "windows"@ {
        let none = Seq::<char>::empty();
        assert("ld.lld"@ + none =~= "ld.lld"@);
        assert("llvm-readelf"@ + none =~= "llvm-readelf"@);
        assert("llvm-objcopy"@ + none =~= "llvm-objcopy"@);
        assert("llvm-ar"@ + none =~= "llvm-ar"@);
    }
}

/// A tool is found missing exactly where one is, and it is the first that is.
pub proof fn the_first_missing_tool_is_named(tools: NdkView, present: Present)
    ensures
        missing_tool(tools, present) is None <==> present.ld_lld && present.readelf
            && present.objcopy && present.ar,
        !present.ld_lld ==> missing_tool(tools, present) == Some(tools.ld_lld),
        present.ld_lld && !present.readelf ==> missing_tool(tools, present) == Some(tools.readelf),
        present.ld_lld && present.readelf && !present.objcopy ==> missing_tool(tools, present)
            == Some(tools.objcopy),
        present.ld_lld && present.readelf && present.objcopy && !present.ar ==> missing_tool(
            tools,
            present,
        ) == Some(tools.ar),
{
}

/// An Android library is patched with the tools of the NDK and nothing else, and the
/// linker is told the emulation of the architecture where that is known.
pub proof fn android_libraries_use_the_ndk(
    lib_name: Seq<char>,
    keep_prefix: Seq<char>,
    target_arch: Seq<char>,
    tools: NdkView,
)
    ensures
        ({
            let job = android_job(lib_name, keep_prefix, target_arch, tools);
            &&& job.lib_name == lib_name
            &&& job.keep_prefix == keep_prefix
            &&& job.tools.ld == ProgramView::Ndk(tools.ld_lld)
            &&& job.tools.readelf == ProgramView::Ndk(tools.readelf)
            &&& job.tools.objcopy == ProgramView::Ndk(tools.objcopy)
            &&& job.tools.ar == ProgramView::Ndk(tools.ar)
            &&& job.tools.ar_fallback is None
            &&& job.tools.label == "Android"@
            &&& target::lld_emulation(target_arch) is Some ==> {
                &&& job.tools.ld_pre_args.len() == 2
                &&& job.tools.ld_pre_args[0] == "-m"@
                &&& job.tools.ld_pre_args[1] == target::lld_emulation(target_arch)->0
            }
            &&& target::lld_emulation(target_arch) is None ==> job.tools.ld_pre_args.len() == 0
        }),
{
}

/// Programs have an extension on Windows, and none elsewhere.
pub proof fn programs_by_host(name: Seq<char>, host_os: Seq<char>)
    ensures
        host_os == "windows"@ ==> exe_name(name, host_os) == name + ".exe"@,
        host_os != "windows"@ ==> exe_name(name, host_os) == name,
{
}

/// An Android library is prepared exactly where there are tools for it and all of them
/// are there; else the error of the selection, or the tool that is missing, is named.
pub proof fn preparation_needs_every_tool(
    lib_name: Seq<char>,
    keep_prefix: Seq<char>,
    target_arch: Seq<char>,
    ndk: NdkView,
    error: AndroidErrorView,
    present: Present,
)
    ensures
        preparation(lib_name, keep_prefix, target_arch, Err(error), present) == Err::<
            ElfJobView,
            AndroidErrorView,
        >(error),
        present.ld_lld && present.readelf && present.objcopy && present.ar ==> preparation(
            lib_name,
            keep_prefix,
            target_arch,
            Ok(ndk),
            present,
        ) == Ok::<ElfJobView, AndroidErrorView>(
            android_job(lib_name, keep_prefix, target_arch, ndk),
        ),
        !(present.ld_lld && present.readelf && present.objcopy && present.ar) ==> preparation(
            lib_name,
            keep_prefix,
            target_arch,
            Ok(ndk),
            present,
        ) == Err::<ElfJobView, AndroidErrorView>(
            AndroidErrorView::ToolMissing(
                if !present.ld_lld {
                    ndk.ld_lld
                } else if !present.readelf {
                    ndk.readelf
                } else if !present.objcopy {
                    ndk.objcopy
                } else {
                    ndk.ar
                },
            ),
        ),
{
}

} // verus!
