//! The tools for Linux libraries.

use vstd::prelude::*;
use vstd::string::*;

use crate::command::{Program, ProgramView};
use crate::elf::{ElfJob, ElfJobView, ElfToolchain, ToolchainView};
use crate::target;
use crate::target::linux_triplet_prefix;
use crate::text::{concat, same};

verus! {

/// The prefix of the cross tools for an architecture, where the host needs any and
/// some are known.
pub open spec fn cross_prefix(target_arch: Seq<char>, host_arch: Seq<char>) -> Option<Seq<char>> {
    if target_arch == host_arch {
        None
    } else {
        target::gnu_prefix(target_arch)
    }
}

/// The cross linker whose presence decides on the tools.
pub fn cross_linker(target_arch: &str, host_arch: &str) -> (r: Option<String>)
    ensures
        r.deep_view() == match cross_prefix(target_arch@, host_arch@) {
            Some(prefix) => Some(prefix + "-ld"@),
            None => None,
        },
{
    if same(target_arch, host_arch) {
        return None;
    }
    match linux_triplet_prefix(target_arch) {
        Some(prefix) => Some(concat(prefix, "-ld")),
        None => None,
    }
}

/// The linker, the objcopy and the archiver for an architecture. The tools of the
/// host serve where it has the same architecture, where no cross tools are known,
/// and where the cross linker is not there.
pub open spec fn linux_tools(
    target_arch: Seq<char>,
    host_arch: Seq<char>,
    cross_linker_runs: bool,
) -> (Seq<char>, Seq<char>, Seq<char>) {
    match cross_prefix(target_arch, host_arch) {
        Some(prefix) => if cross_linker_runs {
            (prefix + "-ld"@, prefix + "-objcopy"@, prefix + "-ar"@)
        } else {
            ("ld"@, "objcopy"@, "ar"@)
        },
        None => ("ld"@, "objcopy"@, "ar"@),
    }
}

/// Selects the linker, the objcopy and the archiver for an architecture.
pub fn get_linux_toolchain(
    target_arch: &str,
    host_arch: &str,
    cross_linker_runs: bool,
) -> (r: (String, String, String))
    ensures
        (r.0@, r.1@, r.2@) == linux_tools(target_arch@, host_arch@, cross_linker_runs),
{
    if !same(target_arch, host_arch) && cross_linker_runs {
        if let Some(prefix) = linux_triplet_prefix(target_arch) {
            return (concat(prefix, "-ld"), concat(prefix, "-objcopy"), concat(prefix, "-ar"));
        }
    }
    ("ld".to_owned(), "objcopy".to_owned(), "ar".to_owned())
}

/// The patching of a Linux library.
pub open spec fn linux_job(
    lib_name: Seq<char>,
    keep_prefix: Seq<char>,
    tools: (Seq<char>, Seq<char>, Seq<char>),
) -> ElfJobView {
    ElfJobView {
        lib_name,
        keep_prefix,
        tools: ToolchainView {
            ld: ProgramView::Named(tools.0),
            ld_pre_args: Seq::empty(),
            readelf: ProgramView::Named("readelf"@),
            objcopy: ProgramView::Named(tools.1),
            ar: ProgramView::Named(tools.2),
            ar_fallback: Some(ProgramView::Named("llvm-ar"@)),
            label: "Linux"@,
        },
    }
}

/// Prepares the patching of a Linux library. The symbol reader of the host reads
/// objects of every architecture, and `llvm-ar` steps in for the archiver.
pub fn patch_linux(
    lib_name: &str,
    keep_prefix: &str,
    target_arch: &str,
    host_arch: &str,
    cross_linker_runs: bool,
) -> (r: ElfJob)
    ensures
        r.deep_view() == linux_job(
            lib_name@,
            keep_prefix@,
            linux_tools(target_arch@, host_arch@, cross_linker_runs),
        ),
{
    let (ld, objcopy, ar) = get_linux_toolchain(target_arch, host_arch, cross_linker_runs);
    let none: Vec<String> = Vec::new();
    assert(none.deep_view() =~= Seq::empty());
    ElfJob {
        lib_name: lib_name.to_owned(),
        keep_prefix: keep_prefix.to_owned(),
        tools: ElfToolchain {
            ld: Program::Named(ld),
            ld_pre_args: none,
            readelf: Program::Named("readelf".to_owned()),
            objcopy: Program::Named(objcopy),
            ar: Program::Named(ar),
            ar_fallback: Some(Program::Named("llvm-ar".to_owned())),
            label: "Linux",
        },
    }
}

/// The three tools are of one kind: those of the host, or, where the host has another
/// architecture whose cross linker runs, those with its GNU prefix in front.
pub proof fn linux_tools_are_of_one_kind(
    target_arch: Seq<char>,
    host_arch: Seq<char>,
    cross_linker_runs: bool,
)
    ensures
        target_arch != host_arch && cross_linker_runs ==> (target::gnu_prefix(target_arch) matches
            Some(prefix) ==> linux_tools(target_arch, host_arch, cross_linker_runs) == (
            prefix + "-ld"@,
            prefix + "-objcopy"@,
            prefix + "-ar"@,
        )),
        target_arch == host_arch || !cross_linker_runs || target::gnu_prefix(target_arch) is None
            ==> linux_tools(target_arch, host_arch, cross_linker_runs) == (
            "ld"@,
            "objcopy"@,
            "ar"@,
        ),
        cross_prefix(target_arch, host_arch) == if target_arch == host_arch {
            None
        } else {
            target::gnu_prefix(target_arch)
        },
{
}

/// A Linux library is patched with the given tools, the symbol reader of the host, no
/// further arguments for the linker, and `llvm-ar` behind the archiver.
pub proof fn linux_libraries_use_the_given_tools(
    lib_name: Seq<char>,
    keep_prefix: Seq<char>,
    tools: (Seq<char>, Seq<char>, Seq<char>),
)
    ensures
        ({
            let job = linux_job(lib_name, keep_prefix, tools);
            &&& job.lib_name == lib_name
            &&& job.keep_prefix == keep_prefix
            &&& job.tools.ld == ProgramView::Named(tools.0)
            &&& job.tools.ld_pre_args.len() == 0
            &&& job.tools.readelf == ProgramView::Named("readelf"@)
            &&& job.tools.objcopy == ProgramView::Named(tools.1)
            &&& job.tools.ar == ProgramView::Named(tools.2)
            &&& job.tools.ar_fallback == Some(ProgramView::Named("llvm-ar"@))
            &&& job.tools.label == "Linux"@
        }),
{
}

} // verus!
