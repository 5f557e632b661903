//! The tools for COFF libraries: which are tried, in what order, and which one is
//! taken.

use vstd::prelude::*;
use vstd::string::*;

use crate::target;
use crate::target::msvc_machine_type;
use crate::text;
use crate::text::{lossy_text, trim};

verus! {

/// How to find out whether a tool is there.
#[derive(Clone, Copy, PartialEq, Eq, Debug, Structural)]
pub enum Probe {
    /// It can be run with the argument `/?`.
    Help,
    /// It can be run with the argument `--version`.
    Version,
    /// It is found on the search path.
    OnPath,
    /// The file exists.
    Exists,
}

/// A tool to look for.
pub struct Candidate {
    pub tool: &'static str,
    pub probe: Probe,
}

/// What a `Candidate` says.
pub struct CandidateView {
    pub tool: Seq<char>,
    pub probe: Probe,
}

impl DeepView for Candidate {
    type V = CandidateView;

    open spec fn deep_view(&self) -> CandidateView {
        CandidateView { tool: self.tool@, probe: self.probe }
    }
}

/// The first candidate for which the answer was yes. Candidates beyond the answers
/// were not asked about.
pub open spec fn first_yes(answers: Seq<bool>) -> Option<int>
    decreases answers.len(),
{
    if answers.len() == 0 {
        None
    } else {
        match first_yes(answers.drop_last()) {
            Some(i) => Some(i),
            None => if answers.last() {
                Some(answers.len() - 1)
            } else {
                None
            },
        }
    }
}

proof fn lemma_first_yes(answers: Seq<bool>, i: int)
    requires
        0 <= i < answers.len(),
        answers[i],
        forall|j: int| 0 <= j < i ==> !answers[j],
    ensures
        first_yes(answers) == Some(i),
    decreases answers.len(),
{
    let front = answers.drop_last();
    if i < front.len() {
        lemma_first_yes(front, i);
    } else {
        lemma_no_yes(front);
    }
}

proof fn lemma_no_yes(answers: Seq<bool>)
    requires
        forall|j: int| 0 <= j < answers.len() ==> !answers[j],
    ensures
        first_yes(answers) is None,
    decreases answers.len(),
{
    if answers.len() > 0 {
        lemma_no_yes(answers.drop_last());
    }
}

fn first_true(answers: &Vec<bool>) -> (r: Option<usize>)
    ensures
        match r {
            Some(i) => i < answers@.len() && first_yes(answers@) == Some(i as int),
            None => first_yes(answers@) is None,
        },
{
    let n: usize = answers.len();
    for i in 0..n
        invariant
            n == answers@.len(),
            forall|j: int| 0 <= j < i ==> !answers@[j],
    {
        if answers[i] {
            proof {
                lemma_first_yes(answers@, i as int);
            }
            return Some(i);
        }
    }
    proof {
        lemma_no_yes(answers@);
    }
    None
}

/// The archiver for a COFF library.
pub struct WindowsLibTool {
    /// The name or the path of the tool.
    pub tool: String,
    /// The machine type to ask for.
    pub machine_type: Option<String>,
    /// Whether the tool takes the arguments of `ar`, and not those of `lib.exe`.
    pub is_llvm: bool,
    /// Whether the tool can make import libraries.
    pub handles_import_members: bool,
}

/// What a `WindowsLibTool` says.
pub struct LibToolView {
    pub tool: Seq<char>,
    pub machine_type: Option<Seq<char>>,
    pub is_llvm: bool,
    pub handles_import_members: bool,
}

impl DeepView for WindowsLibTool {
    type V = LibToolView;

    open spec fn deep_view(&self) -> LibToolView {
        LibToolView {
            tool: self.tool@,
            machine_type: self.machine_type.deep_view(),
            is_llvm: self.is_llvm,
            handles_import_members: self.handles_import_members,
        }
    }
}

/// A tool to look for.
pub open spec fn candidate(tool: Seq<char>, probe: Probe) -> CandidateView {
    CandidateView { tool, probe }
}

/// The places of `llvm-lib`: the search path, and those where Visual Studio puts
/// it.
pub open spec fn llvm_lib_candidates() -> Seq<CandidateView> {
    seq![
        candidate("llvm-lib"@, Probe::Help),
        candidate(
            "C:\\Program Files\\Microsoft Visual Studio\\2022\\Community\\VC\\Tools\\Llvm\\x64\\bin\\llvm-lib.exe"@,
            Probe::Exists,
        ),
        candidate(
            "C:\\Program Files\\Microsoft Visual Studio\\2022\\Community\\VC\\Tools\\Llvm\\bin\\llvm-lib.exe"@,
            Probe::Exists,
        ),
        candidate(
            "C:\\Program Files\\Microsoft Visual Studio\\2022\\Enterprise\\VC\\Tools\\Llvm\\x64\\bin\\llvm-lib.exe"@,
            Probe::Exists,
        ),
        candidate(
            "C:\\Program Files\\Microsoft Visual Studio\\2022\\Professional\\VC\\Tools\\Llvm\\x64\\bin\\llvm-lib.exe"@,
            Probe::Exists,
        ),
    ]
}

/// The archivers to look for. Where import libraries have to be made, `llvm-lib`
/// comes before `lib.exe`; `llvm-ar`, which cannot make them, comes last.
pub open spec fn lib_candidates(need_import_support: bool) -> Seq<CandidateView> {
    let lib_exe = seq![candidate("lib.exe"@, Probe::Help)];
    let llvm_ar = seq![candidate("llvm-ar"@, Probe::Version)];
    if need_import_support {
        llvm_lib_candidates() + lib_exe + llvm_ar
    } else {
        lib_exe + llvm_lib_candidates() + llvm_ar
    }
}

fn add_llvm_lib(out: &mut Vec<Candidate>)
    ensures
        final(out).deep_view() == old(out).deep_view() + llvm_lib_candidates(),
{
    let ghost before = out.deep_view();
    out.push(Candidate { tool: "llvm-lib", probe: Probe::Help });
    out.push(
        Candidate {
            tool:
                "C:\\Program Files\\Microsoft Visual Studio\\2022\\Community\\VC\\Tools\\Llvm\\x64\\bin\\llvm-lib.exe",
            probe: Probe::Exists,
        },
    );
    out.push(
        Candidate {
            tool:
                "C:\\Program Files\\Microsoft Visual Studio\\2022\\Community\\VC\\Tools\\Llvm\\bin\\llvm-lib.exe",
            probe: Probe::Exists,
        },
    );
    out.push(
        Candidate {
            tool:
                "C:\\Program Files\\Microsoft Visual Studio\\2022\\Enterprise\\VC\\Tools\\Llvm\\x64\\bin\\llvm-lib.exe",
            probe: Probe::Exists,
        },
    );
    out.push(
        Candidate {
            tool:
                "C:\\Program Files\\Microsoft Visual Studio\\2022\\Professional\\VC\\Tools\\Llvm\\x64\\bin\\llvm-lib.exe",
            probe: Probe::Exists,
        },
    );
    assert(out.deep_view() =~= before + llvm_lib_candidates());
}

/// Lists the archivers to look for.
pub fn windows_lib_candidates(need_import_support: bool) -> (r: Vec<Candidate>)
    ensures
        r.deep_view() == lib_candidates(need_import_support),
{
    let mut out: Vec<Candidate> = Vec::new();
    assert(out.deep_view() =~= Seq::empty());
    if need_import_support {
        add_llvm_lib(&mut out);
        assert(out.deep_view() =~= llvm_lib_candidates());
        let ghost before = out.deep_view();
        out.push(Candidate { tool: "lib.exe", probe: Probe::Help });
        assert(out.deep_view() =~= before.push(candidate("lib.exe"@, Probe::Help)));
    } else {
        out.push(Candidate { tool: "lib.exe", probe: Probe::Help });
        assert(out.deep_view() =~= seq![candidate("lib.exe"@, Probe::Help)]);
        add_llvm_lib(&mut out);
    }
    let ghost before = out.deep_view();
    out.push(Candidate { tool: "llvm-ar", probe: Probe::Version });
    assert(out.deep_view() =~= before.push(candidate("llvm-ar"@, Probe::Version)));
    assert(out.deep_view() =~= lib_candidates(need_import_support));
    out
}

/// The architecture to build for: the one asked for, else that of the build, else
/// that of the host.
pub open spec fn target_architecture(
    target_arch: Option<Seq<char>>,
    build_arch: Option<Seq<char>>,
    host_arch: Seq<char>,
) -> Seq<char> {
    match target_arch {
        Some(arch) => arch,
        None => match build_arch {
            Some(arch) => arch,
            None => host_arch,
        },
    }
}

/// The archiver that a candidate stands for.
pub open spec fn lib_tool(candidate: CandidateView, arch: Seq<char>) -> LibToolView {
    LibToolView {
        tool: candidate.tool,
        machine_type: target::machine_of(arch),
        is_llvm: candidate.probe == Probe::Version,
        handles_import_members: candidate.probe != Probe::Version,
    }
}

/// The archiver that is taken, given the answers for the candidates.
pub open spec fn chosen_archiver(
    arch: Seq<char>,
    need_import_support: bool,
    answers: Seq<bool>,
) -> Option<LibToolView> {
    match first_yes(answers) {
        Some(i) => if i < lib_candidates(need_import_support).len() {
            Some(lib_tool(lib_candidates(need_import_support)[i], arch))
        } else {
            None
        },
        None => None,
    }
}

/// Selects the archiver, given for each candidate in turn whether it is there: the
/// first that is.
pub fn get_windows_lib_tool(
    target_arch: Option<&str>,
    build_arch: Option<&str>,
    host_arch: &str,
    need_import_support: bool,
    answers: &Vec<bool>,
) -> (r: Option<WindowsLibTool>)
    ensures
        r.deep_view() == chosen_archiver(
            target_architecture(target_arch.deep_view(), build_arch.deep_view(), host_arch@),
            need_import_support,
            answers@,
        ),
{
    let arch = match target_arch {
        Some(arch) => arch,
        None => match build_arch {
            Some(arch) => arch,
            None => host_arch,
        },
    };
    let candidates = windows_lib_candidates(need_import_support);
    let i: usize = match first_true(answers) {
        Some(i) => i,
        None => {
            return None;
        },
    };
    assert(candidates.deep_view().len() == candidates@.len());
    if i >= candidates.len() {
        return None;
    }
    let machine_type = match msvc_machine_type(arch) {
        Some(machine) => Some(machine.to_owned()),
        None => None,
    };
    let found = &candidates[i];
    assert(candidates.deep_view()[i as int] == found.deep_view());
    Some(
        WindowsLibTool {
            tool: found.tool.to_owned(),
            machine_type,
            is_llvm: found.probe == Probe::Version,
            handles_import_members: found.probe != Probe::Version,
        },
    )
}

/// The renaming tools to look for, before that of the Rust installation.
pub open spec fn rename_tool_candidates() -> Seq<CandidateView> {
    seq![
        candidate("llvm-objcopy"@, Probe::OnPath),
        candidate("rust-objcopy"@, Probe::OnPath),
        candidate(
            "C:\\Program Files\\Microsoft Visual Studio\\2022\\Community\\VC\\Tools\\Llvm\\x64\\bin\\llvm-objcopy.exe"@,
            Probe::Exists,
        ),
        candidate(
            "C:\\Program Files\\Microsoft Visual Studio\\2022\\Community\\VC\\Tools\\Llvm\\bin\\llvm-objcopy.exe"@,
            Probe::Exists,
        ),
        candidate(
            "C:\\Program Files\\Microsoft Visual Studio\\2022\\Enterprise\\VC\\Tools\\Llvm\\x64\\bin\\llvm-objcopy.exe"@,
            Probe::Exists,
        ),
        candidate(
            "C:\\Program Files\\Microsoft Visual Studio\\2022\\Professional\\VC\\Tools\\Llvm\\x64\\bin\\llvm-objcopy.exe"@,
            Probe::Exists,
        ),
    ]
}

/// Lists the renaming tools to look for.
pub fn objcopy_candidates() -> (r: Vec<Candidate>)
    ensures
        r.deep_view() == rename_tool_candidates(),
{
    let out = vec![
        Candidate { tool: "llvm-objcopy", probe: Probe::OnPath },
        Candidate { tool: "rust-objcopy", probe: Probe::OnPath },
        Candidate {
            tool:
                "C:\\Program Files\\Microsoft Visual Studio\\2022\\Community\\VC\\Tools\\Llvm\\x64\\bin\\llvm-objcopy.exe",
            probe: Probe::Exists,
        },
        Candidate {
            tool:
                "C:\\Program Files\\Microsoft Visual Studio\\2022\\Community\\VC\\Tools\\Llvm\\bin\\llvm-objcopy.exe",
            probe: Probe::Exists,
        },
        Candidate {
            tool:
                "C:\\Program Files\\Microsoft Visual Studio\\2022\\Enterprise\\VC\\Tools\\Llvm\\x64\\bin\\llvm-objcopy.exe",
            probe: Probe::Exists,
        },
        Candidate {
            tool:
                "C:\\Program Files\\Microsoft Visual Studio\\2022\\Professional\\VC\\Tools\\Llvm\\x64\\bin\\llvm-objcopy.exe",
            probe: Probe::Exists,
        },
    ];
    assert(out.deep_view() =~= rename_tool_candidates());
    out
}

/// What the search for a renaming tool came to.
pub enum RenameTool {
    /// A candidate, by its position.
    Candidate(usize),
    /// A file of the Rust installation: the position of its target, and its name.
    Bundled(usize, &'static str),
    /// None.
    Missing,
}

/// What a `RenameTool` says.
pub enum RenameToolView {
    Candidate(int),
    Bundled(int, Seq<char>),
    Missing,
}

impl DeepView for RenameTool {
    type V = RenameToolView;

    open spec fn deep_view(&self) -> RenameToolView {
        match self {
            RenameTool::Candidate(i) => RenameToolView::Candidate(*i as int),
            RenameTool::Bundled(i, name) => RenameToolView::Bundled(*i as int, name@),
            RenameTool::Missing => RenameToolView::Missing,
        }
    }
}

/// Which files a target of the Rust installation has: `rust-objcopy`, and
/// `rust-objcopy.exe`.
#[derive(Clone, Copy)]
pub struct Bundle {
    pub plain: bool,
    pub exe: bool,
}

/// The first file in the targets of the Rust installation.
pub open spec fn first_bundled(bundles: Seq<Bundle>) -> Option<(int, Seq<char>)>
    decreases bundles.len(),
{
    if bundles.len() == 0 {
        None
    } else {
        match first_bundled(bundles.drop_last()) {
            Some(found) => Some(found),
            None => if bundles.last().plain {
                Some((bundles.len() - 1, "rust-objcopy"@))
            } else if bundles.last().exe {
                Some((bundles.len() - 1, "rust-objcopy.exe"@))
            } else {
                None
            },
        }
    }
}

proof fn lemma_first_bundled(bundles: Seq<Bundle>, n: int)
    requires
        0 <= n <= bundles.len(),
        first_bundled(bundles.take(n)) is Some,
    ensures
        first_bundled(bundles) == first_bundled(bundles.take(n)),
    decreases bundles.len(),
{
    if n < bundles.len() {
        assert(bundles.drop_last().take(n) =~= bundles.take(n));
        lemma_first_bundled(bundles.drop_last(), n);
    } else {
        assert(bundles.take(n) =~= bundles);
    }
}

/// Finds the renaming tool in the targets of the Rust installation. The tool runs on
/// the host, so both spellings of its name are tried.
pub fn find_rust_objcopy_in_rustlib(bundles: &Vec<Bundle>) -> (r: Option<(usize, &'static str)>)
    ensures
        match r {
            Some(found) => first_bundled(bundles@) == Some((found.0 as int, found.1@)),
            None => first_bundled(bundles@) is None,
        },
{
    let n: usize = bundles.len();
    for i in 0..n
        invariant
            n == bundles@.len(),
            first_bundled(bundles@.take(i as int)) is None,
    {
        proof {
            assert(bundles@.take(i + 1).drop_last() =~= bundles@.take(i as int));
            if bundles@[i as int].plain || bundles@[i as int].exe {
                lemma_first_bundled(bundles@, i + 1);
            }
        }
        if bundles[i].plain {
            return Some((i, "rust-objcopy"));
        }
        if bundles[i].exe {
            return Some((i, "rust-objcopy.exe"));
        }
    }
    assert(bundles@.take(n as int) =~= bundles@);
    None
}

/// The renaming tool that is taken, given the answers for the candidates and what the
/// Rust installation has.
pub open spec fn chosen_renamer(answers: Seq<bool>, bundles: Seq<Bundle>) -> RenameToolView {
    match first_yes(answers) {
        Some(i) => RenameToolView::Candidate(i),
        None => match first_bundled(bundles) {
            Some(found) => RenameToolView::Bundled(found.0, found.1),
            None => RenameToolView::Missing,
        },
    }
}

/// Selects the renaming tool, given for each candidate in turn whether it is there,
/// and what the Rust installation has.
pub fn find_objcopy_tool(answers: &Vec<bool>, bundles: &Vec<Bundle>) -> (r: RenameTool)
    ensures
        r.deep_view() == chosen_renamer(answers@, bundles@),
{
    match first_true(answers) {
        Some(i) => RenameTool::Candidate(i),
        None => match find_rust_objcopy_in_rustlib(bundles) {
            Some((i, name)) => RenameTool::Bundled(i, name),
            None => RenameTool::Missing,
        },
    }
}

/// Reads the directory of the Rust installation from what `rustc` prints.
pub fn sysroot(output: &[u8]) -> (r: String)
    ensures
        r@ == text::trimmed_start(text::trimmed(text::lossy(output@))),
{
    let printed = lossy_text(output);
    trim(printed.as_str())
}

/// The answer that counts is the first yes; there is none exactly where all are no.
pub proof fn the_first_yes_counts(answers: Seq<bool>, i: int)
    ensures
        first_yes(answers) == Some(i) <==> 0 <= i < answers.len() && answers[i] && forall|j: int|
            0 <= j < i ==> !#[trigger] answers[j],
        first_yes(answers) is None <==> forall|j: int|
            0 <= j < answers.len() ==> !#[trigger] answers[j],
    decreases answers.len(),
{
    if answers.len() > 0 {
        let front = answers.drop_last();
        the_first_yes_counts(front, i);
        if let Some(k) = first_yes(front) {
            the_first_yes_counts(front, k);
            assert(answers[k] == front[k]);
        }
        assert forall|j: int| 0 <= j < front.len() implies front[j] == #[trigger] answers[j] by {}
        assert(answers.last() == answers[answers.len() - 1]);
    }
}

/// The archivers in the order in which they are looked for. The one of Microsoft comes
/// first, or behind all places of `llvm-lib` where import libraries have to be made,
/// and `llvm-ar` comes last.
pub proof fn archivers_in_their_order(need_import_support: bool)
    ensures
        lib_candidates(need_import_support).len() == 7,
        ({
            let all = lib_candidates(need_import_support);
            let lib_exe: int = if need_import_support {
                5
            } else {
                0
            };
            let llvm_lib: int = if need_import_support {
                0
            } else {
                1
            };
            &&& all[lib_exe].tool == "lib.exe"@
            &&& all[lib_exe].probe == Probe::Help
            &&& all[llvm_lib].tool == "llvm-lib"@
            &&& all[llvm_lib].probe == Probe::Help
            &&& all[llvm_lib + 1].tool
                == "C:\\Program Files\\Microsoft Visual Studio\\2022\\Community\\VC\\Tools\\Llvm\\x64\\bin\\llvm-lib.exe"@
            &&& all[llvm_lib + 2].tool
                == "C:\\Program Files\\Microsoft Visual Studio\\2022\\Community\\VC\\Tools\\Llvm\\bin\\llvm-lib.exe"@
            &&& all[llvm_lib + 3].tool
                == "C:\\Program Files\\Microsoft Visual Studio\\2022\\Enterprise\\VC\\Tools\\Llvm\\x64\\bin\\llvm-lib.exe"@
            &&& all[llvm_lib + 4].tool
                == "C:\\Program Files\\Microsoft Visual Studio\\2022\\Professional\\VC\\Tools\\Llvm\\x64\\bin\\llvm-lib.exe"@
            &&& forall|i: int|
                llvm_lib < i <= llvm_lib + 4 ==> (#[trigger] all[i]).probe == Probe::Exists
            &&& all[6].tool == "llvm-ar"@
            &&& all[6].probe == Probe::Version
        }),
{
}

/// Every archiver but `llvm-ar` takes the arguments of `lib.exe` and can make import
/// libraries, and all are told the machine type of the architecture.
pub proof fn archivers_by_what_they_can_do(need_import_support: bool, i: int, arch: Seq<char>)
    requires
        0 <= i < lib_candidates(need_import_support).len(),
    ensures
        ({
            let candidate = lib_candidates(need_import_support)[i];
            let tool = lib_tool(candidate, arch);
            &&& tool.tool == candidate.tool
            &&& tool.machine_type == target::machine_of(arch)
            &&& tool.is_llvm <==> i == 6
            &&& tool.handles_import_members <==> i < 6
        }),
{
}

/// The architecture asked for comes before that of the build, and that before the one
/// of the host.
pub proof fn the_architecture_asked_for_comes_first(
    asked: Seq<char>,
    build_arch: Option<Seq<char>>,
    host_arch: Seq<char>,
)
    ensures
        target_architecture(Some(asked), build_arch, host_arch) == asked,
        build_arch is Some ==> target_architecture(None, build_arch, host_arch) == build_arch->0,
        target_architecture(None, None, host_arch) == host_arch,
{
}

/// The renaming tools in the order in which they are looked for.
pub proof fn renaming_tools_in_their_order()
    ensures
        rename_tool_candidates().len() == 6,
        rename_tool_candidates()[0].tool == "llvm-objcopy"@,
        rename_tool_candidates()[0].probe == Probe::OnPath,
        rename_tool_candidates()[1].tool == "rust-objcopy"@,
        rename_tool_candidates()[1].probe == Probe::OnPath,
        rename_tool_candidates()[2].tool
            == "C:\\Program Files\\Microsoft Visual Studio\\2022\\Community\\VC\\Tools\\Llvm\\x64\\bin\\llvm-objcopy.exe"@,
        rename_tool_candidates()[3].tool
            == "C:\\Program Files\\Microsoft Visual Studio\\2022\\Community\\VC\\Tools\\Llvm\\bin\\llvm-objcopy.exe"@,
        rename_tool_candidates()[4].tool
            == "C:\\Program Files\\Microsoft Visual Studio\\2022\\Enterprise\\VC\\Tools\\Llvm\\x64\\bin\\llvm-objcopy.exe"@,
        rename_tool_candidates()[5].tool
            == "C:\\Program Files\\Microsoft Visual Studio\\2022\\Professional\\VC\\Tools\\Llvm\\x64\\bin\\llvm-objcopy.exe"@,
        forall|i: int|
            2 <= i < 6 ==> (#[trigger] rename_tool_candidates()[i]).probe == Probe::Exists,
{
}

/// The bundled renaming tool is that of the first target that has one, by the name
/// without an extension where both are there.
pub proof fn the_first_bundled_tool_counts(bundles: Seq<Bundle>, i: int)
    requires
        0 <= i <= bundles.len(),
        forall|j: int| 0 <= j < i ==> !(#[trigger] bundles[j]).plain && !bundles[j].exe,
    ensures
        i == bundles.len() ==> first_bundled(bundles) is None,
        i < bundles.len() && bundles[i].plain ==> first_bundled(bundles) == Some(
            (i, "rust-objcopy"@),
        ),
        i < bundles.len() && !bundles[i].plain && bundles[i].exe ==> first_bundled(bundles) == Some(
            (i, "rust-objcopy.exe"@),
        ),
    decreases bundles.len(),
{
    if bundles.len() > 0 {
        let front = bundles.drop_last();
        assert forall|j: int| 0 <= j < front.len() implies front[j] == #[trigger] bundles[j] by {}
        assert(bundles.last() == bundles[bundles.len() - 1]);
        if i < bundles.len() {
            the_first_bundled_tool_counts(front, i);
        } else {
            the_first_bundled_tool_counts(front, i - 1);
        }
    }
}

/// The archiver that is taken is the first that is there, with its abilities; none is
/// where none of the candidates is there.
pub proof fn the_first_archiver_is_taken(
    arch: Seq<char>,
    need_import_support: bool,
    answers: Seq<bool>,
    i: int,
)
    requires
        0 <= i <= answers.len(),
        forall|j: int| 0 <= j < i ==> !#[trigger] answers[j],
    ensures
        i == answers.len() || i >= 7 ==> chosen_archiver(
            arch,
            need_import_support,
            answers,
        ) is None,
        i < answers.len() && i < 7 && answers[i] ==> {
            let tool = chosen_archiver(arch, need_import_support, answers);
            &&& tool is Some
            &&& tool->0.tool == lib_candidates(need_import_support)[i].tool
            &&& tool->0.machine_type == target::machine_of(arch)
            &&& tool->0.is_llvm <==> i == 6
            &&& tool->0.handles_import_members <==> i < 6
        },
{
    the_first_yes_counts(answers, i);
    if let Some(k) = first_yes(answers) {
        the_first_yes_counts(answers, k);
    }
}

/// The renaming tool that is taken is the first candidate that is there; else the
/// first bundled one; else there is none.
pub proof fn candidates_come_before_bundled_tools(
    answers: Seq<bool>,
    bundles: Seq<Bundle>,
    i: int,
)
    ensures
        chosen_renamer(answers, bundles) == RenameToolView::Candidate(i) <==> 0 <= i < answers.len()
            && answers[i] && forall|j: int| 0 <= j < i ==> !#[trigger] answers[j],
        (forall|j: int| 0 <= j < answers.len() ==> !#[trigger] answers[j]) ==> {
            &&& first_bundled(bundles) is None <==> chosen_renamer(answers, bundles) is Missing
            &&& first_bundled(bundles) is Some ==> chosen_renamer(answers, bundles)
                == RenameToolView::Bundled(
                (first_bundled(bundles)->0).0,
                (first_bundled(bundles)->0).1,
            )
        },
{
    the_first_yes_counts(answers, i);
}

} // verus!
