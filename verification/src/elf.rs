//! Patching of ELF libraries: the objects are linked into one, every symbol
//! outside the interface is made local, and the object is archived again.

use vstd::prelude::*;
use vstd::string::*;

use crate::command::{
    text_arg, Action, ActionView, Arg, ArgView, FileRef, FileView, Invocation, InvocationView,
    Outcome, OutcomeView, Program, ProgramView,
};
use crate::keep;
use crate::keep::matches_keep_prefix;
use crate::lists;
use crate::text;
use crate::text::{concat, fields, join, lossy_text, same, starts_with};

verus! {

/// Whether a defined global symbol stays public: it belongs to the interface, or it
/// is one of those that DWARF, exception handling and the linker need.
pub open spec fn stays_public(name: Seq<char>, keep_prefix: Seq<char>) -> bool {
    ||| keep::is_api(name, keep_prefix)
    ||| "DW.ref."@.is_prefix_of(name)
    ||| "GCC_except_table"@.is_prefix_of(name)
    ||| "_GLOBAL_OFFSET_TABLE_"@.is_prefix_of(name)
    ||| "@"@.is_prefix_of(name)
}

/// Decides whether a defined global symbol stays public.
pub fn should_keep(symbol_name: &str, keep_prefix: &str) -> (r: bool)
    ensures
        r == stays_public(symbol_name@, keep_prefix@),
{
    matches_keep_prefix(symbol_name, keep_prefix) || starts_with(symbol_name, "DW.ref.")
        || starts_with(symbol_name, "GCC_except_table")
        || starts_with(symbol_name, "_GLOBAL_OFFSET_TABLE_")
        || starts_with(symbol_name, "@")
}

/// Whether a row of the symbol reader's output describes a defined global or weak
/// symbol. The columns are number, value, size, type, binding, visibility, section
/// and name; the visibility does not matter.
pub open spec fn is_definition_row(row: Seq<Seq<char>>) -> bool {
    &&& row.len() >= 8
    &&& row[4] == "GLOBAL"@ || row[4] == "WEAK"@
    &&& row[6] != "UND"@
    &&& row[7].len() > 0
}

/// Whether a row describes a symbol that has to be hidden.
pub open spec fn is_hidden_row(row: Seq<Seq<char>>, keep_prefix: Seq<char>) -> bool {
    is_definition_row(row) && !stays_public(row[7], keep_prefix)
}

/// The names to hide, in the order of the symbol reader's output.
pub open spec fn names_to_hide(output: Seq<char>, keep_prefix: Seq<char>) -> Seq<Seq<char>> {
    text::rows(output).filter(
        |row: Seq<Seq<char>>| is_hidden_row(row, keep_prefix),
    ).map_values(|row: Seq<Seq<char>>| row[7])
}

/// Reads the names of all symbols that have to be hidden from the output of the
/// symbol reader.
pub fn symbols_to_hide(readelf_output: &str, keep_prefix: &str) -> (r: Vec<String>)
    ensures
        r.deep_view() == names_to_hide(readelf_output@, keep_prefix@),
{
    let rows = fields(readelf_output);
    let ghost all = text::rows(readelf_output@);
    let ghost hidden = |row: Seq<Seq<char>>| is_hidden_row(row, keep_prefix@);
    let ghost name_of = |row: Seq<Seq<char>>| row[7];
    let mut out: Vec<String> = Vec::new();
    let n: usize = rows.len();
    proof {
        lists::lemma_filter_none(all, hidden);
        assert(out.deep_view() =~= all.take(0).filter(hidden).map_values(name_of));
    }
    for i in 0..n
        invariant
            n == rows@.len(),
            all == rows.deep_view(),
            hidden == |row: Seq<Seq<char>>| is_hidden_row(row, keep_prefix@),
            name_of == |row: Seq<Seq<char>>| row[7],
            out.deep_view() == all.take(i as int).filter(hidden).map_values(name_of),
    {
        let row = &rows[i];
        proof {
            lists::lemma_filter_step(all, i as int, hidden);
            assert(all[i as int] == row.deep_view());
        }
        if row.len() >= 8 {
            let bind = row[4].as_str();
            let name = row[7].as_str();
            if (same(bind, "GLOBAL") || same(bind, "WEAK")) && !same(row[6].as_str(), "UND")
                && name.unicode_len() > 0 && !should_keep(name, keep_prefix) {
                let ghost before = out.deep_view();
                out.push(row[7].clone());
                assert(out.deep_view() =~= before.push(row@[7]@));
                assert(row@[7]@ == name_of(all[i as int]));
                assert(out.deep_view() =~= all.take(i as int).filter(hidden).push(
                    all[i as int],
                ).map_values(name_of));
            }
        }
    }
    assert(all.take(n as int) =~= all);
    out
}

/// The tools of an ELF platform.
pub struct ElfToolchain {
    /// The linker.
    pub ld: Program,
    /// Arguments that the linker needs in front of all others.
    pub ld_pre_args: Vec<String>,
    /// The symbol reader.
    pub readelf: Program,
    /// The tool that makes symbols local.
    pub objcopy: Program,
    /// The archiver.
    pub ar: Program,
    /// The archiver to try where the other one fails.
    pub ar_fallback: Option<Program>,
    /// The name of the platform.
    pub label: &'static str,
}

/// What an `ElfToolchain` says.
pub struct ToolchainView {
    pub ld: ProgramView,
    pub ld_pre_args: Seq<Seq<char>>,
    pub readelf: ProgramView,
    pub objcopy: ProgramView,
    pub ar: ProgramView,
    pub ar_fallback: Option<ProgramView>,
    pub label: Seq<char>,
}

impl DeepView for ElfToolchain {
    type V = ToolchainView;

    open spec fn deep_view(&self) -> ToolchainView {
        ToolchainView {
            ld: self.ld.deep_view(),
            ld_pre_args: self.ld_pre_args.deep_view(),
            readelf: self.readelf.deep_view(),
            objcopy: self.objcopy.deep_view(),
            ar: self.ar.deep_view(),
            ar_fallback: self.ar_fallback.deep_view(),
            label: self.label@,
        }
    }
}

/// The patching of one ELF library.
pub struct ElfJob {
    /// The base of the names of temporary files.
    pub lib_name: String,
    pub keep_prefix: String,
    pub tools: ElfToolchain,
}

/// What an `ElfJob` says.
pub struct ElfJobView {
    pub lib_name: Seq<char>,
    pub keep_prefix: Seq<char>,
    pub tools: ToolchainView,
}

impl DeepView for ElfJob {
    type V = ElfJobView;

    open spec fn deep_view(&self) -> ElfJobView {
        ElfJobView {
            lib_name: self.lib_name@,
            keep_prefix: self.keep_prefix@,
            tools: self.tools.deep_view(),
        }
    }
}

/// Why an ELF library could not be patched.
pub enum ElfFailure {
    CannotRun(Program),
    LinkFailed(Program),
    ReadFailed(Program),
    CannotWriteList,
    LocalizeFailed(Program),
    CannotCopy,
    ArchiveFailed(Program),
    BothArchiversFailed(Program, Program),
}

/// What an `ElfFailure` says.
pub enum ElfFailureView {
    CannotRun(ProgramView),
    LinkFailed(ProgramView),
    ReadFailed(ProgramView),
    CannotWriteList,
    LocalizeFailed(ProgramView),
    CannotCopy,
    ArchiveFailed(ProgramView),
    BothArchiversFailed(ProgramView, ProgramView),
}

impl DeepView for ElfFailure {
    type V = ElfFailureView;

    open spec fn deep_view(&self) -> ElfFailureView {
        match self {
            ElfFailure::CannotRun(p) => ElfFailureView::CannotRun(p.deep_view()),
            ElfFailure::LinkFailed(p) => ElfFailureView::LinkFailed(p.deep_view()),
            ElfFailure::ReadFailed(p) => ElfFailureView::ReadFailed(p.deep_view()),
            ElfFailure::CannotWriteList => ElfFailureView::CannotWriteList,
            ElfFailure::LocalizeFailed(p) => ElfFailureView::LocalizeFailed(p.deep_view()),
            ElfFailure::CannotCopy => ElfFailureView::CannotCopy,
            ElfFailure::ArchiveFailed(p) => ElfFailureView::ArchiveFailed(p.deep_view()),
            ElfFailure::BothArchiversFailed(p, q) => ElfFailureView::BothArchiversFailed(
                p.deep_view(),
                q.deep_view(),
            ),
        }
    }
}

/// How far the patching of an ELF library has come. It starts with `Linking`.
pub enum ElfStage {
    /// The objects are linked into one.
    Linking,
    /// The symbols of that object are read.
    Reading,
    /// The names to hide are written down.
    Listing(Vec<String>),
    /// The symbols with those names are made local.
    Localizing,
    /// The list of names is removed.
    Unlisting,
    /// The object is taken as it is, since there is nothing to hide.
    Copying,
    /// The object is archived.
    Archiving,
    /// The object is archived with the other archiver.
    Retrying(Program),
    /// Temporary files are removed.
    Tidying,
    Done,
    Failed(ElfFailure),
}

/// What an `ElfStage` says.
pub enum ElfStageView {
    Linking,
    Reading,
    Listing(Seq<Seq<char>>),
    Localizing,
    Unlisting,
    Copying,
    Archiving,
    Retrying(ProgramView),
    Tidying,
    Done,
    Failed(ElfFailureView),
}

impl DeepView for ElfStage {
    type V = ElfStageView;

    open spec fn deep_view(&self) -> ElfStageView {
        match self {
            ElfStage::Linking => ElfStageView::Linking,
            ElfStage::Reading => ElfStageView::Reading,
            ElfStage::Listing(names) => ElfStageView::Listing(names.deep_view()),
            ElfStage::Localizing => ElfStageView::Localizing,
            ElfStage::Unlisting => ElfStageView::Unlisting,
            ElfStage::Copying => ElfStageView::Copying,
            ElfStage::Archiving => ElfStageView::Archiving,
            ElfStage::Retrying(p) => ElfStageView::Retrying(p.deep_view()),
            ElfStage::Tidying => ElfStageView::Tidying,
            ElfStage::Done => ElfStageView::Done,
            ElfStage::Failed(failure) => ElfStageView::Failed(failure.deep_view()),
        }
    }
}

/// The object that all objects of the library are linked into.
pub open spec fn linked(job: ElfJobView) -> FileView {
    FileView::Temp(job.lib_name + "_temp.o"@)
}

/// The object whose symbols outside the interface are local.
pub open spec fn localized(job: ElfJobView) -> FileView {
    FileView::Temp(job.lib_name + "_final.o"@)
}

/// The list of the names to hide.
pub open spec fn hidden_list(job: ElfJobView) -> FileView {
    FileView::Temp(job.lib_name + "_localize.txt"@)
}

/// A program that is run where the patcher was started.
pub open spec fn running(program: ProgramView, args: Seq<ArgView>) -> ActionView {
    ActionView::Run(InvocationView { program, args, among_objects: false })
}

/// The arguments that archive the finished object.
pub open spec fn archive_args(job: ElfJobView) -> Seq<ArgView> {
    seq![
        ArgView::Text("rcs"@),
        ArgView::Path(FileView::Output),
        ArgView::Path(localized(job)),
    ]
}

/// What is to be done at a stage.
pub open spec fn elf_action_at(job: ElfJobView, stage: ElfStageView) -> ActionView {
    match stage {
        ElfStageView::Linking => running(
            job.tools.ld,
            job.tools.ld_pre_args.map_values(|arg: Seq<char>| ArgView::Text(arg)) + seq![
                ArgView::Text("-r"@),
                ArgView::Text("-o"@),
                ArgView::Path(linked(job)),
                ArgView::Text("--whole-archive"@),
                ArgView::Path(FileView::Input),
            ],
        ),
        ElfStageView::Reading => running(
            job.tools.readelf,
            seq![ArgView::Text("-sW"@), ArgView::Path(linked(job))],
        ),
        ElfStageView::Listing(names) => ActionView::Write(
            hidden_list(job),
            text::joined(names, "\n"@),
        ),
        ElfStageView::Localizing => running(
            job.tools.objcopy,
            seq![
                ArgView::Text("--localize-symbols"@),
                ArgView::Path(hidden_list(job)),
                ArgView::Path(linked(job)),
                ArgView::Path(localized(job)),
            ],
        ),
        ElfStageView::Unlisting => ActionView::Remove(seq![hidden_list(job)]),
        ElfStageView::Copying => ActionView::Copy(linked(job), localized(job)),
        ElfStageView::Archiving => running(job.tools.ar, archive_args(job)),
        ElfStageView::Retrying(ar) => running(ar, archive_args(job)),
        ElfStageView::Tidying => ActionView::Remove(seq![linked(job), localized(job)]),
        ElfStageView::Done => ActionView::Nothing,
        ElfStageView::Failed(_) => ActionView::Nothing,
    }
}

fn temp(lib_name: &str, suffix: &str) -> (r: FileRef)
    ensures
        r.deep_view() == FileView::Temp(lib_name@ + suffix@),
{
    FileRef::Temp(concat(lib_name, suffix))
}

fn run(program: &Program, args: Vec<Arg>) -> (r: Action)
    ensures
        r.deep_view() == running(program.deep_view(), args.deep_view()),
{
    Action::Run(Invocation { program: program.copy(), args, among_objects: false })
}

fn ar_args(lib_name: &str) -> (r: Vec<Arg>)
    ensures
        r.deep_view() == seq![
            ArgView::Text("rcs"@),
            ArgView::Path(FileView::Output),
            ArgView::Path(FileView::Temp(lib_name@ + "_final.o"@)),
        ],
{
    let args = vec![text_arg("rcs"), Arg::Path(FileRef::Output), Arg::Path(
        temp(lib_name, "_final.o"),
    )];
    assert(args.deep_view() =~= seq![
        ArgView::Text("rcs"@),
        ArgView::Path(FileView::Output),
        ArgView::Path(FileView::Temp(lib_name@ + "_final.o"@)),
    ]);
    args
}

/// Says what is to be done at a stage.
pub fn elf_action(job: &ElfJob, stage: &ElfStage) -> (r: Action)
    ensures
        r.deep_view() == elf_action_at(job.deep_view(), stage.deep_view()),
{
    let name = job.lib_name.as_str();
    let ghost want = elf_action_at(job.deep_view(), stage.deep_view());
    match stage {
        ElfStage::Linking => {
            let mut args: Vec<Arg> = Vec::new();
            let n: usize = job.tools.ld_pre_args.len();
            let ghost given = job.tools.ld_pre_args.deep_view();
            let ghost as_arg = |arg: Seq<char>| ArgView::Text(arg);
            for i in 0..n
                invariant
                    n == job.tools.ld_pre_args@.len(),
                    given == job.tools.ld_pre_args.deep_view(),
                    as_arg == |arg: Seq<char>| ArgView::Text(arg),
                    args.deep_view() =~= given.take(i as int).map_values(as_arg),
            {
                let ghost before = args.deep_view();
                args.push(text_arg(job.tools.ld_pre_args[i].as_str()));
                assert(args.deep_view() =~= before.push(ArgView::Text(given[i as int])));
            }
            assert(given.take(n as int) =~= given);
            let ghost front = args.deep_view();
            args.push(text_arg("-r"));
            args.push(text_arg("-o"));
            args.push(Arg::Path(temp(name, "_temp.o")));
            args.push(text_arg("--whole-archive"));
            args.push(Arg::Path(FileRef::Input));
            assert(args.deep_view() =~= front + seq![
                ArgView::Text("-r"@),
                ArgView::Text("-o"@),
                ArgView::Path(linked(job.deep_view())),
                ArgView::Text("--whole-archive"@),
                ArgView::Path(FileView::Input),
            ]);
            run(&job.tools.ld, args)
        },
        ElfStage::Reading => {
            let args = vec![text_arg("-sW"), Arg::Path(temp(name, "_temp.o"))];
            assert(args.deep_view() =~= want->Run_0.args);
            run(&job.tools.readelf, args)
        },
        ElfStage::Listing(names) => Action::Write(temp(name, "_localize.txt"), join(names, "\n")),
        ElfStage::Localizing => {
            let args = vec![
                text_arg("--localize-symbols"),
                Arg::Path(temp(name, "_localize.txt")),
                Arg::Path(temp(name, "_temp.o")),
                Arg::Path(temp(name, "_final.o")),
            ];
            assert(args.deep_view() =~= want->Run_0.args);
            run(&job.tools.objcopy, args)
        },
        ElfStage::Unlisting => {
            let files = vec![temp(name, "_localize.txt")];
            assert(files.deep_view() =~= want->Remove_0);
            Action::Remove(files)
        },
        ElfStage::Copying => Action::Copy(temp(name, "_temp.o"), temp(name, "_final.o")),
        ElfStage::Archiving => run(&job.tools.ar, ar_args(name)),
        ElfStage::Retrying(ar) => run(ar, ar_args(name)),
        ElfStage::Tidying => {
            let files = vec![temp(name, "_temp.o"), temp(name, "_final.o")];
            assert(files.deep_view() =~= want->Remove_0);
            Action::Remove(files)
        },
        ElfStage::Done => Action::Nothing,
        ElfStage::Failed(_) => Action::Nothing,
    }
}

/// The stage that follows, given what came of the last action.
pub open spec fn elf_next(
    job: ElfJobView,
    stage: ElfStageView,
    outcome: OutcomeView,
) -> ElfStageView {
    let tools = job.tools;
    match stage {
        ElfStageView::Linking => if !outcome.started {
            ElfStageView::Failed(ElfFailureView::CannotRun(tools.ld))
        } else if !outcome.success {
            ElfStageView::Failed(ElfFailureView::LinkFailed(tools.ld))
        } else {
            ElfStageView::Reading
        },
        ElfStageView::Reading => if !outcome.started {
            ElfStageView::Failed(ElfFailureView::CannotRun(tools.readelf))
        } else if !outcome.success {
            ElfStageView::Failed(ElfFailureView::ReadFailed(tools.readelf))
        } else {
            let names = names_to_hide(text::lossy(outcome.output), job.keep_prefix);
            if names.len() == 0 {
                ElfStageView::Copying
            } else {
                ElfStageView::Listing(names)
            }
        },
        ElfStageView::Listing(_) => if outcome.started {
            ElfStageView::Localizing
        } else {
            ElfStageView::Failed(ElfFailureView::CannotWriteList)
        },
        ElfStageView::Localizing => if !outcome.started {
            ElfStageView::Failed(ElfFailureView::CannotRun(tools.objcopy))
        } else if !outcome.success {
            ElfStageView::Failed(ElfFailureView::LocalizeFailed(tools.objcopy))
        } else {
            ElfStageView::Unlisting
        },
        ElfStageView::Unlisting => ElfStageView::Archiving,
        ElfStageView::Copying => if outcome.started {
            ElfStageView::Archiving
        } else {
            ElfStageView::Failed(ElfFailureView::CannotCopy)
        },
        ElfStageView::Archiving => if outcome.ok() {
            ElfStageView::Tidying
        } else {
            match tools.ar_fallback {
                Some(ar) => ElfStageView::Retrying(ar),
                None => ElfStageView::Failed(ElfFailureView::ArchiveFailed(tools.ar)),
            }
        },
        ElfStageView::Retrying(ar) => if !outcome.started {
            ElfStageView::Failed(ElfFailureView::CannotRun(ar))
        } else if !outcome.success {
            ElfStageView::Failed(ElfFailureView::BothArchiversFailed(tools.ar, ar))
        } else {
            ElfStageView::Tidying
        },
        ElfStageView::Tidying => ElfStageView::Done,
        ElfStageView::Done => ElfStageView::Done,
        ElfStageView::Failed(failure) => ElfStageView::Failed(failure),
    }
}

/// Goes on with the patching of an ELF library after an action.
pub fn patch_elf(job: &ElfJob, stage: ElfStage, outcome: &Outcome) -> (r: ElfStage)
    ensures
        r.deep_view() == elf_next(job.deep_view(), stage.deep_view(), outcome.deep_view()),
{
    let tools = &job.tools;
    match stage {
        ElfStage::Linking => if !outcome.started {
            ElfStage::Failed(ElfFailure::CannotRun(tools.ld.copy()))
        } else if !outcome.success {
            ElfStage::Failed(ElfFailure::LinkFailed(tools.ld.copy()))
        } else {
            ElfStage::Reading
        },
        ElfStage::Reading => if !outcome.started {
            ElfStage::Failed(ElfFailure::CannotRun(tools.readelf.copy()))
        } else if !outcome.success {
            ElfStage::Failed(ElfFailure::ReadFailed(tools.readelf.copy()))
        } else {
            let symbols = lossy_text(outcome.output.as_slice());
            let names = symbols_to_hide(symbols.as_str(), job.keep_prefix.as_str());
            assert(names.deep_view().len() == names@.len());
            if names.len() == 0 {
                ElfStage::Copying
            } else {
                ElfStage::Listing(names)
            }
        },
        ElfStage::Listing(_) => if outcome.started {
            ElfStage::Localizing
        } else {
            ElfStage::Failed(ElfFailure::CannotWriteList)
        },
        ElfStage::Localizing => if !outcome.started {
            ElfStage::Failed(ElfFailure::CannotRun(tools.objcopy.copy()))
        } else if !outcome.success {
            ElfStage::Failed(ElfFailure::LocalizeFailed(tools.objcopy.copy()))
        } else {
            ElfStage::Unlisting
        },
        ElfStage::Unlisting => ElfStage::Archiving,
        ElfStage::Copying => if outcome.started {
            ElfStage::Archiving
        } else {
            ElfStage::Failed(ElfFailure::CannotCopy)
        },
        ElfStage::Archiving => if outcome.started && outcome.success {
            ElfStage::Tidying
        } else {
            match &tools.ar_fallback {
                Some(ar) => ElfStage::Retrying(ar.copy()),
                None => ElfStage::Failed(ElfFailure::ArchiveFailed(tools.ar.copy())),
            }
        },
        ElfStage::Retrying(ar) => if !outcome.started {
            ElfStage::Failed(ElfFailure::CannotRun(ar))
        } else if !outcome.success {
            ElfStage::Failed(ElfFailure::BothArchiversFailed(tools.ar.copy(), ar))
        } else {
            ElfStage::Tidying
        },
        ElfStage::Tidying => ElfStage::Done,
        ElfStage::Done => ElfStage::Done,
        ElfStage::Failed(failure) => ElfStage::Failed(failure),
    }
}

/// The leak check accepts what the keep rule keeps: a symbol that stays public is
/// an allowed global.
pub proof fn public_symbols_are_allowed(name: Seq<char>, keep_prefix: Seq<char>)
    requires
        stays_public(name, keep_prefix),
    ensures
        keep::is_allowed_global(name, keep_prefix),
{
    reveal_strlit("DW.ref.");
    reveal_strlit("GCC_except_table");
    reveal_strlit("_GLOBAL_OFFSET_TABLE_");
    reveal_strlit("GLOBAL_OFFSET_TABLE_");
    if "_GLOBAL_OFFSET_TABLE_"@.is_prefix_of(name) {
        let whole = "_GLOBAL_OFFSET_TABLE_"@;
        let part = "GLOBAL_OFFSET_TABLE_"@;
        assert(whole.skip(1) =~= part);
        assert(name[0] == whole[0]);
        assert forall|i: int| 0 <= i < part.len() implies keep::bare(name)[i] == part[i] by {
            assert(name[i + 1] == whole[i + 1]);
        }
        assert(part.is_prefix_of(keep::bare(name)));
    }
    if "DW.ref."@.is_prefix_of(name) {
        assert(name[0] == "DW.ref."@[0]);
    }
    if "GCC_except_table"@.is_prefix_of(name) {
        assert(name[0] == "GCC_except_table"@[0]);
    }
}

/// A name is hidden exactly where some row describes a defined global or weak
/// symbol of that name and the keep rule does not keep it.
pub proof fn hidden_names_are_the_definitions_not_kept(
    output: Seq<char>,
    keep_prefix: Seq<char>,
    name: Seq<char>,
)
    ensures
        names_to_hide(output, keep_prefix).contains(name) <==> !stays_public(name, keep_prefix)
            && exists|i: int|
            0 <= i < text::rows(output).len() && is_definition_row(
                #[trigger] text::rows(output)[i],
            ) && text::rows(output)[i][7] == name,
{
    let rows = text::rows(output);
    let hidden = |row: Seq<Seq<char>>| is_hidden_row(row, keep_prefix);
    let left = rows.filter(hidden);
    let names = names_to_hide(output, keep_prefix);
    if names.contains(name) {
        let k = choose|k: int| 0 <= k < names.len() && names[k] == name;
        assert(left.contains(left[k]));
        lists::lemma_filter_contains(rows, hidden, left[k]);
        let i = choose|i: int| 0 <= i < rows.len() && rows[i] == left[k];
        assert(is_definition_row(rows[i]));
    }
    if !stays_public(name, keep_prefix) && exists|i: int|
        0 <= i < rows.len() && is_definition_row(#[trigger] rows[i]) && rows[i][7] == name {
        let i = choose|i: int|
            0 <= i < rows.len() && is_definition_row(#[trigger] rows[i]) && rows[i][7] == name;
        lists::lemma_filter_contains(rows, hidden, rows[i]);
        assert(rows.contains(rows[i]));
        let k = choose|k: int| 0 <= k < left.len() && left[k] == rows[i];
        assert(names[k] == name);
    }
}

/// The interface is never hidden.
pub proof fn the_api_is_never_hidden(
    output: Seq<char>,
    keep_prefix: Seq<char>,
    name: Seq<char>,
)
    requires
        keep::is_api(name, keep_prefix),
    ensures
        !names_to_hide(output, keep_prefix).contains(name),
{
    hidden_names_are_the_definitions_not_kept(output, keep_prefix, name);
}

/// What is left public after hiding passes the leak check: a defined global or weak
/// symbol that is not hidden is an allowed global.
pub proof fn what_is_not_hidden_is_allowed(output: Seq<char>, keep_prefix: Seq<char>, i: int)
    requires
        0 <= i < text::rows(output).len(),
        is_definition_row(text::rows(output)[i]),
        !names_to_hide(output, keep_prefix).contains(text::rows(output)[i][7]),
    ensures
        keep::is_allowed_global(text::rows(output)[i][7], keep_prefix),
{
    let name = text::rows(output)[i][7];
    hidden_names_are_the_definitions_not_kept(output, keep_prefix, name);
    public_symbols_are_allowed(name, keep_prefix);
}

/// The stage that patching is at after the given outcomes.
pub open spec fn elf_after(job: ElfJobView, outcomes: Seq<OutcomeView>) -> ElfStageView
    decreases outcomes.len(),
{
    if outcomes.len() == 0 {
        ElfStageView::Linking
    } else {
        elf_next(job, elf_after(job, outcomes.drop_last()), outcomes.last())
    }
}

/// Whether nothing is left to be done.
pub open spec fn is_over(stage: ElfStageView) -> bool {
    stage is Done || stage is Failed
}

spec fn rank(stage: ElfStageView) -> int {
    match stage {
        ElfStageView::Linking => 0,
        ElfStageView::Reading => 1,
        ElfStageView::Listing(_) => 2,
        ElfStageView::Localizing => 3,
        ElfStageView::Unlisting => 4,
        ElfStageView::Copying => 4,
        ElfStageView::Archiving => 5,
        ElfStageView::Retrying(_) => 6,
        ElfStageView::Tidying => 7,
        ElfStageView::Done => 8,
        ElfStageView::Failed(_) => 8,
    }
}

proof fn lemma_rank(job: ElfJobView, outcomes: Seq<OutcomeView>)
    ensures
        rank(elf_after(job, outcomes)) >= outcomes.len() || is_over(elf_after(job, outcomes)),
    decreases outcomes.len(),
{
    if outcomes.len() > 0 {
        lemma_rank(job, outcomes.drop_last());
    }
}

/// Patching ends, with success or failure, after eight actions at the latest.
pub proof fn elf_patching_ends(job: ElfJobView, outcomes: Seq<OutcomeView>)
    requires
        outcomes.len() >= 8,
    ensures
        is_over(elf_after(job, outcomes)),
{
    lemma_rank(job, outcomes);
}

/// Whether the outcomes are those of linking, reading and hiding everything that
/// has to be hidden, each of them good.
pub open spec fn hid_everything(job: ElfJobView, outcomes: Seq<OutcomeView>) -> bool {
    &&& outcomes.len() >= 3
    &&& outcomes[0].ok()
    &&& outcomes[1].ok()
    &&& outcomes[2].started
    &&& names_to_hide(text::lossy(outcomes[1].output), job.keep_prefix).len() > 0
        ==> outcomes.len() >= 4 && outcomes[3].ok()
}

/// An object is archived only after everything that has to be hidden was hidden,
/// and patching succeeds only where an archiver succeeded.
pub proof fn archives_only_what_is_hidden(job: ElfJobView, outcomes: Seq<OutcomeView>)
    ensures
        match elf_after(job, outcomes) {
            ElfStageView::Archiving | ElfStageView::Retrying(_) => hid_everything(job, outcomes),
            ElfStageView::Tidying => hid_everything(job, outcomes) && outcomes.last().ok(),
            ElfStageView::Done => hid_everything(job, outcomes) && exists|k: int|
                3 <= k < outcomes.len() && (#[trigger] outcomes[k]).ok(),
            _ => true,
        },
    decreases outcomes.len(),
{
    lemma_steps(job, outcomes);
    if outcomes.len() > 0 {
        let before = outcomes.drop_last();
        archives_only_what_is_hidden(job, before);
        lemma_steps(job, before);
        if elf_after(job, outcomes) is Done {
            if elf_after(job, before) is Tidying {
                assert(outcomes[before.len() - 1] == before.last());
            } else {
                let k = choose|k: int| 3 <= k < before.len() && (#[trigger] before[k]).ok();
                assert(outcomes[k].ok());
            }
        }
    }
}

proof fn lemma_steps(job: ElfJobView, outcomes: Seq<OutcomeView>)
    ensures
        ({
            let n = outcomes.len();
            let names = names_to_hide(text::lossy(outcomes[1].output), job.keep_prefix);
            let read = outcomes[0].ok() && outcomes[1].ok();
            match elf_after(job, outcomes) {
                ElfStageView::Linking => n == 0,
                ElfStageView::Reading => n == 1 && outcomes[0].ok(),
                ElfStageView::Listing(listed) => n == 2 && read && listed == names && names.len()
                    > 0,
                ElfStageView::Localizing => n == 3 && read && outcomes[2].started && names.len()
                    > 0,
                ElfStageView::Unlisting => n == 4 && read && outcomes[2].started && outcomes[3].ok()
                    && names.len() > 0,
                ElfStageView::Copying => n == 2 && read && names.len() == 0,
                ElfStageView::Archiving => hid_everything(job, outcomes) && n == if names.len()
                    > 0 {
                    5nat
                } else {
                    3nat
                },
                ElfStageView::Retrying(_) => hid_everything(job, outcomes) && n == if names.len()
                    > 0 {
                    6nat
                } else {
                    4nat
                },
                ElfStageView::Tidying => hid_everything(job, outcomes) && n >= 4,
                _ => true,
            }
        }),
    decreases outcomes.len(),
{
    if outcomes.len() > 0 {
        lemma_steps(job, outcomes.drop_last());
    }
}

/// The visibility of a symbol does not matter: a row is treated alike whatever
/// stands in that column.
pub proof fn visibility_does_not_matter(
    row: Seq<Seq<char>>,
    visibility: Seq<char>,
    keep_prefix: Seq<char>,
)
    requires
        row.len() > 5,
    ensures
        is_hidden_row(row.update(5, visibility), keep_prefix) == is_hidden_row(row, keep_prefix),
{
}

/// A defined symbol stays public exactly where it begins with the prefix, with an
/// underscore and the prefix, or with one of four texts that linkers need.
pub proof fn public_names_by_how_they_begin(name: Seq<char>, keep_prefix: Seq<char>)
    ensures
        stays_public(name, keep_prefix) <==> {
            ||| keep_prefix.is_prefix_of(name)
            ||| ("_"@ + keep_prefix).is_prefix_of(name)
            ||| "DW.ref."@.is_prefix_of(name)
            ||| "GCC_except_table"@.is_prefix_of(name)
            ||| "_GLOBAL_OFFSET_TABLE_"@.is_prefix_of(name)
            ||| "@"@.is_prefix_of(name)
        },
{
    keep::the_interface_begins_with_the_prefix(name, keep_prefix);
}

/// The names to hide are those of the rows that have a name in the eighth column,
/// `GLOBAL` or `WEAK` in the fifth and anything but `UND` in the seventh, in their
/// order, without the names that begin with the prefix or with what linkers need.
pub proof fn hidden_names_by_column(output: Seq<char>, keep_prefix: Seq<char>)
    ensures
        names_to_hide(output, keep_prefix) == text::rows(output).filter(
            |row: Seq<Seq<char>>|
                {
                    &&& row.len() >= 8
                    &&& row[4] == "GLOBAL"@ || row[4] == "WEAK"@
                    &&& row[6] != "UND"@
                    &&& row[7].len() > 0
                    &&& !keep_prefix.is_prefix_of(row[7])
                    &&& !("_"@ + keep_prefix).is_prefix_of(row[7])
                    &&& !"DW.ref."@.is_prefix_of(row[7])
                    &&& !"GCC_except_table"@.is_prefix_of(row[7])
                    &&& !"_GLOBAL_OFFSET_TABLE_"@.is_prefix_of(row[7])
                    &&& !"@"@.is_prefix_of(row[7])
                },
        ).map_values(|row: Seq<Seq<char>>| row[7]),
{
    let hidden = |row: Seq<Seq<char>>| is_hidden_row(row, keep_prefix);
    let stated = |row: Seq<Seq<char>>|
        {
            &&& row.len() >= 8
            &&& row[4] == "GLOBAL"@ || row[4] == "WEAK"@
            &&& row[6] != "UND"@
            &&& row[7].len() > 0
            &&& !keep_prefix.is_prefix_of(row[7])
            &&& !("_"@ + keep_prefix).is_prefix_of(row[7])
            &&& !"DW.ref."@.is_prefix_of(row[7])
            &&& !"GCC_except_table"@.is_prefix_of(row[7])
            &&& !"_GLOBAL_OFFSET_TABLE_"@.is_prefix_of(row[7])
            &&& !"@"@.is_prefix_of(row[7])
        };
    assert forall|row: Seq<Seq<char>>| #[trigger] hidden(row) == stated(row) by {
        if row.len() >= 8 {
            public_names_by_how_they_begin(row[7], keep_prefix);
        }
    }
    lists::lemma_filter_alike(text::rows(output), hidden, stated);
}

/// A definition outside the interface is hidden: so is the name in the eighth column
/// of every row that has `GLOBAL` or `WEAK` in the fifth and not `UND` in the seventh,
/// unless it begins with the prefix or with what linkers need.
pub proof fn every_definition_outside_the_interface_is_hidden(
    output: Seq<char>,
    keep_prefix: Seq<char>,
    i: int,
)
    requires
        0 <= i < text::rows(output).len(),
        text::rows(output)[i].len() >= 8,
        text::rows(output)[i][4] == "GLOBAL"@ || text::rows(output)[i][4] == "WEAK"@,
        text::rows(output)[i][6] != "UND"@,
        text::rows(output)[i][7].len() > 0,
        !keep_prefix.is_prefix_of(text::rows(output)[i][7]),
        !("_"@ + keep_prefix).is_prefix_of(text::rows(output)[i][7]),
        !"DW.ref."@.is_prefix_of(text::rows(output)[i][7]),
        !"GCC_except_table"@.is_prefix_of(text::rows(output)[i][7]),
        !"_GLOBAL_OFFSET_TABLE_"@.is_prefix_of(text::rows(output)[i][7]),
        !"@"@.is_prefix_of(text::rows(output)[i][7]),
    ensures
        names_to_hide(output, keep_prefix).contains(text::rows(output)[i][7]),
{
    let name = text::rows(output)[i][7];
    public_names_by_how_they_begin(name, keep_prefix);
    hidden_names_are_the_definitions_not_kept(output, keep_prefix, name);
}

/// Only definitions outside the interface are hidden: a hidden name stands in the
/// eighth column of a row with `GLOBAL` or `WEAK` in the fifth and not `UND` in the
/// seventh, and begins with nothing that keeps it public.
pub proof fn only_definitions_outside_the_interface_are_hidden(
    output: Seq<char>,
    keep_prefix: Seq<char>,
    name: Seq<char>,
) -> (i: int)
    requires
        names_to_hide(output, keep_prefix).contains(name),
    ensures
        0 <= i < text::rows(output).len(),
        text::rows(output)[i].len() >= 8,
        text::rows(output)[i][4] == "GLOBAL"@ || text::rows(output)[i][4] == "WEAK"@,
        text::rows(output)[i][6] != "UND"@,
        text::rows(output)[i][7] == name,
        name.len() > 0,
        !keep_prefix.is_prefix_of(name),
        !("_"@ + keep_prefix).is_prefix_of(name),
        !"DW.ref."@.is_prefix_of(name),
        !"GCC_except_table"@.is_prefix_of(name),
        !"_GLOBAL_OFFSET_TABLE_"@.is_prefix_of(name),
        !"@"@.is_prefix_of(name),
{
    public_names_by_how_they_begin(name, keep_prefix);
    hidden_names_are_the_definitions_not_kept(output, keep_prefix, name);
    choose|i: int|
        0 <= i < text::rows(output).len() && is_definition_row(#[trigger] text::rows(output)[i])
            && text::rows(output)[i][7] == name
}

/// Where a symbol is defined does not matter: two outputs that differ in the seventh
/// column only, and there only between texts other than `UND`, have the same names to
/// hide.
pub proof fn the_section_does_not_matter(a: Seq<char>, b: Seq<char>, keep_prefix: Seq<char>)
    requires
        text::rows(a).len() == text::rows(b).len(),
        forall|i: int| 0 <= i < text::rows(a).len() ==> {
            let row = #[trigger] text::rows(a)[i];
            let other = text::rows(b)[i];
            row == other || (row.len() > 6 && row[6] != "UND"@ && other.len() > 6 && other[6]
                != "UND"@ && other == row.update(6, other[6]))
        },
    ensures
        names_to_hide(a, keep_prefix) == names_to_hide(b, keep_prefix),
{
    let hidden = |row: Seq<Seq<char>>| is_hidden_row(row, keep_prefix);
    let name_of = |row: Seq<Seq<char>>| row[7];
    let x = text::rows(a);
    let y = text::rows(b);
    assert forall|i: int| 0 <= i < x.len() implies hidden(#[trigger] x[i]) == hidden(y[i]) && (
    hidden(x[i]) ==> name_of(x[i]) == name_of(y[i])) by {
        assert(x[i] == text::rows(a)[i]);
    }
    lists::lemma_filter_map_alike(x, y, hidden, name_of);
}

/// The steps of patching hand three files on: all of the input is linked into the
/// first, its symbols are read, and it becomes the second, with the symbols local that
/// the third names, or unchanged where there are none. The second is archived.
pub proof fn elf_steps_hand_files_on(
    job: ElfJobView,
    names: Seq<Seq<char>>,
    other: ProgramView,
) -> (files: (FileView, FileView, FileView))
    ensures
        files.0 == FileView::Temp(job.lib_name + "_temp.o"@),
        files.1 == FileView::Temp(job.lib_name + "_final.o"@),
        files.2 == FileView::Temp(job.lib_name + "_localize.txt"@),
        files.0 != files.1,
        elf_action_at(job, ElfStageView::Linking) matches ActionView::Run(link) && {
            let given = job.tools.ld_pre_args;
            let n = given.len() as int;
            &&& link.program == job.tools.ld
            &&& !link.among_objects
            &&& link.args.len() == n + 5
            &&& forall|i: int| 0 <= i < n ==> #[trigger] link.args[i] == ArgView::Text(given[i])
            &&& link.args[n] == ArgView::Text("-r"@)
            &&& link.args[n + 1] == ArgView::Text("-o"@)
            &&& link.args[n + 2] == ArgView::Path(files.0)
            &&& link.args[n + 3] == ArgView::Text("--whole-archive"@)
            &&& link.args[n + 4] == ArgView::Path(FileView::Input)
        },
        elf_action_at(job, ElfStageView::Reading) == ActionView::Run(
            InvocationView {
                program: job.tools.readelf,
                args: seq![ArgView::Text("-sW"@), ArgView::Path(files.0)],
                among_objects: false,
            },
        ),
        elf_action_at(job, ElfStageView::Listing(names)) matches ActionView::Write(file, list)
            && file == files.2 && list == text::joined(names, "\n"@) && (names.len() > 0 && (forall|
            i: int,
            j: int,
        |
            0 <= i < names.len() && 0 <= j < names[i].len() ==> #[trigger] names[i][j] != '\n')
            ==> text::lines(list) == names),
        elf_action_at(job, ElfStageView::Localizing) == ActionView::Run(
            InvocationView {
                program: job.tools.objcopy,
                args: seq![
                    ArgView::Text("--localize-symbols"@),
                    ArgView::Path(files.2),
                    ArgView::Path(files.0),
                    ArgView::Path(files.1),
                ],
                among_objects: false,
            },
        ),
        elf_action_at(job, ElfStageView::Unlisting) == ActionView::Remove(seq![files.2]),
        elf_action_at(job, ElfStageView::Copying) == ActionView::Copy(files.0, files.1),
        elf_action_at(job, ElfStageView::Archiving) == ActionView::Run(
            InvocationView {
                program: job.tools.ar,
                args: seq![
                    ArgView::Text("rcs"@),
                    ArgView::Path(FileView::Output),
                    ArgView::Path(files.1),
                ],
                among_objects: false,
            },
        ),
        elf_action_at(job, ElfStageView::Retrying(other)) == ActionView::Run(
            InvocationView {
                program: other,
                args: seq![
                    ArgView::Text("rcs"@),
                    ArgView::Path(FileView::Output),
                    ArgView::Path(files.1),
                ],
                among_objects: false,
            },
        ),
        elf_action_at(job, ElfStageView::Tidying) == ActionView::Remove(seq![files.0, files.1]),
        elf_action_at(job, ElfStageView::Done) is Nothing,
{
    reveal_strlit("_temp.o");
    reveal_strlit("_final.o");
    let first = job.lib_name + "_temp.o"@;
    let second = job.lib_name + "_final.o"@;
    assert(first.len() != second.len());
    if names.len() > 0 && (forall|i: int, j: int|
        0 <= i < names.len() && 0 <= j < names[i].len() ==> #[trigger] names[i][j] != '\n') {
        text::joined_lines_are_read_back(names);
    }
    (FileView::Temp(first), FileView::Temp(second), FileView::Temp(job.lib_name + "_localize.txt"@))
}

/// A step that turns out well leads to the next one: linking to reading, reading to
/// the list of what has to be hidden or, where that is nothing, to a copy; and then by
/// way of the archiver to the end.
pub proof fn elf_steps_follow_each_other(
    job: ElfJobView,
    outcome: OutcomeView,
    names: Seq<Seq<char>>,
    other: ProgramView,
)
    requires
        outcome.started,
        outcome.success,
    ensures
        elf_next(job, ElfStageView::Linking, outcome) is Reading,
        elf_next(job, ElfStageView::Reading, outcome) == if names_to_hide(
            text::lossy(outcome.output),
            job.keep_prefix,
        ).len() > 0 {
            ElfStageView::Listing(names_to_hide(text::lossy(outcome.output), job.keep_prefix))
        } else {
            ElfStageView::Copying
        },
        elf_next(job, ElfStageView::Listing(names), outcome) is Localizing,
        elf_next(job, ElfStageView::Localizing, outcome) is Unlisting,
        elf_next(job, ElfStageView::Unlisting, outcome) is Archiving,
        elf_next(job, ElfStageView::Copying, outcome) is Archiving,
        elf_next(job, ElfStageView::Archiving, outcome) is Tidying,
        elf_next(job, ElfStageView::Retrying(other), outcome) is Tidying,
        elf_next(job, ElfStageView::Tidying, outcome) is Done,
{
}

/// A step that goes wrong ends the patching and says which tool failed, except that
/// the second archiver gets its turn where there is one, and that leftover files are
/// no matter.
pub proof fn elf_steps_fail(
    job: ElfJobView,
    outcome: OutcomeView,
    names: Seq<Seq<char>>,
    other: ProgramView,
)
    requires
        !outcome.started || !outcome.success,
    ensures
        elf_next(job, ElfStageView::Linking, outcome) == ElfStageView::Failed(
            if outcome.started {
                ElfFailureView::LinkFailed(job.tools.ld)
            } else {
                ElfFailureView::CannotRun(job.tools.ld)
            },
        ),
        elf_next(job, ElfStageView::Reading, outcome) == ElfStageView::Failed(
            if outcome.started {
                ElfFailureView::ReadFailed(job.tools.readelf)
            } else {
                ElfFailureView::CannotRun(job.tools.readelf)
            },
        ),
        elf_next(job, ElfStageView::Listing(names), outcome) == if outcome.started {
            ElfStageView::Localizing
        } else {
            ElfStageView::Failed(ElfFailureView::CannotWriteList)
        },
        elf_next(job, ElfStageView::Localizing, outcome) == ElfStageView::Failed(
            if outcome.started {
                ElfFailureView::LocalizeFailed(job.tools.objcopy)
            } else {
                ElfFailureView::CannotRun(job.tools.objcopy)
            },
        ),
        elf_next(job, ElfStageView::Unlisting, outcome) is Archiving,
        elf_next(job, ElfStageView::Copying, outcome) == if outcome.started {
            ElfStageView::Archiving
        } else {
            ElfStageView::Failed(ElfFailureView::CannotCopy)
        },
        job.tools.ar_fallback matches Some(ar) ==> elf_next(job, ElfStageView::Archiving, outcome)
            == ElfStageView::Retrying(ar),
        job.tools.ar_fallback is None ==> elf_next(job, ElfStageView::Archiving, outcome)
            == ElfStageView::Failed(ElfFailureView::ArchiveFailed(job.tools.ar)),
        elf_next(job, ElfStageView::Retrying(other), outcome) == ElfStageView::Failed(
            if outcome.started {
                ElfFailureView::BothArchiversFailed(job.tools.ar, other)
            } else {
                ElfFailureView::CannotRun(other)
            },
        ),
        elf_next(job, ElfStageView::Tidying, outcome) is Done,
{
}

/// What is over stays over.
pub proof fn elf_patching_stays_over(
    job: ElfJobView,
    outcome: OutcomeView,
    failure: ElfFailureView,
)
    ensures
        elf_next(job, ElfStageView::Done, outcome) is Done,
        elf_next(job, ElfStageView::Failed(failure), outcome) == ElfStageView::Failed(failure),
{
}

} // verus!
