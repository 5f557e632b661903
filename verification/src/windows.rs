//! Patching of COFF libraries: every symbol outside the interface is renamed under
//! the prefix, import libraries are made anew, and everything is archived again.

use vstd::prelude::*;
use vstd::string::*;

use crate::command::{
    text_arg, Action, ActionView, Arg, ArgView, FileRef, FileView, Invocation, InvocationView,
    Outcome, OutcomeView, Program, ProgramView,
};
use crate::deffile;
use crate::deffile::{regenerate_import_libs, ImportLibrary, LibraryView};
use crate::imports::MemberKind;
use crate::librarian::{LibToolView, WindowsLibTool};
use crate::scan::{Scan, ScanView};
use crate::text;
use crate::text::{concat, decimal};

verus! {

/// The patching of one COFF library.
pub struct WindowsJob {
    pub kinds: Vec<MemberKind>,
    pub renames: Vec<(String, String)>,
    /// The number of DLL imports.
    pub imports: u64,
    /// The import libraries to make.
    pub libraries: Vec<ImportLibrary>,
    /// The archiver.
    pub tool: WindowsLibTool,
}

/// What a `WindowsJob` says.
pub struct WindowsJobView {
    pub kinds: Seq<MemberKind>,
    pub renames: Seq<(Seq<char>, Seq<char>)>,
    pub imports: nat,
    pub libraries: Seq<LibraryView>,
    pub tool: LibToolView,
}

impl DeepView for WindowsJob {
    type V = WindowsJobView;

    open spec fn deep_view(&self) -> WindowsJobView {
        WindowsJobView {
            kinds: self.kinds@,
            renames: self.renames.deep_view(),
            imports: self.imports as nat,
            libraries: self.libraries.deep_view(),
            tool: self.tool.deep_view(),
        }
    }
}

/// How the patching of a COFF library starts.
pub enum WindowsStart {
    /// Nothing has to be renamed: the library is copied as it is.
    CopyUnchanged,
    /// No archiver was found.
    NoArchiver,
    /// No tool to rename symbols was found.
    NoRenameTool,
    Patch(WindowsJob),
}

/// What a `WindowsStart` says.
pub enum WindowsStartView {
    CopyUnchanged,
    NoArchiver,
    NoRenameTool,
    Patch(WindowsJobView),
}

impl DeepView for WindowsStart {
    type V = WindowsStartView;

    open spec fn deep_view(&self) -> WindowsStartView {
        match self {
            WindowsStart::CopyUnchanged => WindowsStartView::CopyUnchanged,
            WindowsStart::NoArchiver => WindowsStartView::NoArchiver,
            WindowsStart::NoRenameTool => WindowsStartView::NoRenameTool,
            WindowsStart::Patch(job) => WindowsStartView::Patch(job.deep_view()),
        }
    }
}

/// The patching of a scanned library with the given archiver.
pub open spec fn windows_job(scan: ScanView, tool: LibToolView) -> WindowsJobView {
    WindowsJobView {
        kinds: scan.kinds,
        renames: scan.renames,
        imports: scan.imports.len(),
        libraries: deffile::libraries_of(scan.imports),
        tool,
    }
}

/// How the patching of a scanned library starts.
pub open spec fn windows_start(
    scan: ScanView,
    tool: Option<LibToolView>,
    can_rename: bool,
) -> WindowsStartView {
    if scan.renames.len() == 0 {
        WindowsStartView::CopyUnchanged
    } else {
        match tool {
            None => WindowsStartView::NoArchiver,
            Some(tool) => if can_rename {
                WindowsStartView::Patch(windows_job(scan, tool))
            } else {
                WindowsStartView::NoRenameTool
            },
        }
    }
}

/// Prepares the patching of a COFF library, given the archiver and whether there is
/// a tool to rename symbols.
pub fn patch_windows(
    scan: Scan,
    tool: Option<WindowsLibTool>,
    can_rename: bool,
) -> (r: WindowsStart)
    ensures
        r.deep_view() == windows_start(scan.deep_view(), tool.deep_view(), can_rename),
{
    assert(scan.renames.deep_view().len() == scan.renames@.len());
    if scan.renames.len() == 0 {
        return WindowsStart::CopyUnchanged;
    }
    let tool = match tool {
        Some(tool) => tool,
        None => {
            return WindowsStart::NoArchiver;
        },
    };
    if !can_rename {
        return WindowsStart::NoRenameTool;
    }
    let libraries = regenerate_import_libs(&scan.imports);
    assert(scan.imports.deep_view().len() == scan.imports@.len());
    WindowsStart::Patch(
        WindowsJob {
            kinds: scan.kinds,
            renames: scan.renames,
            imports: scan.imports.len() as u64,
            libraries,
            tool,
        },
    )
}

/// Why a COFF library could not be patched.
pub enum WindowsFailure {
    CannotWriteRenames,
    CannotRename,
    /// The archiver cannot make the import libraries.
    CannotRegenerate,
    CannotWriteDefinition,
    /// The import library with the given number was not made.
    RegenerateFailed(usize),
    CannotArchive,
    ArchiveFailed,
}

/// What a `WindowsFailure` says.
pub enum WindowsFailureView {
    CannotWriteRenames,
    CannotRename,
    CannotRegenerate,
    CannotWriteDefinition,
    RegenerateFailed(int),
    CannotArchive,
    ArchiveFailed,
}

impl DeepView for WindowsFailure {
    type V = WindowsFailureView;

    open spec fn deep_view(&self) -> WindowsFailureView {
        match self {
            WindowsFailure::CannotWriteRenames => WindowsFailureView::CannotWriteRenames,
            WindowsFailure::CannotRename => WindowsFailureView::CannotRename,
            WindowsFailure::CannotRegenerate => WindowsFailureView::CannotRegenerate,
            WindowsFailure::CannotWriteDefinition => WindowsFailureView::CannotWriteDefinition,
            WindowsFailure::RegenerateFailed(i) => WindowsFailureView::RegenerateFailed(*i as int),
            WindowsFailure::CannotArchive => WindowsFailureView::CannotArchive,
            WindowsFailure::ArchiveFailed => WindowsFailureView::ArchiveFailed,
        }
    }
}

/// How far the patching of a COFF library has come. It starts with
/// `WritingRenames`; `patched` are the objects to archive.
pub enum WindowsStage {
    /// The renames are written down.
    WritingRenames,
    /// The symbols of an object are renamed.
    Renaming { at: usize, patched: Vec<String> },
    /// A definition file is written.
    Defining { at: usize, patched: Vec<String> },
    /// An import library is made.
    Importing { at: usize, patched: Vec<String> },
    /// The objects and import libraries are archived.
    Archiving { patched: Vec<String> },
    Done,
    Failed(WindowsFailure),
}

/// What a `WindowsStage` says.
pub enum WindowsStageView {
    WritingRenames,
    Renaming { at: int, patched: Seq<Seq<char>> },
    Defining { at: int, patched: Seq<Seq<char>> },
    Importing { at: int, patched: Seq<Seq<char>> },
    Archiving { patched: Seq<Seq<char>> },
    Done,
    Failed(WindowsFailureView),
}

impl DeepView for WindowsStage {
    type V = WindowsStageView;

    open spec fn deep_view(&self) -> WindowsStageView {
        match self {
            WindowsStage::WritingRenames => WindowsStageView::WritingRenames,
            WindowsStage::Renaming { at, patched } => WindowsStageView::Renaming {
                at: *at as int,
                patched: patched.deep_view(),
            },
            WindowsStage::Defining { at, patched } => WindowsStageView::Defining {
                at: *at as int,
                patched: patched.deep_view(),
            },
            WindowsStage::Importing { at, patched } => WindowsStageView::Importing {
                at: *at as int,
                patched: patched.deep_view(),
            },
            WindowsStage::Archiving { patched } => WindowsStageView::Archiving {
                patched: patched.deep_view(),
            },
            WindowsStage::Done => WindowsStageView::Done,
            WindowsStage::Failed(failure) => WindowsStageView::Failed(failure.deep_view()),
        }
    }
}

/// The list of renames, one to a line.
pub open spec fn rename_lines(renames: Seq<(Seq<char>, Seq<char>)>) -> Seq<char>
    decreases renames.len(),
{
    if renames.len() == 0 {
        Seq::empty()
    } else {
        rename_lines(renames.drop_last()) + renames.last().0 + " "@ + renames.last().1 + "\n"@
    }
}

/// Writes the list of renames.
pub fn write_renames(renames: &Vec<(String, String)>) -> (r: String)
    ensures
        r@ == rename_lines(renames.deep_view()),
{
    let mut out = String::new();
    let ghost all = renames.deep_view();
    let n: usize = renames.len();
    assert(out@ =~= rename_lines(all.take(0)));
    for i in 0..n
        invariant
            n == renames@.len(),
            all == renames.deep_view(),
            out@ == rename_lines(all.take(i as int)),
    {
        proof {
            assert(all.take(i + 1).drop_last() =~= all.take(i as int));
            assert(all.take(i + 1).last() == (renames@[i as int].0@, renames@[i as int].1@));
        }
        out.append(renames[i].0.as_str());
        out.append(" ");
        out.append(renames[i].1.as_str());
        out.append("\n");
    }
    assert(all.take(n as int) =~= all);
    out
}

/// The file name of an object.
pub open spec fn object_text(i: int) -> Seq<char> {
    text::decimal_text(i as nat) + ".obj"@
}

/// The file name of an object whose symbols are renamed.
pub open spec fn patched_text(i: int) -> Seq<char> {
    text::decimal_text(i as nat) + "_patched.obj"@
}

/// The file name of a definition file.
pub open spec fn definition_name(i: int) -> Seq<char> {
    "imp"@ + text::decimal_text(i as nat) + ".def"@
}

/// The file name of an import library.
pub open spec fn library_name(i: int) -> Seq<char> {
    "imp"@ + text::decimal_text(i as nat) + ".lib"@
}

/// The argument that selects the machine type, where it is known.
pub open spec fn machine_args(tool: LibToolView) -> Seq<ArgView> {
    match tool.machine_type {
        Some(machine) => seq![ArgView::Text("/MACHINE:"@ + machine)],
        None => Seq::empty(),
    }
}

/// Plain arguments.
pub open spec fn text_args(texts: Seq<Seq<char>>) -> Seq<ArgView> {
    texts.map_values(|text: Seq<char>| ArgView::Text(text))
}

/// The arguments that archive the objects and the import libraries. They are given
/// by their bare names, so that the library does not depend on where it was made.
pub open spec fn archive_args(job: WindowsJobView, patched: Seq<Seq<char>>) -> Seq<ArgView> {
    if job.tool.is_llvm {
        seq![ArgView::Text("rc"@), ArgView::Path(FileView::AbsoluteOutput)] + text_args(patched)
    } else {
        seq![ArgView::Text("/nologo"@)] + machine_args(job.tool) + seq![
            ArgView::Joined("/OUT:"@, FileView::AbsoluteOutput),
        ] + text_args(patched) + Seq::new(
            libraries_made(job),
            |i: int| ArgView::Text(library_name(i)),
        )
    }
}

/// The number of import libraries that are made.
pub open spec fn libraries_made(job: WindowsJobView) -> nat {
    if job.imports > 0 && job.tool.handles_import_members {
        job.libraries.len()
    } else {
        0
    }
}

/// The archiver with its arguments.
pub open spec fn archiving(job: WindowsJobView, args: Seq<ArgView>) -> ActionView {
    ActionView::Run(
        InvocationView {
            program: ProgramView::Named(job.tool.tool),
            args,
            among_objects: true,
        },
    )
}

/// What is to be done at a stage.
pub open spec fn windows_action_at(job: WindowsJobView, stage: WindowsStageView) -> ActionView {
    match stage {
        WindowsStageView::WritingRenames => ActionView::Write(
            FileView::Object("renames.txt"@),
            rename_lines(job.renames),
        ),
        WindowsStageView::Renaming { at, patched } => ActionView::Run(
            InvocationView {
                program: ProgramView::Objcopy,
                args: seq![
                    ArgView::Joined("--redefine-syms="@, FileView::Object("renames.txt"@)),
                    ArgView::Path(FileView::Object(object_text(at))),
                    ArgView::Path(FileView::Object(patched_text(at))),
                ],
                among_objects: false,
            },
        ),
        WindowsStageView::Defining { at, patched } => if at < job.libraries.len() {
            ActionView::Write(
                FileView::Object(definition_name(at)),
                job.libraries[at].definition,
            )
        } else {
            ActionView::Nothing
        },
        WindowsStageView::Importing { at, patched } => archiving(
            job,
            seq![ArgView::Text("/nologo"@)] + machine_args(job.tool) + seq![
                ArgView::Text("/def:"@ + definition_name(at)),
                ArgView::Text("/out:"@ + library_name(at)),
            ],
        ),
        WindowsStageView::Archiving { patched } => archiving(job, archive_args(job, patched)),
        WindowsStageView::Done => ActionView::Nothing,
        WindowsStageView::Failed(_) => ActionView::Nothing,
    }
}

/// Names the file of the object with the given number.
pub fn object_name(i: usize) -> (r: String)
    ensures
        r@ == object_text(i as int),
{
    concat(decimal(i as u64).as_str(), ".obj")
}

fn patched_name(i: usize) -> (r: String)
    ensures
        r@ == patched_text(i as int),
{
    concat(decimal(i as u64).as_str(), "_patched.obj")
}

fn import_name(i: usize, extension: &str) -> (r: String)
    ensures
        r@ == "imp"@ + text::decimal_text(i as nat) + extension@,
{
    concat(concat("imp", decimal(i as u64).as_str()).as_str(), extension)
}

fn add_machine(job: &WindowsJob, args: &mut Vec<Arg>)
    ensures
        final(args).deep_view() == old(args).deep_view() + machine_args(job.tool.deep_view()),
{
    let ghost before = args.deep_view();
    if let Some(machine) = &job.tool.machine_type {
        args.push(Arg::Text(concat("/MACHINE:", machine.as_str())));
        assert(args.deep_view() =~= before.push(ArgView::Text("/MACHINE:"@ + machine@)));
    }
    assert(args.deep_view() =~= before + machine_args(job.tool.deep_view()));
}

fn add_texts(args: &mut Vec<Arg>, texts: &Vec<String>)
    ensures
        final(args).deep_view() == old(args).deep_view() + text_args(texts.deep_view()),
{
    let ghost before = args.deep_view();
    let ghost all = texts.deep_view();
    let n: usize = texts.len();
    for i in 0..n
        invariant
            n == texts@.len(),
            all == texts.deep_view(),
            args.deep_view() =~= before + text_args(all.take(i as int)),
    {
        let ghost here = args.deep_view();
        args.push(text_arg(texts[i].as_str()));
        assert(args.deep_view() =~= here.push(ArgView::Text(all[i as int])));
    }
    assert(all.take(n as int) =~= all);
}

fn archive(job: &WindowsJob, args: Vec<Arg>) -> (r: Action)
    ensures
        r.deep_view() == archiving(job.deep_view(), args.deep_view()),
{
    Action::Run(
        Invocation { program: Program::Named(job.tool.tool.clone()), args, among_objects: true },
    )
}

fn final_args(job: &WindowsJob, patched: &Vec<String>) -> (r: Vec<Arg>)
    ensures
        r.deep_view() == archive_args(job.deep_view(), patched.deep_view()),
{
    if job.tool.is_llvm {
        let mut args = vec![text_arg("rc"), Arg::Path(FileRef::AbsoluteOutput)];
        assert(args.deep_view() =~= seq![
            ArgView::Text("rc"@),
            ArgView::Path(FileView::AbsoluteOutput),
        ]);
        add_texts(&mut args, patched);
        return args;
    }
    let mut args = vec![text_arg("/nologo")];
    assert(args.deep_view() =~= seq![ArgView::Text("/nologo"@)]);
    add_machine(job, &mut args);
    let ghost before = args.deep_view();
    args.push(Arg::Joined("/OUT:".to_owned(), FileRef::AbsoluteOutput));
    assert(args.deep_view() =~= before + seq![
        ArgView::Joined("/OUT:"@, FileView::AbsoluteOutput),
    ]);
    add_texts(&mut args, patched);
    let ghost front = args.deep_view();
    let n: usize = if job.imports > 0 && job.tool.handles_import_members {
        job.libraries.len()
    } else {
        0
    };
    for i in 0..n
        invariant
            args.deep_view() =~= front + Seq::new(
                i as nat,
                |i: int| ArgView::Text(library_name(i)),
            ),
    {
        let ghost here = args.deep_view();
        args.push(Arg::Text(import_name(i, ".lib")));
        assert(args.deep_view() =~= here.push(ArgView::Text(library_name(i as int))));
    }
    assert(job.libraries.deep_view().len() == job.libraries@.len());
    assert(args.deep_view() =~= archive_args(job.deep_view(), patched.deep_view()));
    args
}

/// Says what is to be done at a stage.
pub fn windows_action(job: &WindowsJob, stage: &WindowsStage) -> (r: Action)
    ensures
        r.deep_view() == windows_action_at(job.deep_view(), stage.deep_view()),
{
    let ghost want = windows_action_at(job.deep_view(), stage.deep_view());
    match stage {
        WindowsStage::WritingRenames => Action::Write(
            FileRef::Object("renames.txt".to_owned()),
            write_renames(&job.renames),
        ),
        WindowsStage::Renaming { at, patched } => {
            let args = vec![
                Arg::Joined(
                    "--redefine-syms=".to_owned(),
                    FileRef::Object("renames.txt".to_owned()),
                ),
                Arg::Path(FileRef::Object(object_name(*at))),
                Arg::Path(FileRef::Object(patched_name(*at))),
            ];
            assert(args.deep_view() =~= want->Run_0.args);
            Action::Run(Invocation { program: Program::Objcopy, args, among_objects: false })
        },
        WindowsStage::Defining { at, patched } => {
            assert(job.libraries.deep_view().len() == job.libraries@.len());
            if *at < job.libraries.len() {
                assert(job.libraries.deep_view()[*at as int]
                    == job.libraries@[*at as int].deep_view());
                Action::Write(
                    FileRef::Object(import_name(*at, ".def")),
                    job.libraries[*at].definition.clone(),
                )
            } else {
                Action::Nothing
            }
        },
        WindowsStage::Importing { at, patched } => {
            let mut args = vec![text_arg("/nologo")];
            assert(args.deep_view() =~= seq![ArgView::Text("/nologo"@)]);
            add_machine(job, &mut args);
            let ghost front = args.deep_view();
            args.push(Arg::Text(concat("/def:", import_name(*at, ".def").as_str())));
            args.push(Arg::Text(concat("/out:", import_name(*at, ".lib").as_str())));
            assert(args.deep_view() =~= front + seq![
                ArgView::Text("/def:"@ + definition_name(*at as int)),
                ArgView::Text("/out:"@ + library_name(*at as int)),
            ]);
            archive(job, args)
        },
        WindowsStage::Archiving { patched } => archive(job, final_args(job, patched)),
        WindowsStage::Done => Action::Nothing,
        WindowsStage::Failed(_) => Action::Nothing,
    }
}

/// The first regular object from a position on, or the number of members.
pub open spec fn next_coff(kinds: Seq<MemberKind>, at: int) -> int
    decreases kinds.len() - at,
{
    if at < kinds.len() && kinds[at] != MemberKind::Coff {
        next_coff(kinds, at + 1)
    } else {
        at
    }
}

/// The stage that follows when the symbols of all objects before a position are
/// renamed.
pub open spec fn after_renaming(
    job: WindowsJobView,
    at: int,
    patched: Seq<Seq<char>>,
) -> WindowsStageView {
    let next = next_coff(job.kinds, at);
    if next < job.kinds.len() {
        WindowsStageView::Renaming { at: next, patched }
    } else if job.imports > 0 && !job.tool.handles_import_members {
        WindowsStageView::Failed(WindowsFailureView::CannotRegenerate)
    } else {
        after_importing(job, 0, patched)
    }
}

/// The stage that follows when the import libraries before a position are made.
pub open spec fn after_importing(
    job: WindowsJobView,
    at: int,
    patched: Seq<Seq<char>>,
) -> WindowsStageView {
    if at < libraries_made(job) {
        WindowsStageView::Defining { at, patched }
    } else {
        WindowsStageView::Archiving { patched }
    }
}

/// The stage that follows, given what came of the last action. An object whose
/// symbols cannot be renamed is archived as it is.
pub open spec fn windows_next(
    job: WindowsJobView,
    stage: WindowsStageView,
    outcome: OutcomeView,
) -> WindowsStageView {
    match stage {
        WindowsStageView::WritingRenames => if outcome.started {
            after_renaming(job, 0, Seq::empty())
        } else {
            WindowsStageView::Failed(WindowsFailureView::CannotWriteRenames)
        },
        WindowsStageView::Renaming { at, patched } => if !outcome.started {
            WindowsStageView::Failed(WindowsFailureView::CannotRename)
        } else if outcome.success {
            after_renaming(job, at + 1, patched.push(patched_text(at)))
        } else {
            after_renaming(job, at + 1, patched.push(object_text(at)))
        },
        WindowsStageView::Defining { at, patched } => if outcome.started {
            WindowsStageView::Importing { at, patched }
        } else {
            WindowsStageView::Failed(WindowsFailureView::CannotWriteDefinition)
        },
        WindowsStageView::Importing { at, patched } => if outcome.ok() {
            after_importing(job, at + 1, patched)
        } else {
            WindowsStageView::Failed(WindowsFailureView::RegenerateFailed(at))
        },
        WindowsStageView::Archiving { patched } => if !outcome.started {
            WindowsStageView::Failed(WindowsFailureView::CannotArchive)
        } else if !outcome.success {
            WindowsStageView::Failed(WindowsFailureView::ArchiveFailed)
        } else {
            WindowsStageView::Done
        },
        WindowsStageView::Done => WindowsStageView::Done,
        WindowsStageView::Failed(failure) => WindowsStageView::Failed(failure),
    }
}

/// Whether the position in a stage is one that the job has.
pub open spec fn fits(job: WindowsJobView, stage: WindowsStageView) -> bool {
    match stage {
        WindowsStageView::Renaming { at, patched } => 0 <= at < job.kinds.len() && job.kinds[at]
            == MemberKind::Coff,
        WindowsStageView::Defining { at, patched } => 0 <= at < libraries_made(job),
        WindowsStageView::Importing { at, patched } => 0 <= at < libraries_made(job),
        _ => true,
    }
}

proof fn lemma_next_coff(kinds: Seq<MemberKind>, at: int)
    requires
        0 <= at <= kinds.len(),
    ensures
        at <= next_coff(kinds, at) <= kinds.len(),
        next_coff(kinds, at) < kinds.len() ==> kinds[next_coff(kinds, at)] == MemberKind::Coff,
        forall|i: int| at <= i < next_coff(kinds, at) ==> #[trigger] kinds[i] != MemberKind::Coff,
    decreases kinds.len() - at,
{
    if at < kinds.len() && kinds[at] != MemberKind::Coff {
        lemma_next_coff(kinds, at + 1);
    }
}

fn continue_renaming(job: &WindowsJob, at: usize, patched: Vec<String>) -> (r: WindowsStage)
    requires
        at <= job.kinds.len(),
    ensures
        r.deep_view() == after_renaming(job.deep_view(), at as int, patched.deep_view()),
        fits(job.deep_view(), r.deep_view()),
{
    proof {
        lemma_next_coff(job.kinds@, at as int);
    }
    let n: usize = job.kinds.len();
    let mut next: usize = at;
    while next < n && job.kinds[next] != MemberKind::Coff
        invariant
            n == job.kinds.len(),
            next <= n,
            next_coff(job.kinds@, next as int) == next_coff(job.kinds@, at as int),
        decreases n - next,
    {
        next = next + 1;
    }
    if next < n {
        return WindowsStage::Renaming { at: next, patched };
    }
    if job.imports > 0 && !job.tool.handles_import_members {
        return WindowsStage::Failed(WindowsFailure::CannotRegenerate);
    }
    continue_importing(job, 0, patched)
}

fn continue_importing(job: &WindowsJob, at: usize, patched: Vec<String>) -> (r: WindowsStage)
    ensures
        r.deep_view() == after_importing(job.deep_view(), at as int, patched.deep_view()),
        fits(job.deep_view(), r.deep_view()),
{
    assert(job.libraries.deep_view().len() == job.libraries@.len());
    if job.imports > 0 && job.tool.handles_import_members && at < job.libraries.len() {
        WindowsStage::Defining { at, patched }
    } else {
        WindowsStage::Archiving { patched }
    }
}

/// Goes on with the patching of a COFF library after an action.
pub fn advance_windows(
    job: &WindowsJob,
    stage: WindowsStage,
    outcome: &Outcome,
) -> (r: WindowsStage)
    requires
        fits(job.deep_view(), stage.deep_view()),
    ensures
        r.deep_view() == windows_next(job.deep_view(), stage.deep_view(), outcome.deep_view()),
        fits(job.deep_view(), r.deep_view()),
{
    match stage {
        WindowsStage::WritingRenames => if outcome.started {
            let none: Vec<String> = Vec::new();
            assert(none.deep_view() =~= Seq::empty());
            continue_renaming(job, 0, none)
        } else {
            WindowsStage::Failed(WindowsFailure::CannotWriteRenames)
        },
        WindowsStage::Renaming { at, patched } => if !outcome.started {
            WindowsStage::Failed(WindowsFailure::CannotRename)
        } else {
            let mut patched = patched;
            let ghost before = patched.deep_view();
            let name = if outcome.success {
                patched_name(at)
            } else {
                object_name(at)
            };
            patched.push(name);
            assert(patched.deep_view() =~= before.push(name@));
            assert(at < job.kinds.len());
            continue_renaming(job, at + 1, patched)
        },
        WindowsStage::Defining { at, patched } => if outcome.started {
            WindowsStage::Importing { at, patched }
        } else {
            WindowsStage::Failed(WindowsFailure::CannotWriteDefinition)
        },
        WindowsStage::Importing { at, patched } => if outcome.started && outcome.success {
            assert(job.libraries.deep_view().len() == job.libraries@.len());
            assert(at < job.libraries.len());
            continue_importing(job, at + 1, patched)
        } else {
            WindowsStage::Failed(WindowsFailure::RegenerateFailed(at))
        },
        WindowsStage::Archiving { patched } => if !outcome.started {
            WindowsStage::Failed(WindowsFailure::CannotArchive)
        } else if !outcome.success {
            WindowsStage::Failed(WindowsFailure::ArchiveFailed)
        } else {
            WindowsStage::Done
        },
        WindowsStage::Done => WindowsStage::Done,
        WindowsStage::Failed(failure) => WindowsStage::Failed(failure),
    }
}

/// The stage that patching is at after the given outcomes.
pub open spec fn windows_after(
    job: WindowsJobView,
    outcomes: Seq<OutcomeView>,
) -> WindowsStageView
    decreases outcomes.len(),
{
    if outcomes.len() == 0 {
        WindowsStageView::WritingRenames
    } else {
        windows_next(job, windows_after(job, outcomes.drop_last()), outcomes.last())
    }
}

spec fn rank(job: WindowsJobView, stage: WindowsStageView) -> int {
    let kinds = job.kinds.len() as int;
    let libraries = libraries_made(job) as int;
    match stage {
        WindowsStageView::WritingRenames => 0,
        WindowsStageView::Renaming { at, patched } => at + 1,
        WindowsStageView::Defining { at, patched } => kinds + 2 * at + 1,
        WindowsStageView::Importing { at, patched } => kinds + 2 * at + 2,
        WindowsStageView::Archiving { patched } => kinds + 2 * libraries + 1,
        WindowsStageView::Done => kinds + 2 * libraries + 2,
        WindowsStageView::Failed(_) => kinds + 2 * libraries + 2,
    }
}

proof fn lemma_fits(job: WindowsJobView, outcomes: Seq<OutcomeView>)
    ensures
        fits(job, windows_after(job, outcomes)),
        rank(job, windows_after(job, outcomes)) >= outcomes.len() || windows_after(
            job,
            outcomes,
        ) is Done || windows_after(job, outcomes) is Failed,
    decreases outcomes.len(),
{
    if outcomes.len() > 0 {
        lemma_fits(job, outcomes.drop_last());
        match windows_after(job, outcomes.drop_last()) {
            WindowsStageView::WritingRenames => {
                lemma_next_coff(job.kinds, 0);
            },
            WindowsStageView::Renaming { at, patched } => {
                lemma_next_coff(job.kinds, at + 1);
            },
            _ => {},
        }
    }
}

/// Patching ends, with success or failure: it takes an action for the list of
/// renames, one for each object, two for each import library, and one for the
/// archive, at most.
pub proof fn windows_patching_ends(job: WindowsJobView, outcomes: Seq<OutcomeView>)
    requires
        outcomes.len() >= job.kinds.len() + 2 * job.libraries.len() + 2,
    ensures
        windows_after(job, outcomes) is Done || windows_after(job, outcomes) is Failed,
{
    lemma_fits(job, outcomes);
}

/// Whether the files are those of all regular objects among the members, in their
/// order, each of them with its symbols renamed or as it is.
pub open spec fn covers(kinds: Seq<MemberKind>, files: Seq<Seq<char>>) -> bool
    decreases kinds.len(),
{
    if kinds.len() == 0 {
        files.len() == 0
    } else if kinds.last() == MemberKind::Coff {
        &&& files.len() > 0
        &&& files.last() == object_text(kinds.len() - 1) || files.last() == patched_text(
            kinds.len() - 1,
        )
        &&& covers(kinds.drop_last(), files.drop_last())
    } else {
        covers(kinds.drop_last(), files)
    }
}

proof fn lemma_covers_on(kinds: Seq<MemberKind>, at: int, next: int, files: Seq<Seq<char>>)
    requires
        0 <= at <= next <= kinds.len(),
        forall|i: int| at <= i < next ==> #[trigger] kinds[i] != MemberKind::Coff,
        covers(kinds.take(at), files),
    ensures
        covers(kinds.take(next), files),
    decreases next,
{
    if at < next {
        lemma_covers_on(kinds, at, next - 1, files);
        assert(kinds.take(next).drop_last() =~= kinds.take(next - 1));
        assert(kinds.take(next).last() == kinds[next - 1]);
    }
}

proof fn lemma_after_renaming(job: WindowsJobView, at: int, patched: Seq<Seq<char>>)
    requires
        0 <= at <= job.kinds.len(),
        covers(job.kinds.take(at), patched),
    ensures
        match after_renaming(job, at, patched) {
            WindowsStageView::Renaming { at, patched } => covers(job.kinds.take(at), patched),
            WindowsStageView::Defining { at, patched } => covers(job.kinds, patched),
            WindowsStageView::Archiving { patched } => covers(job.kinds, patched),
            _ => true,
        },
{
    lemma_next_coff(job.kinds, at);
    lemma_covers_on(job.kinds, at, next_coff(job.kinds, at), patched);
    assert(job.kinds.take(job.kinds.len() as int) =~= job.kinds);
}

/// Every regular object reaches the archive, once and in its place: with its symbols
/// renamed, or as it is where they could not be renamed.
pub proof fn every_object_is_archived(job: WindowsJobView, outcomes: Seq<OutcomeView>)
    ensures
        match windows_after(job, outcomes) {
            WindowsStageView::Renaming { at, patched } => covers(job.kinds.take(at), patched),
            WindowsStageView::Defining { at, patched } => covers(job.kinds, patched),
            WindowsStageView::Importing { at, patched } => covers(job.kinds, patched),
            WindowsStageView::Archiving { patched } => covers(job.kinds, patched),
            _ => true,
        },
    decreases outcomes.len(),
{
    if outcomes.len() > 0 {
        let before = outcomes.drop_last();
        every_object_is_archived(job, before);
        lemma_fits(job, before);
        match windows_after(job, before) {
            WindowsStageView::WritingRenames => {
                lemma_after_renaming(job, 0, Seq::empty());
            },
            WindowsStageView::Renaming { at, patched } => {
                let file = if outcomes.last().success {
                    patched_text(at)
                } else {
                    object_text(at)
                };
                let files = patched.push(file);
                assert(job.kinds.take(at + 1).drop_last() =~= job.kinds.take(at));
                assert(files.drop_last() =~= patched);
                assert(covers(job.kinds.take(at + 1), files));
                lemma_after_renaming(job, at + 1, files);
            },
            _ => {},
        }
    }
}

/// Whether an import library was made, by an action that turned out well.
pub open spec fn is_made(job: WindowsJobView, outcomes: Seq<OutcomeView>, k: int) -> bool {
    exists|n: int|
        0 < n <= outcomes.len() && outcomes[n - 1].ok() && (#[trigger] windows_after(
            job,
            outcomes.take(n - 1),
        ) matches WindowsStageView::Importing { at, .. } && at == k)
}

/// No import is dropped: where a library has DLL imports, it is archived only with
/// an archiver that makes import libraries, and only after all of them are made.
pub proof fn no_import_is_dropped(job: WindowsJobView, outcomes: Seq<OutcomeView>)
    requires
        job.imports > 0,
        windows_after(job, outcomes) is Archiving || windows_after(job, outcomes) is Done,
    ensures
        job.tool.handles_import_members,
        libraries_made(job) == job.libraries.len(),
        forall|k: int| 0 <= k < job.libraries.len() ==> is_made(job, outcomes, k),
{
    lemma_imports_made(job, outcomes);
}

proof fn lemma_made_stays(job: WindowsJobView, outcomes: Seq<OutcomeView>, k: int)
    requires
        outcomes.len() > 0,
        is_made(job, outcomes.drop_last(), k),
    ensures
        is_made(job, outcomes, k),
{
    let before = outcomes.drop_last();
    let n = choose|n: int|
        0 < n <= before.len() && before[n - 1].ok() && (#[trigger] windows_after(
            job,
            before.take(n - 1),
        ) matches WindowsStageView::Importing { at, .. } && at == k);
    assert(before.take(n - 1) =~= outcomes.take(n - 1));
    assert(before[n - 1] == outcomes[n - 1]);
}

proof fn lemma_imports_made(job: WindowsJobView, outcomes: Seq<OutcomeView>)
    requires
        job.imports > 0,
    ensures
        match windows_after(job, outcomes) {
            WindowsStageView::Defining { at, patched } => job.tool.handles_import_members && forall|
                k: int,
            |
                0 <= k < at ==> is_made(job, outcomes, k),
            WindowsStageView::Importing { at, patched } => job.tool.handles_import_members
                && forall|k: int| 0 <= k < at ==> is_made(job, outcomes, k),
            WindowsStageView::Archiving { patched } => job.tool.handles_import_members && forall|
                k: int,
            |
                0 <= k < job.libraries.len() ==> is_made(job, outcomes, k),
            WindowsStageView::Done => job.tool.handles_import_members && forall|k: int|
                0 <= k < job.libraries.len() ==> is_made(job, outcomes, k),
            _ => true,
        },
    decreases outcomes.len(),
{
    if outcomes.len() > 0 {
        let before = outcomes.drop_last();
        lemma_imports_made(job, before);
        lemma_fits(job, before);
        assert forall|k: int| is_made(job, before, k) implies is_made(job, outcomes, k) by {
            lemma_made_stays(job, outcomes, k);
        }
        if let WindowsStageView::Importing { at, patched } = windows_after(job, before) {
            if outcomes.last().ok() {
                assert(outcomes.take(outcomes.len() - 1) =~= before);
                assert(outcomes[outcomes.len() - 1] == outcomes.last());
                assert(is_made(job, outcomes, at));
            }
        }
    }
}

proof fn lemma_rename_rows(renames: Seq<(Seq<char>, Seq<char>)>, rest: Seq<char>)
    requires
        forall|i: int, j: int|
            0 <= i < renames.len() && 0 <= j < renames[i].0.len() ==> !text::is_space(
                #[trigger] renames[i].0[j],
            ),
        forall|i: int, j: int|
            0 <= i < renames.len() && 0 <= j < renames[i].1.len() ==> !text::is_space(
                #[trigger] renames[i].1[j],
            ),
        forall|i: int|
            0 <= i < renames.len() ==> (#[trigger] renames[i]).0.len() > 0 && renames[i].1.len()
                > 0,
        forall|j: int| 0 <= j < rest.len() ==> #[trigger] rest[j] != '\n',
    ensures
        text::rows(rename_lines(renames) + rest) == renames.map_values(
            |rename: (Seq<char>, Seq<char>)| seq![rename.0, rename.1],
        ).push(text::words(rest)),
    decreases renames.len(),
{
    let row = |rename: (Seq<char>, Seq<char>)| seq![rename.0, rename.1];
    text::rows_are_the_words_of_the_lines(rest, Seq::empty());
    if renames.len() == 0 {
        assert(rename_lines(renames) + rest =~= rest);
        assert(text::rows(rest) =~= renames.map_values(row).push(text::words(rest)));
    } else {
        reveal_strlit(" ");
        reveal_strlit("\n");
        let front = renames.drop_last();
        let (from, to) = renames.last();
        let n = renames.len() - 1;
        let line = from.push(' ') + to;
        assert forall|j: int| 0 <= j < from.len() implies !text::is_space(#[trigger] from[j]) by {
            assert(!text::is_space(renames[n].0[j]));
        }
        assert forall|j: int| 0 <= j < to.len() implies !text::is_space(#[trigger] to[j]) by {
            assert(!text::is_space(renames[n].1[j]));
        }
        assert(renames[n].0.len() > 0 && renames[n].1.len() > 0);
        assert forall|j: int| 0 <= j < line.len() implies #[trigger] line[j] != '\n' by {
            if j < from.len() {
                assert(!text::is_space(from[j]));
            } else if j > from.len() {
                assert(!text::is_space(to[j - from.len() - 1]));
            }
        }
        text::white_space_separates_words(from, ' ', to);
        text::an_unbroken_run_is_one_word(from);
        text::an_unbroken_run_is_one_word(to);
        assert(text::words(line) =~= seq![from, to]);
        assert forall|i: int, j: int|
            0 <= i < front.len() && 0 <= j < front[i].0.len() implies !text::is_space(
            #[trigger] front[i].0[j],
        ) by {
            assert(!text::is_space(renames[i].0[j]));
        }
        assert forall|i: int, j: int|
            0 <= i < front.len() && 0 <= j < front[i].1.len() implies !text::is_space(
            #[trigger] front[i].1[j],
        ) by {
            assert(!text::is_space(renames[i].1[j]));
        }
        assert forall|i: int| 0 <= i < front.len() implies (#[trigger] front[i]).0.len() > 0
            && front[i].1.len() > 0 by {
            assert(renames[i].0.len() > 0 && renames[i].1.len() > 0);
        }
        lemma_rename_rows(front, line);
        let head = rename_lines(front) + line;
        assert(rename_lines(renames) + rest =~= head.push('\n') + rest);
        text::rows_are_the_words_of_the_lines(head, rest);
        assert(text::rows(rename_lines(renames) + rest) =~= renames.map_values(row).push(
            text::words(rest),
        ));
    }
}

/// The list of renames is read back: each line has the old name and the new one, and
/// nothing follows the last line.
pub proof fn renames_are_read_back(renames: Seq<(Seq<char>, Seq<char>)>)
    requires
        forall|i: int, j: int|
            0 <= i < renames.len() && 0 <= j < renames[i].0.len() ==> !text::is_space(
                #[trigger] renames[i].0[j],
            ),
        forall|i: int, j: int|
            0 <= i < renames.len() && 0 <= j < renames[i].1.len() ==> !text::is_space(
                #[trigger] renames[i].1[j],
            ),
        forall|i: int|
            0 <= i < renames.len() ==> (#[trigger] renames[i]).0.len() > 0 && renames[i].1.len()
                > 0,
    ensures
        text::rows(rename_lines(renames)).len() == renames.len() + 1,
        forall|i: int|
            0 <= i < renames.len() ==> #[trigger] text::rows(rename_lines(renames))[i] == seq![
                renames[i].0,
                renames[i].1,
            ],
        text::rows(rename_lines(renames)).last().len() == 0,
{
    let none = Seq::<char>::empty();
    lemma_rename_rows(renames, none);
    text::an_unbroken_run_is_one_word(none);
    assert(rename_lines(renames) + none =~= rename_lines(renames));
}

/// Every object goes through the renaming tool with the list of renames, from a file
/// of its own to another one.
pub proof fn objects_go_through_the_renaming_tool(
    job: WindowsJobView,
    at: int,
    patched: Seq<Seq<char>>,
)
    requires
        0 <= at,
    ensures
        windows_action_at(job, WindowsStageView::WritingRenames) == ActionView::Write(
            FileView::Object("renames.txt"@),
            rename_lines(job.renames),
        ),
        windows_action_at(job, WindowsStageView::Renaming { at, patched }) matches ActionView::Run(
            run,
        ) && {
            &&& run.program == ProgramView::Objcopy
            &&& !run.among_objects
            &&& run.args.len() == 3
            &&& run.args[0] == ArgView::Joined(
                "--redefine-syms="@,
                FileView::Object("renames.txt"@),
            )
            &&& run.args[1] == ArgView::Path(
                FileView::Object(text::decimal_text(at as nat) + ".obj"@),
            )
            &&& run.args[2] == ArgView::Path(
                FileView::Object(text::decimal_text(at as nat) + "_patched.obj"@),
            )
            &&& run.args[1] != run.args[2]
        },
        object_text(at) == text::decimal_text(at as nat) + ".obj"@,
{
    reveal_strlit(".obj");
    reveal_strlit("_patched.obj");
    let number = text::decimal_text(at as nat);
    assert((number + ".obj"@).len() != (number + "_patched.obj"@).len());
}

/// The files of different objects have different names, whether their symbols are
/// renamed or not.
pub proof fn object_files_differ(i: nat, j: nat)
    requires
        i != j,
    ensures
        object_text(i as int) != object_text(j as int),
        patched_text(i as int) != patched_text(j as int),
        object_text(i as int) != patched_text(j as int),
{
    reveal_strlit(".obj");
    reveal_strlit("_patched.obj");
    let a = text::decimal_text(i);
    let b = text::decimal_text(j);
    if object_text(i as int) == object_text(j as int) {
        assert(a =~= object_text(i as int).take(object_text(i as int).len() - 4));
        assert(b =~= object_text(j as int).take(object_text(j as int).len() - 4));
        text::lemma_decimal_injective(i, j);
    }
    if patched_text(i as int) == patched_text(j as int) {
        assert(a =~= patched_text(i as int).take(patched_text(i as int).len() - 12));
        assert(b =~= patched_text(j as int).take(patched_text(j as int).len() - 12));
        text::lemma_decimal_injective(i, j);
    }
    if object_text(i as int) == patched_text(j as int) {
        let whole = object_text(i as int);
        assert(whole[whole.len() - 5] == a[a.len() - 1]);
        assert(whole[whole.len() - 5] == "_patched.obj"@[7]);
        lemma_ends_with_a_digit(i);
    }
}

proof fn lemma_ends_with_a_digit(n: nat)
    ensures
        text::decimal_text(n).len() > 0,
        0x30 <= text::decimal_text(n).last() as u32 <= 0x39,
{
}

/// Each import library is made from the definition file that was written for it, and
/// the archiver is given the objects in their order and then every import library that
/// was made, by the very name under which it was made.
pub proof fn every_file_reaches_the_archiver(
    job: WindowsJobView,
    patched: Seq<Seq<char>>,
    k: int,
)
    requires
        !job.tool.is_llvm,
        job.imports > 0,
        job.tool.handles_import_members,
        0 <= k < job.libraries.len(),
    ensures
        windows_action_at(job, WindowsStageView::Defining { at: k, patched })
            matches ActionView::Write(file, definition) && {
            &&& file == FileView::Object("imp"@ + text::decimal_text(k as nat) + ".def"@)
            &&& definition == job.libraries[k].definition
        },
        windows_action_at(job, WindowsStageView::Importing { at: k, patched })
            matches ActionView::Run(make) && {
            let library = "imp"@ + text::decimal_text(k as nat) + ".lib"@;
            let definition = "imp"@ + text::decimal_text(k as nat) + ".def"@;
            let front: int = if job.tool.machine_type is Some {
                2
            } else {
                1
            };
            &&& make.program == ProgramView::Named(job.tool.tool)
            &&& make.among_objects
            &&& make.args.len() == front + 2
            &&& make.args[0] == ArgView::Text("/nologo"@)
            &&& job.tool.machine_type is Some ==> make.args[1] == ArgView::Text(
                "/MACHINE:"@ + job.tool.machine_type->0,
            )
            &&& make.args[front] == ArgView::Text("/def:"@ + definition)
            &&& make.args[front + 1] == ArgView::Text("/out:"@ + library)
            &&& windows_action_at(job, WindowsStageView::Archiving { patched })
                matches ActionView::Run(run) && {
                &&& run.program == ProgramView::Named(job.tool.tool)
                &&& run.among_objects
                &&& run.args.len() == front + 1 + patched.len() + job.libraries.len()
                &&& run.args[0] == ArgView::Text("/nologo"@)
                &&& job.tool.machine_type is Some ==> run.args[1] == ArgView::Text(
                    "/MACHINE:"@ + job.tool.machine_type->0,
                )
                &&& run.args[front] == ArgView::Joined("/OUT:"@, FileView::AbsoluteOutput)
                &&& forall|i: int|
                    0 <= i < patched.len() ==> run.args[front + 1 + i] == ArgView::Text(
                        #[trigger] patched[i],
                    )
                &&& run.args[front + 1 + patched.len() + k] == ArgView::Text(library)
            }
        },
{
}

/// Where there are no imports, or only an archiver that cannot make import libraries,
/// the archiver is given the objects in their order and nothing else, in the way that
/// it is used to.
pub proof fn objects_alone_reach_the_archiver(job: WindowsJobView, patched: Seq<Seq<char>>)
    requires
        job.tool.is_llvm || job.imports == 0 || !job.tool.handles_import_members,
    ensures
        windows_action_at(job, WindowsStageView::Archiving { patched }) matches ActionView::Run(run)
            && {
            let front: int = if job.tool.is_llvm || job.tool.machine_type is None {
                1
            } else {
                2
            };
            &&& run.program == ProgramView::Named(job.tool.tool)
            &&& run.among_objects
            &&& run.args.len() == front + 1 + patched.len()
            &&& job.tool.is_llvm ==> run.args[0] == ArgView::Text("rc"@) && run.args[1]
                == ArgView::Path(FileView::AbsoluteOutput)
            &&& !job.tool.is_llvm ==> run.args[0] == ArgView::Text("/nologo"@) && run.args[front]
                == ArgView::Joined("/OUT:"@, FileView::AbsoluteOutput)
            &&& !job.tool.is_llvm && job.tool.machine_type is Some ==> run.args[1] == ArgView::Text(
                "/MACHINE:"@ + job.tool.machine_type->0,
            )
            &&& forall|i: int|
                0 <= i < patched.len() ==> run.args[front + 1 + i] == ArgView::Text(
                    #[trigger] patched[i],
                )
        },
{
}

proof fn lemma_next_coff_is(kinds: Seq<MemberKind>, at: int, j: int)
    requires
        0 <= at <= j <= kinds.len(),
        forall|i: int| at <= i < j ==> #[trigger] kinds[i] != MemberKind::Coff,
        j < kinds.len() ==> kinds[j] == MemberKind::Coff,
    ensures
        next_coff(kinds, at) == j,
    decreases j - at,
{
    if at < j {
        assert(kinds[at] != MemberKind::Coff);
        lemma_next_coff_is(kinds, at + 1, j);
    }
}

/// The objects come one after the other. After the object at some position the next
/// one has its turn, none is left out, and the file to archive is the new one where
/// its symbols were renamed and the old one where they could not be.
pub proof fn the_next_object_has_its_turn(
    job: WindowsJobView,
    at: int,
    patched: Seq<Seq<char>>,
    outcome: OutcomeView,
    j: int,
)
    requires
        outcome.started,
        0 <= at < j <= job.kinds.len(),
        forall|i: int| at < i < j ==> #[trigger] job.kinds[i] != MemberKind::Coff,
        j < job.kinds.len() ==> job.kinds[j] == MemberKind::Coff,
    ensures
        ({
            let file = text::decimal_text(at as nat) + if outcome.success {
                "_patched.obj"@
            } else {
                ".obj"@
            };
            let files = patched.push(file);
            let next = windows_next(job, WindowsStageView::Renaming { at, patched }, outcome);
            &&& j < job.kinds.len() ==> next == (WindowsStageView::Renaming {
                at: j,
                patched: files,
            })
            &&& j == job.kinds.len() && job.imports > 0 && !job.tool.handles_import_members
                ==> next == WindowsStageView::Failed(WindowsFailureView::CannotRegenerate)
            &&& j == job.kinds.len() && job.imports > 0 && job.tool.handles_import_members
                && job.libraries.len() > 0 ==> next == (WindowsStageView::Defining {
                at: 0,
                patched: files,
            })
            &&& j == job.kinds.len() && (job.imports == 0 || (job.tool.handles_import_members
                && job.libraries.len() == 0)) ==> next == (WindowsStageView::Archiving {
                patched: files,
            })
        }),
{
    lemma_next_coff_is(job.kinds, at + 1, j);
}

/// The first object has the first turn, as soon as the renames are written down.
pub proof fn the_first_object_has_the_first_turn(job: WindowsJobView, outcome: OutcomeView, j: int)
    requires
        0 <= j <= job.kinds.len(),
        forall|i: int| 0 <= i < j ==> #[trigger] job.kinds[i] != MemberKind::Coff,
        j < job.kinds.len() ==> job.kinds[j] == MemberKind::Coff,
    ensures
        ({
            let next = windows_next(job, WindowsStageView::WritingRenames, outcome);
            &&& !outcome.started ==> next == WindowsStageView::Failed(
                WindowsFailureView::CannotWriteRenames,
            )
            &&& outcome.started && j < job.kinds.len() ==> next == (WindowsStageView::Renaming {
                at: j,
                patched: Seq::empty(),
            })
            &&& outcome.started && j == job.kinds.len() && job.imports > 0
                && !job.tool.handles_import_members ==> next == WindowsStageView::Failed(
                WindowsFailureView::CannotRegenerate,
            )
            &&& outcome.started && j == job.kinds.len() && job.imports > 0
                && job.tool.handles_import_members && job.libraries.len() > 0 ==> next == (
            WindowsStageView::Defining { at: 0, patched: Seq::empty() })
            &&& outcome.started && j == job.kinds.len() && (job.imports == 0 || (
            job.tool.handles_import_members && job.libraries.len() == 0)) ==> next == (
            WindowsStageView::Archiving { patched: Seq::empty() })
        }),
{
    lemma_next_coff_is(job.kinds, 0, j);
}

/// The import libraries come one after the other, each by way of its definition file,
/// and the archive comes after the last. One that cannot be made ends the patching.
pub proof fn import_libraries_come_one_by_one(
    job: WindowsJobView,
    at: int,
    patched: Seq<Seq<char>>,
    outcome: OutcomeView,
)
    requires
        job.imports > 0,
        job.tool.handles_import_members,
        0 <= at < job.libraries.len(),
    ensures
        windows_next(job, WindowsStageView::Defining { at, patched }, outcome)
            == if outcome.started {
            WindowsStageView::Importing { at, patched }
        } else {
            WindowsStageView::Failed(WindowsFailureView::CannotWriteDefinition)
        },
        outcome.started && outcome.success && at + 1 < job.libraries.len() ==> windows_next(
            job,
            WindowsStageView::Importing { at, patched },
            outcome,
        ) == (WindowsStageView::Defining { at: at + 1, patched }),
        outcome.started && outcome.success && at + 1 == job.libraries.len() ==> windows_next(
            job,
            WindowsStageView::Importing { at, patched },
            outcome,
        ) == (WindowsStageView::Archiving { patched }),
        !outcome.started || !outcome.success ==> windows_next(
            job,
            WindowsStageView::Importing { at, patched },
            outcome,
        ) == WindowsStageView::Failed(WindowsFailureView::RegenerateFailed(at)),
{
}

/// The archive ends the patching, well or not, as does a renaming tool that does not
/// start; and what is over stays over.
pub proof fn the_archive_ends_the_patching(
    job: WindowsJobView,
    at: int,
    patched: Seq<Seq<char>>,
    outcome: OutcomeView,
    failure: WindowsFailureView,
)
    ensures
        windows_next(job, WindowsStageView::Archiving { patched }, outcome)
            == if !outcome.started {
            WindowsStageView::Failed(WindowsFailureView::CannotArchive)
        } else if outcome.success {
            WindowsStageView::Done
        } else {
            WindowsStageView::Failed(WindowsFailureView::ArchiveFailed)
        },
        !outcome.started ==> windows_next(
            job,
            WindowsStageView::Renaming { at, patched },
            outcome,
        ) == WindowsStageView::Failed(WindowsFailureView::CannotRename),
        windows_next(job, WindowsStageView::Done, outcome) is Done,
        windows_next(job, WindowsStageView::Failed(failure), outcome) == WindowsStageView::Failed(
            failure,
        ),
        windows_action_at(job, WindowsStageView::Done) is Nothing,
{
}

proof fn lemma_covers_each(kinds: Seq<MemberKind>, files: Seq<Seq<char>>, i: int)
    requires
        covers(kinds, files),
        0 <= i < kinds.len(),
        kinds[i] == MemberKind::Coff,
    ensures
        files.contains(object_text(i)) || files.contains(patched_text(i)),
    decreases kinds.len(),
{
    let front = kinds.drop_last();
    if i == kinds.len() - 1 {
        assert(files[files.len() - 1] == files.last());
    } else {
        assert(front[i] == kinds[i]);
        if kinds.last() == MemberKind::Coff {
            let fewer = files.drop_last();
            lemma_covers_each(front, fewer, i);
            if fewer.contains(object_text(i)) {
                let k = choose|k: int| 0 <= k < fewer.len() && fewer[k] == object_text(i);
                assert(files[k] == object_text(i));
            } else {
                let k = choose|k: int| 0 <= k < fewer.len() && fewer[k] == patched_text(i);
                assert(files[k] == patched_text(i));
            }
        } else {
            lemma_covers_each(front, files, i);
        }
    }
}

/// No object is lost on the way: once the archive has its turn, the files to archive
/// hold that of every COFF object, the new one or the old one.
pub proof fn no_object_is_lost(
    job: WindowsJobView,
    outcomes: Seq<OutcomeView>,
    patched: Seq<Seq<char>>,
    i: int,
)
    requires
        windows_after(job, outcomes) == (WindowsStageView::Archiving { patched }),
        0 <= i < job.kinds.len(),
        job.kinds[i] == MemberKind::Coff,
    ensures
        patched.contains(text::decimal_text(i as nat) + ".obj"@) || patched.contains(
            text::decimal_text(i as nat) + "_patched.obj"@,
        ),
{
    every_object_is_archived(job, outcomes);
    lemma_covers_each(job.kinds, patched, i);
}

/// The patching of a scanned library takes all that the scan found: the kinds of the
/// members, the renames, and an import library for each DLL of its imports.
pub proof fn patching_takes_what_the_scan_found(scan: ScanView, tool: LibToolView)
    ensures
        scan.renames.len() > 0 ==> windows_start(scan, Some(tool), true) == WindowsStartView::Patch(
            windows_job(scan, tool),
        ),
        windows_job(scan, tool).kinds == scan.kinds,
        windows_job(scan, tool).renames == scan.renames,
        windows_job(scan, tool).imports == scan.imports.len(),
        windows_job(scan, tool).libraries == deffile::libraries_of(scan.imports),
        windows_job(scan, tool).tool == tool,
{
}

/// One more rename adds a line with the old name, a space and the new name.
pub proof fn one_more_rename_adds_its_line(
    renames: Seq<(Seq<char>, Seq<char>)>,
    from: Seq<char>,
    to: Seq<char>,
)
    ensures
        rename_lines(Seq::empty()).len() == 0,
        rename_lines(renames.push((from, to))) == rename_lines(renames) + from + " "@ + to + "\n"@,
{
    assert(renames.push((from, to)).drop_last() =~= renames);
}

/// A library is patched exactly where there is something to rename and both tools are
/// there. Without anything to rename it is copied, whatever the tools; and of the
/// tools, the archiver is missed first.
pub proof fn patching_needs_renames_and_tools(
    scan: ScanView,
    tool: Option<LibToolView>,
    can_rename: bool,
)
    ensures
        windows_start(scan, tool, can_rename) is CopyUnchanged <==> scan.renames.len() == 0,
        windows_start(scan, tool, can_rename) is NoArchiver <==> scan.renames.len() > 0
            && tool is None,
        windows_start(scan, tool, can_rename) is NoRenameTool <==> scan.renames.len() > 0
            && tool is Some && !can_rename,
        windows_start(scan, tool, can_rename) is Patch <==> scan.renames.len() > 0 && tool is Some
            && can_rename,
{
}

} // verus!
