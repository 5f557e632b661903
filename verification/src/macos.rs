//! Patching of Apple libraries: the objects are linked into one, which is linked
//! again with a list of the symbols that stay exported, and archived.

use vstd::prelude::*;
use vstd::string::*;

use crate::command::{
    text_arg, Action, ActionView, Arg, ArgView, FileRef, FileView, Invocation, InvocationView,
    Outcome, OutcomeView, Program, ProgramView,
};
use crate::nm;
use crate::nm::{keep_symbols_from_nm, symbols_to_hide_from_nm};
use crate::target;
use crate::target::apple_platform_version;
use crate::text;
use crate::text::{concat, decimal, join, lossy_text, same};

verus! {

/// The name under which Apple tools know an architecture.
pub open spec fn apple_arch(target_arch: Seq<char>) -> Seq<char> {
    if target_arch == "aarch64"@ || target_arch == "arm64"@ {
        "arm64"@
    } else {
        target_arch
    }
}

/// The patching of one Apple library.
pub struct MacJob {
    /// The base of the names of temporary files.
    pub lib_name: String,
    pub keep_prefix: String,
    pub arch: String,
    /// The platform, its lowest version, and the version of its SDK.
    pub platform: (&'static str, &'static str, &'static str),
    /// The number of extracted objects.
    pub objects: u64,
}

/// What a `MacJob` says.
pub struct MacJobView {
    pub lib_name: Seq<char>,
    pub keep_prefix: Seq<char>,
    pub arch: Seq<char>,
    pub platform: (Seq<char>, Seq<char>, Seq<char>),
    pub objects: nat,
}

impl DeepView for MacJob {
    type V = MacJobView;

    open spec fn deep_view(&self) -> MacJobView {
        MacJobView {
            lib_name: self.lib_name@,
            keep_prefix: self.keep_prefix@,
            arch: self.arch@,
            platform: (self.platform.0@, self.platform.1@, self.platform.2@),
            objects: self.objects as nat,
        }
    }
}

/// Prepares the patching of an Apple library with the given number of objects.
pub fn patch_macos(
    lib_name: &str,
    keep_prefix: &str,
    target_arch: &str,
    triplet: Option<&str>,
    objects: u64,
) -> (r: MacJob)
    ensures
        r.deep_view() == (MacJobView {
            lib_name: lib_name@,
            keep_prefix: keep_prefix@,
            arch: apple_arch(target_arch@),
            platform: target::apple_platform(triplet.deep_view(), apple_arch(target_arch@)),
            objects: objects as nat,
        }),
{
    let arch = if same(target_arch, "aarch64") || same(target_arch, "arm64") {
        "arm64"
    } else {
        target_arch
    };
    MacJob {
        lib_name: lib_name.to_owned(),
        keep_prefix: keep_prefix.to_owned(),
        arch: arch.to_owned(),
        platform: apple_platform_version(triplet, arch),
        objects,
    }
}

/// Why an Apple library could not be patched.
#[derive(Clone, Copy, PartialEq, Eq, Debug, Structural)]
pub enum MacFailure {
    CannotLink,
    LinkFailed,
    CannotRead,
    ReadFailed,
    CannotReadAll,
    CannotWriteList,
    CannotFilter,
    FilterFailed,
    CannotArchive,
    ArchiveFailed,
}

/// How far the patching of an Apple library has come. It starts with `Linking`.
pub enum MacStage {
    /// The objects are linked into one.
    Linking,
    /// The defined global symbols of that object are listed.
    ListingDefined,
    /// All its global symbols are listed; the names to hide are known.
    ListingAll(Vec<String>),
    /// The names to export are written down.
    Exporting(Vec<String>),
    /// The object is linked again, with that list.
    Filtering,
    /// The new object is archived.
    Archiving,
    /// Temporary files are removed.
    Tidying,
    Done,
    Failed(MacFailure),
}

/// What a `MacStage` says.
pub enum MacStageView {
    Linking,
    ListingDefined,
    ListingAll(Seq<Seq<char>>),
    Exporting(Seq<Seq<char>>),
    Filtering,
    Archiving,
    Tidying,
    Done,
    Failed(MacFailure),
}

impl DeepView for MacStage {
    type V = MacStageView;

    open spec fn deep_view(&self) -> MacStageView {
        match self {
            MacStage::Linking => MacStageView::Linking,
            MacStage::ListingDefined => MacStageView::ListingDefined,
            MacStage::ListingAll(names) => MacStageView::ListingAll(names.deep_view()),
            MacStage::Exporting(names) => MacStageView::Exporting(names.deep_view()),
            MacStage::Filtering => MacStageView::Filtering,
            MacStage::Archiving => MacStageView::Archiving,
            MacStage::Tidying => MacStageView::Tidying,
            MacStage::Done => MacStageView::Done,
            MacStage::Failed(failure) => MacStageView::Failed(*failure),
        }
    }
}

/// The object that all objects of the library are linked into.
pub open spec fn linked(job: MacJobView) -> FileView {
    FileView::Temp(job.lib_name + "_temp.o"@)
}

/// The object that exports the interface only.
pub open spec fn filtered(job: MacJobView) -> FileView {
    FileView::Temp(job.lib_name + "_final.o"@)
}

/// The list of the names to export.
pub open spec fn export_list() -> FileView {
    FileView::Temp("keep_symbols.txt"@)
}

/// The file for the object with the given number.
pub open spec fn object_file(i: nat) -> FileView {
    FileView::Object(text::decimal_text(i) + ".o"@)
}

/// A developer tool with its arguments.
pub open spec fn running(program: Seq<char>, args: Seq<ArgView>) -> ActionView {
    ActionView::Run(
        InvocationView { program: ProgramView::Named(program), args, among_objects: false },
    )
}

/// The arguments of a link that keeps its output an object.
pub open spec fn link_args(job: MacJobView, output: FileView) -> Seq<ArgView> {
    seq![
        ArgView::Text("ld"@),
        ArgView::Text("-arch"@),
        ArgView::Text(job.arch),
        ArgView::Text("-r"@),
        ArgView::Text("-platform_version"@),
        ArgView::Text(job.platform.0),
        ArgView::Text(job.platform.1),
        ArgView::Text(job.platform.2),
        ArgView::Text("-o"@),
        ArgView::Path(output),
    ]
}

/// What is to be done at a stage.
pub open spec fn mac_action_at(job: MacJobView, stage: MacStageView) -> ActionView {
    match stage {
        MacStageView::Linking => running(
            "xcrun"@,
            link_args(job, linked(job)) + Seq::new(
                job.objects,
                |i: int| ArgView::Path(object_file(i as nat)),
            ),
        ),
        MacStageView::ListingDefined => running(
            "xcrun"@,
            seq![
                ArgView::Text("nm"@),
                ArgView::Text("-g"@),
                ArgView::Text("-U"@),
                ArgView::Path(linked(job)),
            ],
        ),
        MacStageView::ListingAll(_) => running(
            "xcrun"@,
            seq![ArgView::Text("nm"@), ArgView::Text("-g"@), ArgView::Path(linked(job))],
        ),
        MacStageView::Exporting(names) => ActionView::Write(
            export_list(),
            text::joined(names, "\n"@),
        ),
        MacStageView::Filtering => running(
            "xcrun"@,
            link_args(job, filtered(job)) + seq![
                ArgView::Text("-exported_symbols_list"@),
                ArgView::Path(export_list()),
                ArgView::Path(linked(job)),
            ],
        ),
        MacStageView::Archiving => running(
            "ar"@,
            seq![
                ArgView::Text("rcs"@),
                ArgView::Path(FileView::Output),
                ArgView::Path(filtered(job)),
            ],
        ),
        MacStageView::Tidying => ActionView::RemoveWithObjects(
            seq![linked(job), filtered(job), export_list()],
        ),
        MacStageView::Done => ActionView::Nothing,
        MacStageView::Failed(_) => ActionView::Nothing,
    }
}

fn temp(lib_name: &str, suffix: &str) -> (r: FileRef)
    ensures
        r.deep_view() == FileView::Temp(lib_name@ + suffix@),
{
    FileRef::Temp(concat(lib_name, suffix))
}

fn run(program: &str, args: Vec<Arg>) -> (r: Action)
    ensures
        r.deep_view() == running(program@, args.deep_view()),
{
    Action::Run(
        Invocation { program: Program::Named(program.to_owned()), args, among_objects: false },
    )
}

/// Names the file for the object with the given number.
pub fn object_name(i: u64) -> (r: FileRef)
    ensures
        r.deep_view() == object_file(i as nat),
{
    FileRef::Object(concat(decimal(i).as_str(), ".o"))
}

fn ld_args(job: &MacJob, output: FileRef) -> (r: Vec<Arg>)
    ensures
        r.deep_view() == link_args(job.deep_view(), output.deep_view()),
{
    let args = vec![
        text_arg("ld"),
        text_arg("-arch"),
        text_arg(job.arch.as_str()),
        text_arg("-r"),
        text_arg("-platform_version"),
        text_arg(job.platform.0),
        text_arg(job.platform.1),
        text_arg(job.platform.2),
        text_arg("-o"),
        Arg::Path(output),
    ];
    assert(args.deep_view() =~= link_args(job.deep_view(), output.deep_view()));
    args
}

/// Says what is to be done at a stage.
pub fn mac_action(job: &MacJob, stage: &MacStage) -> (r: Action)
    ensures
        r.deep_view() == mac_action_at(job.deep_view(), stage.deep_view()),
{
    let name = job.lib_name.as_str();
    let ghost want = mac_action_at(job.deep_view(), stage.deep_view());
    match stage {
        MacStage::Linking => {
            let mut args = ld_args(job, temp(name, "_temp.o"));
            let ghost front = args.deep_view();
            let n: u64 = job.objects;
            for i in 0..n
                invariant
                    n == job.objects,
                    args.deep_view() =~= front + Seq::new(
                        i as nat,
                        |i: int| ArgView::Path(object_file(i as nat)),
                    ),
            {
                let ghost before = args.deep_view();
                args.push(Arg::Path(object_name(i)));
                assert(args.deep_view() =~= before.push(ArgView::Path(object_file(i as nat))));
            }
            assert(args.deep_view() =~= want->Run_0.args);
            run("xcrun", args)
        },
        MacStage::ListingDefined => {
            let args = vec![
                text_arg("nm"),
                text_arg("-g"),
                text_arg("-U"),
                Arg::Path(temp(name, "_temp.o")),
            ];
            assert(args.deep_view() =~= want->Run_0.args);
            run("xcrun", args)
        },
        MacStage::ListingAll(_) => {
            let args = vec![text_arg("nm"), text_arg("-g"), Arg::Path(temp(name, "_temp.o"))];
            assert(args.deep_view() =~= want->Run_0.args);
            run("xcrun", args)
        },
        MacStage::Exporting(names) => Action::Write(
            FileRef::Temp("keep_symbols.txt".to_owned()),
            join(names, "\n"),
        ),
        MacStage::Filtering => {
            let mut args = ld_args(job, temp(name, "_final.o"));
            let ghost front = args.deep_view();
            args.push(text_arg("-exported_symbols_list"));
            args.push(Arg::Path(FileRef::Temp("keep_symbols.txt".to_owned())));
            args.push(Arg::Path(temp(name, "_temp.o")));
            assert(args.deep_view() =~= want->Run_0.args);
            run("xcrun", args)
        },
        MacStage::Archiving => {
            let args = vec![
                text_arg("rcs"),
                Arg::Path(FileRef::Output),
                Arg::Path(temp(name, "_final.o")),
            ];
            assert(args.deep_view() =~= want->Run_0.args);
            run("ar", args)
        },
        MacStage::Tidying => {
            let files = vec![
                temp(name, "_temp.o"),
                temp(name, "_final.o"),
                FileRef::Temp("keep_symbols.txt".to_owned()),
            ];
            assert(files.deep_view() =~= want->RemoveWithObjects_0);
            Action::RemoveWithObjects(files)
        },
        MacStage::Done => Action::Nothing,
        MacStage::Failed(_) => Action::Nothing,
    }
}

/// The stage that follows, given what came of the last action.
pub open spec fn mac_next(
    job: MacJobView,
    stage: MacStageView,
    outcome: OutcomeView,
) -> MacStageView {
    match stage {
        MacStageView::Linking => if !outcome.started {
            MacStageView::Failed(MacFailure::CannotLink)
        } else if !outcome.success {
            MacStageView::Failed(MacFailure::LinkFailed)
        } else {
            MacStageView::ListingDefined
        },
        MacStageView::ListingDefined => if !outcome.started {
            MacStageView::Failed(MacFailure::CannotRead)
        } else if !outcome.success {
            MacStageView::Failed(MacFailure::ReadFailed)
        } else {
            MacStageView::ListingAll(
                nm::names_to_hide(text::lossy(outcome.output), job.keep_prefix),
            )
        },
        MacStageView::ListingAll(hidden) => if !outcome.started {
            MacStageView::Failed(MacFailure::CannotReadAll)
        } else {
            MacStageView::Exporting(nm::names_to_export(text::lossy(outcome.output), hidden))
        },
        MacStageView::Exporting(_) => if outcome.started {
            MacStageView::Filtering
        } else {
            MacStageView::Failed(MacFailure::CannotWriteList)
        },
        MacStageView::Filtering => if !outcome.started {
            MacStageView::Failed(MacFailure::CannotFilter)
        } else if !outcome.success {
            MacStageView::Failed(MacFailure::FilterFailed)
        } else {
            MacStageView::Archiving
        },
        MacStageView::Archiving => if !outcome.started {
            MacStageView::Failed(MacFailure::CannotArchive)
        } else if !outcome.success {
            MacStageView::Failed(MacFailure::ArchiveFailed)
        } else {
            MacStageView::Tidying
        },
        MacStageView::Tidying => MacStageView::Done,
        MacStageView::Done => MacStageView::Done,
        MacStageView::Failed(failure) => MacStageView::Failed(failure),
    }
}

/// Goes on with the patching of an Apple library after an action.
pub fn advance_macos(job: &MacJob, stage: MacStage, outcome: &Outcome) -> (r: MacStage)
    ensures
        r.deep_view() == mac_next(job.deep_view(), stage.deep_view(), outcome.deep_view()),
{
    match stage {
        MacStage::Linking => if !outcome.started {
            MacStage::Failed(MacFailure::CannotLink)
        } else if !outcome.success {
            MacStage::Failed(MacFailure::LinkFailed)
        } else {
            MacStage::ListingDefined
        },
        MacStage::ListingDefined => if !outcome.started {
            MacStage::Failed(MacFailure::CannotRead)
        } else if !outcome.success {
            MacStage::Failed(MacFailure::ReadFailed)
        } else {
            let defined = lossy_text(outcome.output.as_slice());
            MacStage::ListingAll(
                symbols_to_hide_from_nm(defined.as_str(), job.keep_prefix.as_str()),
            )
        },
        MacStage::ListingAll(hidden) => if !outcome.started {
            MacStage::Failed(MacFailure::CannotReadAll)
        } else {
            let all = lossy_text(outcome.output.as_slice());
            let list = hidden.as_slice();
            assert(list.deep_view() =~= hidden.deep_view());
            MacStage::Exporting(keep_symbols_from_nm(all.as_str(), list))
        },
        MacStage::Exporting(_) => if outcome.started {
            MacStage::Filtering
        } else {
            MacStage::Failed(MacFailure::CannotWriteList)
        },
        MacStage::Filtering => if !outcome.started {
            MacStage::Failed(MacFailure::CannotFilter)
        } else if !outcome.success {
            MacStage::Failed(MacFailure::FilterFailed)
        } else {
            MacStage::Archiving
        },
        MacStage::Archiving => if !outcome.started {
            MacStage::Failed(MacFailure::CannotArchive)
        } else if !outcome.success {
            MacStage::Failed(MacFailure::ArchiveFailed)
        } else {
            MacStage::Tidying
        },
        MacStage::Tidying => MacStage::Done,
        MacStage::Done => MacStage::Done,
        MacStage::Failed(failure) => MacStage::Failed(failure),
    }
}

/// The stage that patching is at after the given outcomes.
pub open spec fn mac_after(job: MacJobView, outcomes: Seq<OutcomeView>) -> MacStageView
    decreases outcomes.len(),
{
    if outcomes.len() == 0 {
        MacStageView::Linking
    } else {
        mac_next(job, mac_after(job, outcomes.drop_last()), outcomes.last())
    }
}

/// Patching ends, with success or failure, after seven actions at the latest; and
/// it succeeds exactly where the two links, the list of defined symbols, the list of
/// exports and the archiver turned out well.
pub proof fn mac_patching_ends(job: MacJobView, outcomes: Seq<OutcomeView>)
    requires
        outcomes.len() >= 7,
    ensures
        mac_after(job, outcomes) is Done || mac_after(job, outcomes) is Failed,
        mac_after(job, outcomes) is Done <==> {
            &&& outcomes[0].ok()
            &&& outcomes[1].ok()
            &&& outcomes[2].started
            &&& outcomes[3].started
            &&& outcomes[4].ok()
            &&& outcomes[5].ok()
        },
    decreases outcomes.len(),
{
    let before = outcomes.drop_last();
    if outcomes.len() > 7 {
        mac_patching_ends(job, before);
    } else {
        let s1 = before.drop_last();
        let s2 = s1.drop_last();
        let s3 = s2.drop_last();
        let s4 = s3.drop_last();
        let s5 = s4.drop_last();
        let s6 = s5.drop_last();
        assert(mac_after(job, s6) is Linking);
        assert(mac_after(job, s5) == mac_next(job, mac_after(job, s6), outcomes[0]));
        assert(mac_after(job, s4) == mac_next(job, mac_after(job, s5), outcomes[1]));
        assert(mac_after(job, s3) == mac_next(job, mac_after(job, s4), outcomes[2]));
        assert(mac_after(job, s2) == mac_next(job, mac_after(job, s3), outcomes[3]));
        assert(mac_after(job, s1) == mac_next(job, mac_after(job, s2), outcomes[4]));
        assert(mac_after(job, before) == mac_next(job, mac_after(job, s1), outcomes[5]));
    }
}

/// The steps of patching hand three files on: all extracted objects are linked into
/// the first, its symbols are listed, and it is linked again into the second, with the
/// third for the list of what to export. The second is archived.
pub proof fn mac_steps_hand_files_on(
    job: MacJobView,
    hidden: Seq<Seq<char>>,
    names: Seq<Seq<char>>,
) -> (files: (FileView, FileView, FileView))
    ensures
        files.0 == FileView::Temp(job.lib_name + "_temp.o"@),
        files.1 == FileView::Temp(job.lib_name + "_final.o"@),
        files.2 == FileView::Temp("keep_symbols.txt"@),
        files.0 != files.1,
        mac_action_at(job, MacStageView::Linking) matches ActionView::Run(link) && {
            &&& link.program == ProgramView::Named("xcrun"@)
            &&& !link.among_objects
            &&& link.args.len() == 10 + job.objects
            &&& link.args[0] == ArgView::Text("ld"@)
            &&& link.args[1] == ArgView::Text("-arch"@)
            &&& link.args[2] == ArgView::Text(job.arch)
            &&& link.args[3] == ArgView::Text("-r"@)
            &&& link.args[4] == ArgView::Text("-platform_version"@)
            &&& link.args[5] == ArgView::Text(job.platform.0)
            &&& link.args[6] == ArgView::Text(job.platform.1)
            &&& link.args[7] == ArgView::Text(job.platform.2)
            &&& link.args[8] == ArgView::Text("-o"@)
            &&& link.args[9] == ArgView::Path(files.0)
            &&& forall|i: int|
                0 <= i < job.objects ==> #[trigger] link.args[10 + i] == ArgView::Path(
                    FileView::Object(text::decimal_text(i as nat) + ".o"@),
                )
        },
        mac_action_at(job, MacStageView::ListingDefined) == ActionView::Run(
            InvocationView {
                program: ProgramView::Named("xcrun"@),
                args: seq![
                    ArgView::Text("nm"@),
                    ArgView::Text("-g"@),
                    ArgView::Text("-U"@),
                    ArgView::Path(files.0),
                ],
                among_objects: false,
            },
        ),
        mac_action_at(job, MacStageView::ListingAll(hidden)) == ActionView::Run(
            InvocationView {
                program: ProgramView::Named("xcrun"@),
                args: seq![ArgView::Text("nm"@), ArgView::Text("-g"@), ArgView::Path(files.0)],
                among_objects: false,
            },
        ),
        mac_action_at(job, MacStageView::Exporting(names)) matches ActionView::Write(file, list)
            && file == files.2 && list == text::joined(names, "\n"@) && (names.len() > 0 && (forall|
            i: int,
            j: int,
        |
            0 <= i < names.len() && 0 <= j < names[i].len() ==> #[trigger] names[i][j] != '\n')
            ==> text::lines(list) == names) && (names.len() == 0 ==> list.len() == 0),
        mac_action_at(job, MacStageView::Filtering) matches ActionView::Run(link) && {
            &&& link.program == ProgramView::Named("xcrun"@)
            &&& !link.among_objects
            &&& link.args.len() == 13
            &&& link.args[0] == ArgView::Text("ld"@)
            &&& link.args[1] == ArgView::Text("-arch"@)
            &&& link.args[2] == ArgView::Text(job.arch)
            &&& link.args[3] == ArgView::Text("-r"@)
            &&& link.args[4] == ArgView::Text("-platform_version"@)
            &&& link.args[5] == ArgView::Text(job.platform.0)
            &&& link.args[6] == ArgView::Text(job.platform.1)
            &&& link.args[7] == ArgView::Text(job.platform.2)
            &&& link.args[8] == ArgView::Text("-o"@)
            &&& link.args[9] == ArgView::Path(files.1)
            &&& link.args[10] == ArgView::Text("-exported_symbols_list"@)
            &&& link.args[11] == ArgView::Path(files.2)
            &&& link.args[12] == ArgView::Path(files.0)
        },
        mac_action_at(job, MacStageView::Archiving) == ActionView::Run(
            InvocationView {
                program: ProgramView::Named("ar"@),
                args: seq![
                    ArgView::Text("rcs"@),
                    ArgView::Path(FileView::Output),
                    ArgView::Path(files.1),
                ],
                among_objects: false,
            },
        ),
        mac_action_at(job, MacStageView::Tidying) == ActionView::RemoveWithObjects(
            seq![files.0, files.1, files.2],
        ),
        mac_action_at(job, MacStageView::Done) is Nothing,
{
    reveal_strlit("_temp.o");
    reveal_strlit("_final.o");
    let first = job.lib_name + "_temp.o"@;
    let second = job.lib_name + "_final.o"@;
    assert(first.len() != second.len());
    if names.len() > 0 && (forall|i: int, j: int|
        0 <= i < names.len() && 0 <= j < names[i].len() ==> #[trigger] names[i][j] != '\n') {
        text::joined_lines_are_read_back(names);
    }
    (FileView::Temp(first), FileView::Temp(second), FileView::Temp("keep_symbols.txt"@))
}

/// Each object is linked from a file of its own.
pub proof fn each_object_has_its_file(i: nat, j: nat)
    ensures
        object_file(i) == FileView::Object(text::decimal_text(i) + ".o"@),
        i != j ==> object_file(i) != object_file(j),
{
    reveal_strlit(".o");
    let a = text::decimal_text(i);
    let b = text::decimal_text(j);
    let x = a + ".o"@;
    let y = b + ".o"@;
    if x == y {
        assert(a =~= x.take(x.len() - 2));
        assert(b =~= y.take(y.len() - 2));
        text::lemma_decimal_injective(i, j);
    }
}

/// A step that turns out well leads to the next one: the symbols to hide come from the
/// list of the defined ones, and those to export from the list of all without them.
pub proof fn mac_steps_follow_each_other(
    job: MacJobView,
    outcome: OutcomeView,
    hidden: Seq<Seq<char>>,
    names: Seq<Seq<char>>,
)
    requires
        outcome.started,
        outcome.success,
    ensures
        mac_next(job, MacStageView::Linking, outcome) is ListingDefined,
        mac_next(job, MacStageView::ListingDefined, outcome) == MacStageView::ListingAll(
            nm::names_to_hide(text::lossy(outcome.output), job.keep_prefix),
        ),
        mac_next(job, MacStageView::ListingAll(hidden), outcome) == MacStageView::Exporting(
            nm::names_to_export(text::lossy(outcome.output), hidden),
        ),
        mac_next(job, MacStageView::Exporting(names), outcome) is Filtering,
        mac_next(job, MacStageView::Filtering, outcome) is Archiving,
        mac_next(job, MacStageView::Archiving, outcome) is Tidying,
        mac_next(job, MacStageView::Tidying, outcome) is Done,
{
}

/// A step that goes wrong ends the patching and says which it was, except that the
/// list of all symbols is taken as far as it came, and that leftover files are no
/// matter.
pub proof fn mac_steps_fail(
    job: MacJobView,
    outcome: OutcomeView,
    hidden: Seq<Seq<char>>,
    names: Seq<Seq<char>>,
)
    requires
        !outcome.started || !outcome.success,
    ensures
        mac_next(job, MacStageView::Linking, outcome) == MacStageView::Failed(
            if outcome.started {
                MacFailure::LinkFailed
            } else {
                MacFailure::CannotLink
            },
        ),
        mac_next(job, MacStageView::ListingDefined, outcome) == MacStageView::Failed(
            if outcome.started {
                MacFailure::ReadFailed
            } else {
                MacFailure::CannotRead
            },
        ),
        mac_next(job, MacStageView::ListingAll(hidden), outcome) == if outcome.started {
            MacStageView::Exporting(nm::names_to_export(text::lossy(outcome.output), hidden))
        } else {
            MacStageView::Failed(MacFailure::CannotReadAll)
        },
        mac_next(job, MacStageView::Exporting(names), outcome) == if outcome.started {
            MacStageView::Filtering
        } else {
            MacStageView::Failed(MacFailure::CannotWriteList)
        },
        mac_next(job, MacStageView::Filtering, outcome) == MacStageView::Failed(
            if outcome.started {
                MacFailure::FilterFailed
            } else {
                MacFailure::CannotFilter
            },
        ),
        mac_next(job, MacStageView::Archiving, outcome) == MacStageView::Failed(
            if outcome.started {
                MacFailure::ArchiveFailed
            } else {
                MacFailure::CannotArchive
            },
        ),
        mac_next(job, MacStageView::Tidying, outcome) is Done,
{
}

/// What is over stays over.
pub proof fn mac_patching_stays_over(job: MacJobView, outcome: OutcomeView, failure: MacFailure)
    ensures
        mac_next(job, MacStageView::Done, outcome) is Done,
        mac_next(job, MacStageView::Failed(failure), outcome) == MacStageView::Failed(failure),
{
}

/// Apple tools call one architecture by another name, and the others by their own.
pub proof fn apple_names_of_architectures(arch: Seq<char>)
    ensures
        apple_arch("aarch64"@) == "arm64"@,
        arch != "aarch64"@ ==> apple_arch(arch) == arch,
{
}

} // verus!
