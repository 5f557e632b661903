//! What a patcher asks its surroundings to do, and what came of it.

use vstd::prelude::*;
use vstd::string::*;

verus! {

/// A program to run.
pub enum Program {
    /// A program that is found by its name or path.
    Named(String),
    /// A tool of the Android NDK.
    Ndk(String),
    /// The objcopy that was found for COFF objects.
    Objcopy,
}

/// What a `Program` says.
pub enum ProgramView {
    Named(Seq<char>),
    Ndk(Seq<char>),
    Objcopy,
}

impl DeepView for Program {
    type V = ProgramView;

    open spec fn deep_view(&self) -> ProgramView {
        match self {
            Program::Named(name) => ProgramView::Named(name@),
            Program::Ndk(name) => ProgramView::Ndk(name@),
            Program::Objcopy => ProgramView::Objcopy,
        }
    }
}

impl Program {
    /// Another value for the same program.
    pub fn copy(&self) -> (r: Program)
        ensures
            r.deep_view() == self.deep_view(),
    {
        match self {
            Program::Named(name) => Program::Named(name.clone()),
            Program::Ndk(name) => Program::Ndk(name.clone()),
            Program::Objcopy => Program::Objcopy,
        }
    }
}

/// A file that takes part in patching.
pub enum FileRef {
    /// The library to patch.
    Input,
    /// The patched library.
    Output,
    /// The patched library, by its absolute path.
    AbsoluteOutput,
    /// A file in the directory for temporary files.
    Temp(String),
    /// A file in the directory for extracted objects.
    Object(String),
}

/// What a `FileRef` says.
pub enum FileView {
    Input,
    Output,
    AbsoluteOutput,
    Temp(Seq<char>),
    Object(Seq<char>),
}

impl DeepView for FileRef {
    type V = FileView;

    open spec fn deep_view(&self) -> FileView {
        match self {
            FileRef::Input => FileView::Input,
            FileRef::Output => FileView::Output,
            FileRef::AbsoluteOutput => FileView::AbsoluteOutput,
            FileRef::Temp(name) => FileView::Temp(name@),
            FileRef::Object(name) => FileView::Object(name@),
        }
    }
}

/// An argument of a program.
pub enum Arg {
    Text(String),
    /// The path of a file.
    Path(FileRef),
    /// A text with the path of a file right behind it.
    Joined(String, FileRef),
}

/// What an `Arg` says.
pub enum ArgView {
    Text(Seq<char>),
    Path(FileView),
    Joined(Seq<char>, FileView),
}

impl DeepView for Arg {
    type V = ArgView;

    open spec fn deep_view(&self) -> ArgView {
        match self {
            Arg::Text(text) => ArgView::Text(text@),
            Arg::Path(file) => ArgView::Path(file.deep_view()),
            Arg::Joined(text, file) => ArgView::Joined(text@, file.deep_view()),
        }
    }
}

/// An argument that is a text.
pub fn text_arg(text: &str) -> (r: Arg)
    ensures
        r.deep_view() == ArgView::Text(text@),
{
    Arg::Text(text.to_owned())
}

/// A program with its arguments.
pub struct Invocation {
    pub program: Program,
    pub args: Vec<Arg>,
    /// Whether the program runs in the directory for extracted objects.
    pub among_objects: bool,
}

/// What an `Invocation` says.
pub struct InvocationView {
    pub program: ProgramView,
    pub args: Seq<ArgView>,
    pub among_objects: bool,
}

impl DeepView for Invocation {
    type V = InvocationView;

    open spec fn deep_view(&self) -> InvocationView {
        InvocationView {
            program: self.program.deep_view(),
            args: self.args.deep_view(),
            among_objects: self.among_objects,
        }
    }
}

/// Something to do.
pub enum Action {
    /// Run a program.
    Run(Invocation),
    /// Write a text into a file.
    Write(FileRef, String),
    /// Copy a file to another.
    Copy(FileRef, FileRef),
    /// Remove files, as far as that is possible.
    Remove(Vec<FileRef>),
    /// Remove files and the directory for extracted objects, as far as that is
    /// possible.
    RemoveWithObjects(Vec<FileRef>),
    /// Nothing more.
    Nothing,
}

/// What an `Action` says.
pub enum ActionView {
    Run(InvocationView),
    Write(FileView, Seq<char>),
    Copy(FileView, FileView),
    Remove(Seq<FileView>),
    RemoveWithObjects(Seq<FileView>),
    Nothing,
}

impl DeepView for Action {
    type V = ActionView;

    open spec fn deep_view(&self) -> ActionView {
        match self {
            Action::Run(invocation) => ActionView::Run(invocation.deep_view()),
            Action::Write(file, text) => ActionView::Write(file.deep_view(), text@),
            Action::Copy(from, to) => ActionView::Copy(from.deep_view(), to.deep_view()),
            Action::Remove(files) => ActionView::Remove(files.deep_view()),
            Action::RemoveWithObjects(files) => ActionView::RemoveWithObjects(files.deep_view()),
            Action::Nothing => ActionView::Nothing,
        }
    }
}

/// What came of an action.
pub struct Outcome {
    /// Whether a program could be started, or a file could be written or copied.
    pub started: bool,
    /// Whether the program ended well.
    pub success: bool,
    /// What the program wrote to its standard output.
    pub output: Vec<u8>,
}

/// What an `Outcome` says.
pub struct OutcomeView {
    pub started: bool,
    pub success: bool,
    pub output: Seq<u8>,
}

impl DeepView for Outcome {
    type V = OutcomeView;

    open spec fn deep_view(&self) -> OutcomeView {
        OutcomeView { started: self.started, success: self.success, output: self.output@ }
    }
}

impl OutcomeView {
    /// Whether a program was started and ended well.
    pub open spec fn ok(&self) -> bool {
        self.started && self.success
    }
}

} // verus!
