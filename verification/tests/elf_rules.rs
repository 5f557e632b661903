use lib_patcher::command::{Action, Arg, FileRef, Outcome, Program};
use lib_patcher::elf::{
    elf_action, patch_elf, should_keep, symbols_to_hide, ElfFailure, ElfJob, ElfStage,
};
use lib_patcher::keep::symbol_is_allowed_global;
use lib_patcher::linux::patch_linux;

#[test]
fn keep_rule_strips_leading_underscore_like_the_verifier() {
    // The bare name of the interface is kept.
    assert!(should_keep("mylib_add", "mylib_"));
    // So is the spelling with an underscore.
    assert!(should_keep("_mylib_helper", "mylib_"));
    // Compiler and linker internals stay public.
    assert!(should_keep("DW.ref.rust_eh_personality", "mylib_"));
    assert!(should_keep("_GLOBAL_OFFSET_TABLE_", "mylib_"));
    // Other globals are hidden.
    assert!(!should_keep("_ZN4core3fmt3fooE", "mylib_"));
    assert!(!should_keep("other_prefix_fn", "mylib_"));
}

const READELF: &str = r#"
Symbol table '.symtab' contains 7 entries:
   Num:    Value          Size Type    Bind   Vis      Ndx Name
     1: 0000000000000000    10 FUNC    GLOBAL DEFAULT    1 internal_fn
     2: 0000000000000000    10 FUNC    GLOBAL DEFAULT    1 testlib_api
     3: 0000000000000000     0 NOTYPE  GLOBAL DEFAULT  UND rust_eh_personality
     4: 0000000000000000     4 OBJECT  WEAK   HIDDEN     2 weak_defined
     5: 0000000000000000     0 NOTYPE  WEAK   DEFAULT  UND weak_external
     6: 0000000000000000    10 FUNC    GLOBAL PROTECTED   1 protected_fn
     7: 0000000000000000    10 FUNC    GLOBAL INTERNAL    1 internal_vis_fn
"#;

#[test]
fn hides_defined_non_api_globals_of_any_visibility() {
    assert_eq!(
        symbols_to_hide(READELF, "testlib_"),
        vec![
            "internal_fn".to_string(),
            "weak_defined".to_string(),
            "protected_fn".to_string(),
            "internal_vis_fn".to_string(),
        ]
    );
}

#[test]
fn local_symbols_and_short_rows_are_passed_over() {
    let out = "1: 0 1 FUNC LOCAL DEFAULT 1 local_fn\r\n2: 0 1 FUNC GLOBAL DEFAULT 1\n\
               3: 0 1 FUNC GLOBAL DEFAULT 1 shown extra words\n";
    assert_eq!(symbols_to_hide(out, "p_"), vec!["shown".to_string()]);
    assert!(symbols_to_hide("", "p_").is_empty());
}

#[test]
fn kept_elf_symbols_pass_the_verifier() {
    for name in [
        "p_a",
        "_p_a",
        "DW.ref.x",
        "GCC_except_table3",
        "_GLOBAL_OFFSET_TABLE_",
        "@feat.00",
    ] {
        assert!(should_keep(name, "p_"));
        assert!(symbol_is_allowed_global(name, "p_"));
    }
}

fn good(output: &str) -> Outcome {
    Outcome { started: true, success: true, output: output.as_bytes().to_vec() }
}

fn bad() -> Outcome {
    Outcome { started: true, success: false, output: Vec::new() }
}

fn not_started() -> Outcome {
    Outcome { started: false, success: false, output: Vec::new() }
}

fn file(reference: &FileRef) -> String {
    match reference {
        FileRef::Input => "<in>".to_string(),
        FileRef::Output => "<out>".to_string(),
        FileRef::AbsoluteOutput => "<absolute>".to_string(),
        FileRef::Temp(name) => format!("<temp>/{}", name),
        FileRef::Object(name) => format!("<objects>/{}", name),
    }
}

fn show(action: &Action) -> String {
    match action {
        Action::Run(run) => {
            let mut line = match &run.program {
                Program::Named(name) => name.clone(),
                Program::Ndk(name) => format!("ndk:{}", name),
                Program::Objcopy => "objcopy".to_string(),
            };
            for arg in &run.args {
                let text = match arg {
                    Arg::Text(text) => text.clone(),
                    Arg::Path(path) => file(path),
                    Arg::Joined(text, path) => format!("{}{}", text, file(path)),
                };
                line = format!("{} {}", line, text);
            }
            line
        }
        Action::Write(to, text) => format!("write {}: {}", file(to), text),
        Action::Copy(from, to) => format!("copy {} {}", file(from), file(to)),
        Action::Remove(files) | Action::RemoveWithObjects(files) => {
            let mut line = "remove".to_string();
            for name in files {
                line = format!("{} {}", line, file(name));
            }
            line
        }
        Action::Nothing => "nothing".to_string(),
    }
}

fn job() -> ElfJob {
    patch_linux("mylib", "testlib_", "x86_64", "x86_64", false)
}

#[test]
fn elf_patching_runs_through_all_steps() {
    let job = job();
    let mut stage = ElfStage::Linking;
    assert_eq!(
        show(&elf_action(&job, &stage)),
        "ld -r -o <temp>/mylib_temp.o --whole-archive <in>"
    );
    stage = patch_elf(&job, stage, &good(""));
    assert_eq!(show(&elf_action(&job, &stage)), "readelf -sW <temp>/mylib_temp.o");
    stage = patch_elf(&job, stage, &good(READELF));
    assert_eq!(
        show(&elf_action(&job, &stage)),
        "write <temp>/mylib_localize.txt: internal_fn\nweak_defined\nprotected_fn\ninternal_vis_fn"
    );
    stage = patch_elf(&job, stage, &good(""));
    assert_eq!(
        show(&elf_action(&job, &stage)),
        "objcopy --localize-symbols <temp>/mylib_localize.txt <temp>/mylib_temp.o <temp>/mylib_final.o"
    );
    stage = patch_elf(&job, stage, &good(""));
    assert_eq!(show(&elf_action(&job, &stage)), "remove <temp>/mylib_localize.txt");
    stage = patch_elf(&job, stage, &not_started());
    assert_eq!(show(&elf_action(&job, &stage)), "ar rcs <out> <temp>/mylib_final.o");
    stage = patch_elf(&job, stage, &not_started());
    assert_eq!(show(&elf_action(&job, &stage)), "llvm-ar rcs <out> <temp>/mylib_final.o");
    stage = patch_elf(&job, stage, &good(""));
    assert_eq!(
        show(&elf_action(&job, &stage)),
        "remove <temp>/mylib_temp.o <temp>/mylib_final.o"
    );
    stage = patch_elf(&job, stage, &not_started());
    assert!(matches!(stage, ElfStage::Done));
    assert_eq!(show(&elf_action(&job, &stage)), "nothing");
}

#[test]
fn elf_object_is_copied_where_nothing_is_hidden() {
    let job = job();
    let stage = patch_elf(&job, ElfStage::Reading, &good("1: 0 1 FUNC GLOBAL DEFAULT 1 testlib_a"));
    assert_eq!(
        show(&elf_action(&job, &stage)),
        "copy <temp>/mylib_temp.o <temp>/mylib_final.o"
    );
    assert!(matches!(patch_elf(&job, stage, &good("")), ElfStage::Archiving));
}

#[test]
fn every_elf_step_can_fail() {
    let job = job();
    let fail = |stage: ElfStage, outcome: Outcome| match patch_elf(&job, stage, &outcome) {
        ElfStage::Failed(failure) => failure,
        _ => panic!("the step did not fail"),
    };
    assert!(matches!(fail(ElfStage::Linking, not_started()), ElfFailure::CannotRun(_)));
    assert!(matches!(fail(ElfStage::Linking, bad()), ElfFailure::LinkFailed(_)));
    assert!(matches!(fail(ElfStage::Reading, not_started()), ElfFailure::CannotRun(_)));
    assert!(matches!(fail(ElfStage::Reading, bad()), ElfFailure::ReadFailed(_)));
    assert!(matches!(
        fail(ElfStage::Listing(vec!["a".to_string()]), not_started()),
        ElfFailure::CannotWriteList
    ));
    assert!(matches!(fail(ElfStage::Localizing, not_started()), ElfFailure::CannotRun(_)));
    assert!(matches!(fail(ElfStage::Localizing, bad()), ElfFailure::LocalizeFailed(_)));
    assert!(matches!(fail(ElfStage::Copying, not_started()), ElfFailure::CannotCopy));
    let second = || ElfStage::Retrying(Program::Named("llvm-ar".to_string()));
    assert!(matches!(fail(second(), not_started()), ElfFailure::CannotRun(_)));
    assert!(matches!(fail(second(), bad()), ElfFailure::BothArchiversFailed(_, _)));
    let mut single = self::job();
    single.tools.ar_fallback = None;
    assert!(matches!(
        patch_elf(&single, ElfStage::Archiving, &bad()),
        ElfStage::Failed(ElfFailure::ArchiveFailed(_))
    ));
}

#[test]
fn elf_patching_is_over_after_eight_actions() {
    for output in [READELF, ""] {
        for pattern in 0..256u32 {
            let job = job();
            let mut stage = ElfStage::Linking;
            for step in 0..8 {
                let outcome = if pattern & (1 << step) != 0 { good(output) } else { bad() };
                stage = patch_elf(&job, stage, &outcome);
            }
            assert!(matches!(stage, ElfStage::Done | ElfStage::Failed(_)));
        }
    }
}
