use lib_patcher::command::{Action, Arg, FileRef, Outcome, Program};
use lib_patcher::macos::{advance_macos, mac_action, patch_macos, MacFailure, MacStage};
use lib_patcher::nm::{keep_symbols_from_nm, symbols_to_hide_from_nm};

#[test]
fn no_underscore_global_is_hidden_and_not_re_exported() {
    let nm_g_u = "\
0000000000000000 T foo\n\
0000000000000010 T _bar\n\
0000000000000020 T _mylib_add\n";
    let hide = symbols_to_hide_from_nm(nm_g_u, "mylib_");
    assert_eq!(hide, vec!["foo".to_string(), "_bar".to_string()]);

    let keep = keep_symbols_from_nm(nm_g_u, &hide);
    assert_eq!(keep, vec!["_mylib_add".to_string()]);
    assert!(
        !keep.contains(&"foo".to_string()),
        "a no-underscore global must not remain exported"
    );
}

#[test]
fn exception_tables_stay_exported_and_lower_case_types_do_not_count() {
    let out = "0 S GCC_except_table7\n0 S _DW.ref.p\n0 t _local\n                 U _undefined\n";
    assert!(symbols_to_hide_from_nm(out, "mylib_").is_empty());
    assert_eq!(
        keep_symbols_from_nm(out, &[]),
        vec!["GCC_except_table7".to_string(), "_DW.ref.p".to_string()]
    );
}

#[test]
fn upper_case_is_not_only_ascii() {
    assert_eq!(
        symbols_to_hide_from_nm("0 \u{c4} _x\n0 \u{e4} _y\n", "p_"),
        vec!["_x".to_string()]
    );
}

#[test]
fn linker_symbols_stay_exported() {
    let out = "\
0000000000000000 S _GLOBAL_OFFSET_TABLE_\n\
0000000000000010 S @feat.00\n";
    assert!(symbols_to_hide_from_nm(out, "mylib_").is_empty());
    assert_eq!(
        keep_symbols_from_nm(out, &[]),
        vec!["_GLOBAL_OFFSET_TABLE_".to_string(), "@feat.00".to_string()]
    );
}

#[test]
fn prefix_with_underscore_matches_either_spelling() {
    assert_eq!(
        symbols_to_hide_from_nm("0 T _foo_x\n0 T __foo_x\n0 T foo_x\n", "_foo"),
        vec!["foo_x".to_string()]
    );
}

fn good(output: &str) -> Outcome {
    Outcome { started: true, success: true, output: output.as_bytes().to_vec() }
}

fn bad() -> Outcome {
    Outcome { started: true, success: false, output: Vec::new() }
}

fn not_started() -> Outcome {
    Outcome { started: false, success: false, output: Vec::new() }
}

fn file(reference: &FileRef) -> String {
    match reference {
        FileRef::Output => "<out>".to_string(),
        FileRef::Temp(name) => format!("<temp>/{}", name),
        FileRef::Object(name) => format!("<objects>/{}", name),
        _ => panic!("not used here"),
    }
}

fn show(action: &Action) -> String {
    match action {
        Action::Run(run) => {
            let mut line = match &run.program {
                Program::Named(name) => name.clone(),
                _ => panic!("not used here"),
            };
            for arg in &run.args {
                let text = match arg {
                    Arg::Text(text) => text.clone(),
                    Arg::Path(path) => file(path),
                    Arg::Joined(text, path) => format!("{}{}", text, file(path)),
                };
                line = format!("{} {}", line, text);
            }
            line
        }
        Action::Write(to, text) => format!("write {}: {}", file(to), text),
        Action::RemoveWithObjects(files) => {
            let mut line = "remove objects".to_string();
            for name in files {
                line = format!("{} {}", line, file(name));
            }
            line
        }
        _ => "nothing".to_string(),
    }
}

#[test]
fn apple_patching_runs_through_all_steps() {
    let job = patch_macos("mylib", "mylib_", "aarch64", None, 2);
    assert_eq!(job.arch, "arm64");
    let mut stage = MacStage::Linking;
    assert_eq!(
        show(&mac_action(&job, &stage)),
        "xcrun ld -arch arm64 -r -platform_version macos 11.0 14.0 -o <temp>/mylib_temp.o \
         <objects>/0.o <objects>/1.o"
    );
    stage = advance_macos(&job, stage, &good(""));
    assert_eq!(show(&mac_action(&job, &stage)), "xcrun nm -g -U <temp>/mylib_temp.o");
    stage = advance_macos(&job, stage, &good("0 T _mylib_a\n0 T _mylib_b\n0 T _other\n"));
    assert_eq!(show(&mac_action(&job, &stage)), "xcrun nm -g <temp>/mylib_temp.o");
    // Only whether the second list could be made matters, not how the tool ended.
    let mut all = good("0 T _mylib_a\n0 T _mylib_b\n0 T _other\n U _undefined\n");
    all.success = false;
    stage = advance_macos(&job, stage, &all);
    assert_eq!(
        show(&mac_action(&job, &stage)),
        "write <temp>/keep_symbols.txt: _mylib_a\n_mylib_b"
    );
    stage = advance_macos(&job, stage, &good(""));
    assert_eq!(
        show(&mac_action(&job, &stage)),
        "xcrun ld -arch arm64 -r -platform_version macos 11.0 14.0 -o <temp>/mylib_final.o \
         -exported_symbols_list <temp>/keep_symbols.txt <temp>/mylib_temp.o"
    );
    stage = advance_macos(&job, stage, &good(""));
    assert_eq!(show(&mac_action(&job, &stage)), "ar rcs <out> <temp>/mylib_final.o");
    stage = advance_macos(&job, stage, &good(""));
    assert_eq!(
        show(&mac_action(&job, &stage)),
        "remove objects <temp>/mylib_temp.o <temp>/mylib_final.o <temp>/keep_symbols.txt"
    );
    stage = advance_macos(&job, stage, &not_started());
    assert!(matches!(stage, MacStage::Done));
}

#[test]
fn every_apple_step_can_fail() {
    let job = patch_macos("mylib", "mylib_", "x86_64", Some("x86_64-apple-ios"), 1);
    assert_eq!(job.platform, ("ios-simulator", "15.0", "17.0"));
    let fail = |stage: MacStage, outcome: Outcome| match advance_macos(&job, stage, &outcome) {
        MacStage::Failed(failure) => failure,
        _ => panic!("the step did not fail"),
    };
    assert_eq!(fail(MacStage::Linking, not_started()), MacFailure::CannotLink);
    assert_eq!(fail(MacStage::Linking, bad()), MacFailure::LinkFailed);
    assert_eq!(fail(MacStage::ListingDefined, not_started()), MacFailure::CannotRead);
    assert_eq!(fail(MacStage::ListingDefined, bad()), MacFailure::ReadFailed);
    assert_eq!(
        fail(MacStage::ListingAll(Vec::new()), not_started()),
        MacFailure::CannotReadAll
    );
    assert_eq!(
        fail(MacStage::Exporting(Vec::new()), not_started()),
        MacFailure::CannotWriteList
    );
    assert_eq!(fail(MacStage::Filtering, not_started()), MacFailure::CannotFilter);
    assert_eq!(fail(MacStage::Filtering, bad()), MacFailure::FilterFailed);
    assert_eq!(fail(MacStage::Archiving, not_started()), MacFailure::CannotArchive);
    assert_eq!(fail(MacStage::Archiving, bad()), MacFailure::ArchiveFailed);
}

#[test]
fn apple_patching_is_over_after_seven_actions() {
    for pattern in 0..128u32 {
        let job = patch_macos("mylib", "mylib_", "arm64", None, 1);
        let mut stage = MacStage::Linking;
        for step in 0..7 {
            let outcome = if pattern & (1 << step) != 0 { good("") } else { bad() };
            stage = advance_macos(&job, stage, &outcome);
        }
        // Links, the list of definitions and the archive have to turn out well.
        let done = pattern & 0b110011 == 0b110011;
        assert_eq!(matches!(stage, MacStage::Done), done);
        assert_eq!(matches!(stage, MacStage::Failed(_)), !done);
    }
}
