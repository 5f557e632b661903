//! The judgement on a patched library.

use vstd::prelude::*;
use vstd::string::*;

use crate::headers;
use crate::headers::can_read;
use crate::imports;
use crate::imports::import_exempt_symbols;
use crate::inspect;
use crate::inspect::list_symbols;
use crate::keep;
use crate::keep::{find_leaked_symbols, matches_keep_prefix};
use crate::lists;
use crate::names::SymbolSet;
use crate::text::same;

verus! {

/// Why a patched library is rejected.
pub enum VerifyError {
    /// The output was not created.
    NotCreated,
    /// The output is empty.
    Empty,
    /// The input cannot be read any more.
    OriginalUnreadable,
    /// The output is suspiciously small.
    TooSmall { output: u64, input: u64 },
    /// The output has no public symbols.
    NoSymbols,
    /// Public symbols that should have been hidden.
    Leaked(Vec<String>),
    /// No symbol of the input carries the prefix.
    NothingMatches,
    /// Symbols of the input that carry the prefix and are not in the output, and
    /// the number of all that carry it.
    Lost { missing: Vec<String>, matching: u64 },
}

/// What a `VerifyError` says.
pub enum Complaint {
    NotCreated,
    Empty,
    OriginalUnreadable,
    TooSmall { output: int, input: int },
    NoSymbols,
    Leaked(Seq<Seq<char>>),
    NothingMatches,
    Lost { missing: Seq<Seq<char>>, matching: int },
}

impl DeepView for VerifyError {
    type V = Complaint;

    open spec fn deep_view(&self) -> Complaint {
        match self {
            VerifyError::NotCreated => Complaint::NotCreated,
            VerifyError::Empty => Complaint::Empty,
            VerifyError::OriginalUnreadable => Complaint::OriginalUnreadable,
            VerifyError::TooSmall { output, input } => Complaint::TooSmall {
                output: *output as int,
                input: *input as int,
            },
            VerifyError::NoSymbols => Complaint::NoSymbols,
            VerifyError::Leaked(names) => Complaint::Leaked(names.deep_view()),
            VerifyError::NothingMatches => Complaint::NothingMatches,
            VerifyError::Lost { missing, matching } => Complaint::Lost {
                missing: missing.deep_view(),
                matching: *matching as int,
            },
        }
    }
}

/// What a judgement says: the number of public symbols, or the complaint.
pub open spec fn judgement(r: Result<usize, VerifyError>) -> Result<int, Complaint> {
    match r {
        Ok(n) => Ok(n as int),
        Err(error) => Err(error.deep_view()),
    }
}

/// The names in a list that carry the prefix.
pub open spec fn api_of(symbols: Seq<Seq<char>>, keep_prefix: Seq<char>) -> Seq<Seq<char>> {
    symbols.filter(|name: Seq<char>| keep::is_api(name, keep_prefix))
}

/// What is wrong with the public symbols of a patched library by themselves, given
/// the names that are exempt.
pub open spec fn output_complaint(
    symbols: Seq<Seq<char>>,
    exempt: Set<Seq<char>>,
    keep_prefix: Seq<char>,
) -> Option<Complaint> {
    let leaked = symbols.filter(|name: Seq<char>| keep::is_leak(name, keep_prefix, exempt));
    if symbols.len() == 0 {
        Some(Complaint::NoSymbols)
    } else if leaked.len() > 0 {
        Some(Complaint::Leaked(leaked))
    } else {
        None
    }
}

/// The judgement on the public symbols of a patched library, given those of the
/// input.
pub open spec fn judge_api(
    symbols: Seq<Seq<char>>,
    original: Seq<Seq<char>>,
    keep_prefix: Seq<char>,
) -> Result<int, Complaint> {
    let api = api_of(original, keep_prefix);
    let missing = api.filter(|name: Seq<char>| !symbols.contains(name));
    if api.len() == 0 {
        Err(Complaint::NothingMatches)
    } else if missing.len() > 0 {
        Err(Complaint::Lost { missing, matching: api.len() as int })
    } else {
        Ok(symbols.len() as int)
    }
}

fn owned(names: &Vec<&str>) -> (r: Vec<String>)
    ensures
        r.deep_view() == names.deep_view(),
{
    let mut out: Vec<String> = Vec::new();
    let n: usize = names.len();
    for i in 0..n
        invariant
            n == names@.len(),
            out.deep_view() =~= names.deep_view().take(i as int),
    {
        let ghost before = out.deep_view();
        out.push(names[i].to_owned());
        assert(out.deep_view() =~= before.push(names@[i as int]@));
    }
    assert(names.deep_view().take(n as int) =~= names.deep_view());
    out
}

/// Says what is wrong with the public symbols of a patched library by themselves.
pub fn check_output(symbols: &Vec<String>, exempt: &SymbolSet, keep_prefix: &str) -> (r: Option<
    VerifyError,
>)
    ensures
        r.deep_view() == output_complaint(symbols.deep_view(), exempt@, keep_prefix@),
{
    if symbols.len() == 0 {
        return Some(VerifyError::NoSymbols);
    }
    let list = symbols.as_slice();
    assert(list.deep_view() =~= symbols.deep_view());
    let leaked = find_leaked_symbols(list, keep_prefix, exempt);
    if leaked.len() > 0 {
        return Some(VerifyError::Leaked(owned(&leaked)));
    }
    assert(leaked.deep_view().len() == 0);
    None
}

/// Judges the public symbols of a patched library by those of the input.
pub fn check_api(symbols: &Vec<String>, original: &Vec<String>, keep_prefix: &str) -> (r: Result<
    usize,
    VerifyError,
>)
    ensures
        judgement(r) == judge_api(symbols.deep_view(), original.deep_view(), keep_prefix@),
{
    let ghost all = symbols.deep_view();
    let ghost inputs = original.deep_view();
    let list = symbols.as_slice();
    assert(list.deep_view() =~= all);
    let output = SymbolSet::of(list);
    let mut api: u64 = 0;
    let mut missing: Vec<String> = Vec::new();
    let n: usize = original.len();
    let ghost is_api = |name: Seq<char>| keep::is_api(name, keep_prefix@);
    let ghost is_missing = |name: Seq<char>| !all.contains(name);
    proof {
        lists::lemma_filter_none(inputs, is_api);
        reveal(Seq::filter);
        assert(missing.deep_view() =~= Seq::empty());
    }
    for i in 0..n
        invariant
            n == original@.len(),
            inputs == original.deep_view(),
            is_api == |name: Seq<char>| keep::is_api(name, keep_prefix@),
            is_missing == |name: Seq<char>| !all.contains(name),
            output@ == all.to_set(),
            api <= i,
            api == inputs.take(i as int).filter(is_api).len(),
            missing.deep_view() == inputs.take(i as int).filter(is_api).filter(is_missing),
    {
        let name = original[i].as_str();
        let ghost seen = inputs.take(i as int).filter(is_api);
        proof {
            lists::lemma_filter_step(inputs, i as int, is_api);
            reveal(Seq::filter);
            assert(seen.push(name@).drop_last() =~= seen);
        }
        if matches_keep_prefix(name, keep_prefix) {
            api = api + 1;
            if !output.contains(name) {
                let ghost before = missing.deep_view();
                missing.push(name.to_owned());
                assert(missing.deep_view() =~= before.push(name@));
                assert(!all.contains(name@)) by {
                    assert(!all.to_set().contains(name@));
                }
            } else {
                assert(all.to_set().contains(name@));
            }
        }
    }
    assert(inputs.take(n as int) =~= inputs);
    if api == 0 {
        return Err(VerifyError::NothingMatches);
    }
    if missing.len() > 0 {
        assert(missing.deep_view().len() == missing@.len());
        return Err(VerifyError::Lost { missing, matching: api });
    }
    assert(missing.deep_view().len() == 0);
    Ok(symbols.len())
}

/// Whether an output of the given size is suspiciously small: less than a hundredth
/// of the input, and on Windows less than a ten-thousandth.
pub open spec fn is_too_small(output: int, input: int, target_os: Seq<char>) -> bool {
    if target_os == "windows"@ {
        output * 10000 < input
    } else {
        output * 100 < input
    }
}

/// What is wrong with a patched library by itself.
pub open spec fn leak_complaint(output: Seq<u8>, keep_prefix: Seq<char>) -> Option<Complaint> {
    output_complaint(inspect::symbols_of(output), imports::exempt_of(output), keep_prefix)
}

/// The judgement on a patched library.
pub open spec fn verdict(
    output: Option<Seq<u8>>,
    original: Option<Seq<u8>>,
    keep_prefix: Seq<char>,
    target_os: Seq<char>,
) -> Result<int, Complaint> {
    match output {
        None => Err(Complaint::NotCreated),
        Some(output) => if output.len() == 0 {
            Err(Complaint::Empty)
        } else {
            match original {
                None => Err(Complaint::OriginalUnreadable),
                Some(original) => if is_too_small(
                    output.len() as int,
                    original.len() as int,
                    target_os,
                ) {
                    Err(
                        Complaint::TooSmall {
                            output: output.len() as int,
                            input: original.len() as int,
                        },
                    )
                } else {
                    match leak_complaint(output, keep_prefix) {
                        Some(complaint) => Err(complaint),
                        None => judge_api(
                            inspect::symbols_of(output),
                            inspect::symbols_of(original),
                            keep_prefix,
                        ),
                    }
                },
            }
        },
    }
}

/// The bytes of a file that may be missing.
pub open spec fn contents(file: Option<&[u8]>) -> Option<Seq<u8>> {
    match file {
        Some(bytes) => Some(bytes@),
        None => None,
    }
}

/// Whether the libraries can be read as far as the judgement needs them: the output
/// where it is there, not empty and not suspiciously small; the input where the output
/// has nothing wrong by itself.
pub open spec fn can_be_judged(
    output: Option<Seq<u8>>,
    original: Option<Seq<u8>>,
    keep_prefix: Seq<char>,
    target_os: Seq<char>,
) -> bool {
    output matches Some(output) ==> original matches Some(original) ==> output.len() > 0
        && !is_too_small(output.len() as int, original.len() as int, target_os) ==> {
        &&& headers::readable(output)
        &&& leak_complaint(output, keep_prefix) is None ==> headers::readable(original)
    }
}

fn too_small(output: &[u8], original: &[u8], target_os: &str) -> (r: bool)
    ensures
        r == is_too_small(output@.len() as int, original@.len() as int, target_os@),
{
    let scale: u128 = if same(target_os, "windows") {
        10000
    } else {
        100
    };
    (output.len() as u128) * scale < original.len() as u128
}

/// Judges a patched library: it must exist, must not be suspiciously small, must
/// not leak a symbol, and must hold every symbol of the input that carries the
/// prefix, of which there must be one. An accepted library is answered with the
/// number of its public symbols.
pub fn verify_patched_lib(
    output: Option<&[u8]>,
    original: Option<&[u8]>,
    keep_prefix: &str,
    target_os: &str,
) -> (r: Result<usize, VerifyError>)
    requires
        can_be_judged(contents(output), contents(original), keep_prefix@, target_os@),
    ensures
        judgement(r) == verdict(contents(output), contents(original), keep_prefix@, target_os@),
{
    let output = match output {
        Some(output) => output,
        None => {
            return Err(VerifyError::NotCreated);
        },
    };
    if output.len() == 0 {
        return Err(VerifyError::Empty);
    }
    let original = match original {
        Some(original) => original,
        None => {
            return Err(VerifyError::OriginalUnreadable);
        },
    };
    if too_small(output, original, target_os) {
        return Err(
            VerifyError::TooSmall { output: output.len() as u64, input: original.len() as u64 },
        );
    }
    let symbols = list_symbols(output);
    let exempt = import_exempt_symbols(output);
    if let Some(error) = check_output(&symbols, &exempt, keep_prefix) {
        return Err(error);
    }
    let original_symbols = list_symbols(original);
    check_api(&symbols, &original_symbols, keep_prefix)
}

/// Judges a patched library where the libraries can be read as far as that needs
/// them, and answers `None` where they cannot.
pub fn verify_if_readable(
    output: Option<&[u8]>,
    original: Option<&[u8]>,
    keep_prefix: &str,
    target_os: &str,
) -> (r: Option<Result<usize, VerifyError>>)
    ensures
        match r {
            Some(result) => can_be_judged(
                contents(output),
                contents(original),
                keep_prefix@,
                target_os@,
            ) && judgement(result) == verdict(
                contents(output),
                contents(original),
                keep_prefix@,
                target_os@,
            ),
            None => !can_be_judged(contents(output), contents(original), keep_prefix@, target_os@),
        },
{
    if let (Some(bytes), Some(input)) = (output, original) {
        if bytes.len() > 0 && !too_small(bytes, input, target_os) {
            if !can_read(bytes) {
                return None;
            }
            let symbols = list_symbols(bytes);
            let exempt = import_exempt_symbols(bytes);
            if check_output(&symbols, &exempt, keep_prefix).is_none() && !can_read(input) {
                return None;
            }
        }
    }
    Some(verify_patched_lib(output, original, keep_prefix, target_os))
}

/// An accepted library leaks nothing: every public symbol is allowed, or exempt as
/// a DLL import.
pub proof fn accepted_library_leaks_nothing(
    output: Seq<u8>,
    original: Seq<u8>,
    keep_prefix: Seq<char>,
    target_os: Seq<char>,
    name: Seq<char>,
)
    requires
        verdict(Some(output), Some(original), keep_prefix, target_os) is Ok,
        inspect::symbols_of(output).contains(name),
    ensures
        keep::is_allowed_global(name, keep_prefix) || imports::exempt_of(output).contains(name),
{
    let leak = |name: Seq<char>| keep::is_leak(name, keep_prefix, imports::exempt_of(output));
    lists::lemma_filter_contains(inspect::symbols_of(output), leak, name);
    if leak(name) {
        assert(inspect::symbols_of(output).filter(leak).contains(name));
    }
}

/// An accepted library keeps the whole interface: every public symbol of the input
/// that carries the prefix is a public symbol of the output.
pub proof fn accepted_library_keeps_the_api(
    output: Seq<u8>,
    original: Seq<u8>,
    keep_prefix: Seq<char>,
    target_os: Seq<char>,
    name: Seq<char>,
)
    requires
        verdict(Some(output), Some(original), keep_prefix, target_os) is Ok,
        inspect::symbols_of(original).contains(name),
        keep::is_api(name, keep_prefix),
    ensures
        inspect::symbols_of(output).contains(name),
{
    let symbols = inspect::symbols_of(output);
    let is_api = |name: Seq<char>| keep::is_api(name, keep_prefix);
    let is_missing = |name: Seq<char>| !symbols.contains(name);
    let api = inspect::symbols_of(original).filter(is_api);
    lists::lemma_filter_contains(inspect::symbols_of(original), is_api, name);
    lists::lemma_filter_contains(api, is_missing, name);
    if is_missing(name) {
        assert(api.filter(is_missing).contains(name));
    }
}

/// An accepted library has an interface: some public symbol of the input carries
/// the prefix, and is a public symbol of the output.
pub proof fn accepted_library_has_an_api(
    output: Seq<u8>,
    original: Seq<u8>,
    keep_prefix: Seq<char>,
    target_os: Seq<char>,
) -> (name: Seq<char>)
    requires
        verdict(Some(output), Some(original), keep_prefix, target_os) is Ok,
    ensures
        keep::is_api(name, keep_prefix),
        inspect::symbols_of(original).contains(name),
        inspect::symbols_of(output).contains(name),
{
    let is_api = |name: Seq<char>| keep::is_api(name, keep_prefix);
    let api = inspect::symbols_of(original).filter(is_api);
    let name = api[0];
    assert(api.contains(name));
    lists::lemma_filter_contains(inspect::symbols_of(original), is_api, name);
    accepted_library_keeps_the_api(output, original, keep_prefix, target_os, name);
    name
}

/// A library that needs no patching is accepted as its own output: all its public
/// symbols carry the prefix, and there is one.
pub proof fn clean_library_is_accepted(
    library: Seq<u8>,
    keep_prefix: Seq<char>,
    target_os: Seq<char>,
)
    requires
        library.len() > 0,
        inspect::symbols_of(library).len() > 0,
        forall|name: Seq<char>| #[trigger]
            inspect::symbols_of(library).contains(name) ==> keep::is_api(name, keep_prefix),
    ensures
        verdict(Some(library), Some(library), keep_prefix, target_os) == Ok::<int, Complaint>(
            inspect::symbols_of(library).len() as int,
        ),
{
    let symbols = inspect::symbols_of(library);
    let leak = |name: Seq<char>| keep::is_leak(name, keep_prefix, imports::exempt_of(library));
    let is_api = |name: Seq<char>| keep::is_api(name, keep_prefix);
    let is_missing = |name: Seq<char>| !symbols.contains(name);
    let leaked = symbols.filter(leak);
    let api = symbols.filter(is_api);
    let missing = api.filter(is_missing);
    if leaked.len() > 0 {
        assert(leaked.contains(leaked[0]));
        lists::lemma_filter_contains(symbols, leak, leaked[0]);
    }
    assert(symbols.contains(symbols[0]));
    lists::lemma_filter_contains(symbols, is_api, symbols[0]);
    assert(api.len() > 0) by {
        if api.len() == 0 {
            assert(!api.contains(symbols[0]));
        }
    }
    if missing.len() > 0 {
        assert(missing.contains(missing[0]));
        lists::lemma_filter_contains(api, is_missing, missing[0]);
        lists::lemma_filter_contains(symbols, is_api, missing[0]);
    }
}

/// A library is accepted that is there and large enough, has public symbols, none of
/// which leaks, and still has every symbol of the input that begins with the prefix or
/// with an underscore and the prefix, of which there is one. What else the input has
/// does not matter. The answer is the number of public symbols.
pub proof fn a_good_library_is_accepted(
    output: Seq<u8>,
    original: Seq<u8>,
    keep_prefix: Seq<char>,
    target_os: Seq<char>,
    kept: Seq<char>,
)
    requires
        output.len() > 0,
        target_os == "windows"@ ==> output.len() * 10000 >= original.len(),
        target_os != "windows"@ ==> output.len() * 100 >= original.len(),
        inspect::symbols_of(output).len() > 0,
        forall|name: Seq<char>| #[trigger]
            inspect::symbols_of(output).contains(name) ==> {
                ||| imports::exempt_of(output).contains(name)
                ||| keep_prefix.is_prefix_of(name)
                ||| ("_"@ + keep_prefix).is_prefix_of(name)
                ||| "DW.ref."@.is_prefix_of(name)
                ||| "_DW.ref."@.is_prefix_of(name)
                ||| "GLOBAL_OFFSET_TABLE_"@.is_prefix_of(name)
                ||| "_GLOBAL_OFFSET_TABLE_"@.is_prefix_of(name)
                ||| "GCC_except_table"@.is_prefix_of(name)
                ||| "_GCC_except_table"@.is_prefix_of(name)
                ||| "@"@.is_prefix_of(name)
                ||| "."@.is_prefix_of(name)
                ||| "??"@.is_prefix_of(name)
            },
        inspect::symbols_of(original).contains(kept),
        keep_prefix.is_prefix_of(kept) || ("_"@ + keep_prefix).is_prefix_of(kept),
        forall|name: Seq<char>| #[trigger]
            inspect::symbols_of(original).contains(name) && (keep_prefix.is_prefix_of(name) || (
            "_"@ + keep_prefix).is_prefix_of(name)) ==> inspect::symbols_of(output).contains(name),
    ensures
        verdict(Some(output), Some(original), keep_prefix, target_os) == Ok::<int, Complaint>(
            inspect::symbols_of(output).len() as int,
        ),
{
    let symbols = inspect::symbols_of(output);
    let inputs = inspect::symbols_of(original);
    let exempt = imports::exempt_of(output);
    let leak = |name: Seq<char>| keep::is_leak(name, keep_prefix, exempt);
    let is_api = |name: Seq<char>| keep::is_api(name, keep_prefix);
    let is_missing = |name: Seq<char>| !symbols.contains(name);
    let leaked = symbols.filter(leak);
    let api = inputs.filter(is_api);
    let missing = api.filter(is_missing);
    if leaked.len() > 0 {
        assert(leaked.contains(leaked[0]));
        lists::lemma_filter_contains(symbols, leak, leaked[0]);
        keep::leaks_by_how_they_begin(leaked[0], keep_prefix, exempt);
    }
    keep::the_interface_begins_with_the_prefix(kept, keep_prefix);
    lists::lemma_filter_contains(inputs, is_api, kept);
    assert(api.contains(kept));
    if missing.len() > 0 {
        assert(missing.contains(missing[0]));
        lists::lemma_filter_contains(api, is_missing, missing[0]);
        lists::lemma_filter_contains(inputs, is_api, missing[0]);
        keep::the_interface_begins_with_the_prefix(missing[0], keep_prefix);
    }
}

/// An accepted library is there and large enough, each of its public symbols is exempt
/// or begins with what lets it stay global, and each symbol of the input that begins
/// with the prefix, or with an underscore and the prefix, is among them.
pub proof fn an_accepted_library_is_good(
    output: Option<Seq<u8>>,
    original: Option<Seq<u8>>,
    keep_prefix: Seq<char>,
    target_os: Seq<char>,
    name: Seq<char>,
)
    requires
        verdict(output, original, keep_prefix, target_os) is Ok,
    ensures
        output is Some,
        original is Some,
        output->0.len() > 0,
        target_os == "windows"@ ==> output->0.len() * 10000 >= original->0.len(),
        target_os != "windows"@ ==> output->0.len() * 100 >= original->0.len(),
        verdict(output, original, keep_prefix, target_os) == Ok::<int, Complaint>(
            inspect::symbols_of(output->0).len() as int,
        ),
        inspect::symbols_of(output->0).contains(name) ==> {
            ||| imports::exempt_of(output->0).contains(name)
            ||| keep_prefix.is_prefix_of(name)
            ||| ("_"@ + keep_prefix).is_prefix_of(name)
            ||| "DW.ref."@.is_prefix_of(name)
            ||| "_DW.ref."@.is_prefix_of(name)
            ||| "GLOBAL_OFFSET_TABLE_"@.is_prefix_of(name)
            ||| "_GLOBAL_OFFSET_TABLE_"@.is_prefix_of(name)
            ||| "GCC_except_table"@.is_prefix_of(name)
            ||| "_GCC_except_table"@.is_prefix_of(name)
            ||| "@"@.is_prefix_of(name)
            ||| "."@.is_prefix_of(name)
            ||| "??"@.is_prefix_of(name)
        },
        inspect::symbols_of(original->0).contains(name) && (keep_prefix.is_prefix_of(name) || ("_"@
            + keep_prefix).is_prefix_of(name)) ==> inspect::symbols_of(output->0).contains(name),
{
    if inspect::symbols_of(output->0).contains(name) {
        accepted_library_leaks_nothing(output->0, original->0, keep_prefix, target_os, name);
        keep::allowed_names_by_how_they_begin(name, keep_prefix);
    }
    keep::the_interface_begins_with_the_prefix(name, keep_prefix);
    if inspect::symbols_of(original->0).contains(name) && keep::is_api(name, keep_prefix) {
        accepted_library_keeps_the_api(output->0, original->0, keep_prefix, target_os, name);
    }
}

/// A complaint is never groundless, and it is the first that has a ground. The output
/// is missing or empty, the input is missing, or the output is too small, as it says;
/// there are no public symbols; the leaked names are exactly those that are not exempt
/// and begin with nothing that lets them stay global; no symbol of the input begins
/// with the prefix; or the lost names are exactly those that do and are not in the
/// output, out of the given number.
pub proof fn complaints_are_grounded(
    output: Option<Seq<u8>>,
    original: Option<Seq<u8>>,
    keep_prefix: Seq<char>,
    target_os: Seq<char>,
)
    ensures
        ({
            let symbols = inspect::symbols_of(output->0);
            let inputs = inspect::symbols_of(original->0);
            let carries = |name: Seq<char>|
                keep_prefix.is_prefix_of(name) || ("_"@ + keep_prefix).is_prefix_of(name);
            let lost = |name: Seq<char>|
                (keep_prefix.is_prefix_of(name) || ("_"@ + keep_prefix).is_prefix_of(name))
                    && !symbols.contains(name);
            let leaks = |name: Seq<char>|
                {
                    &&& !imports::exempt_of(output->0).contains(name)
                    &&& !keep_prefix.is_prefix_of(name)
                    &&& !("_"@ + keep_prefix).is_prefix_of(name)
                    &&& !"DW.ref."@.is_prefix_of(name)
                    &&& !"_DW.ref."@.is_prefix_of(name)
                    &&& !"GLOBAL_OFFSET_TABLE_"@.is_prefix_of(name)
                    &&& !"_GLOBAL_OFFSET_TABLE_"@.is_prefix_of(name)
                    &&& !"GCC_except_table"@.is_prefix_of(name)
                    &&& !"_GCC_except_table"@.is_prefix_of(name)
                    &&& !"@"@.is_prefix_of(name)
                    &&& !"."@.is_prefix_of(name)
                    &&& !"??"@.is_prefix_of(name)
                };
            let there = output is Some && output->0.len() > 0;
            let small = if target_os == "windows"@ {
                output->0.len() * 10000 < original->0.len()
            } else {
                output->0.len() * 100 < original->0.len()
            };
            match verdict(output, original, keep_prefix, target_os) {
                Ok(_) => true,
                Err(Complaint::NotCreated) => output is None,
                Err(Complaint::Empty) => output is Some && output->0.len() == 0,
                Err(Complaint::OriginalUnreadable) => there && original is None,
                Err(Complaint::TooSmall { output: size, input }) => {
                    &&& there && original is Some && small
                    &&& size == output->0.len()
                    &&& input == original->0.len()
                },
                Err(Complaint::NoSymbols) => {
                    &&& there && original is Some && !small
                    &&& symbols.len() == 0
                },
                Err(Complaint::Leaked(names)) => {
                    &&& there && original is Some && !small
                    &&& names.len() > 0
                    &&& names == symbols.filter(leaks)
                },
                Err(Complaint::NothingMatches) => {
                    &&& there && original is Some && !small && symbols.len() > 0
                    &&& symbols.filter(leaks).len() == 0
                    &&& inputs.filter(carries).len() == 0
                },
                Err(Complaint::Lost { missing, matching }) => {
                    &&& there && original is Some && !small && symbols.len() > 0
                    &&& symbols.filter(leaks).len() == 0
                    &&& missing.len() > 0
                    &&& missing == inputs.filter(lost)
                    &&& matching == inputs.filter(carries).len()
                },
            }
        }),
{
    let symbols = inspect::symbols_of(output->0);
    let inputs = inspect::symbols_of(original->0);
    let exempt = imports::exempt_of(output->0);
    let leak = |name: Seq<char>| keep::is_leak(name, keep_prefix, exempt);
    let is_api = |name: Seq<char>| keep::is_api(name, keep_prefix);
    let is_missing = |name: Seq<char>| !symbols.contains(name);
    let carries = |name: Seq<char>|
        keep_prefix.is_prefix_of(name) || ("_"@ + keep_prefix).is_prefix_of(name);
    let lost = |name: Seq<char>|
        (keep_prefix.is_prefix_of(name) || ("_"@ + keep_prefix).is_prefix_of(name))
            && !symbols.contains(name);
    let leaks = |name: Seq<char>|
        {
            &&& !imports::exempt_of(output->0).contains(name)
            &&& !keep_prefix.is_prefix_of(name)
            &&& !("_"@ + keep_prefix).is_prefix_of(name)
            &&& !"DW.ref."@.is_prefix_of(name)
            &&& !"_DW.ref."@.is_prefix_of(name)
            &&& !"GLOBAL_OFFSET_TABLE_"@.is_prefix_of(name)
            &&& !"_GLOBAL_OFFSET_TABLE_"@.is_prefix_of(name)
            &&& !"GCC_except_table"@.is_prefix_of(name)
            &&& !"_GCC_except_table"@.is_prefix_of(name)
            &&& !"@"@.is_prefix_of(name)
            &&& !"."@.is_prefix_of(name)
            &&& !"??"@.is_prefix_of(name)
        };
    assert forall|name: Seq<char>| #[trigger] leak(name) == leaks(name) by {
        keep::leaks_by_how_they_begin(name, keep_prefix, exempt);
    }
    assert forall|name: Seq<char>| #[trigger] is_api(name) == carries(name) by {
        keep::the_interface_begins_with_the_prefix(name, keep_prefix);
    }
    lists::lemma_filter_alike(symbols, leak, leaks);
    lists::lemma_filter_alike(inputs, is_api, carries);
    lists::lemma_filter_twice(inputs, carries, is_missing, lost);
}

/// A library is read only where the judgement needs it: neither is where the output is
/// missing, empty or too small, or the input is missing; and the input is only where
/// the output has public symbols and none of them leaks.
pub proof fn libraries_are_read_only_where_needed(
    output: Seq<u8>,
    original: Seq<u8>,
    keep_prefix: Seq<char>,
    target_os: Seq<char>,
)
    ensures
        can_be_judged(None, Some(original), keep_prefix, target_os),
        can_be_judged(Some(output), None, keep_prefix, target_os),
        can_be_judged(None, None, keep_prefix, target_os),
        output.len() == 0 ==> can_be_judged(Some(output), Some(original), keep_prefix, target_os),
        target_os == "windows"@ && output.len() * 10000 < original.len() ==> can_be_judged(
            Some(output),
            Some(original),
            keep_prefix,
            target_os,
        ),
        target_os != "windows"@ && output.len() * 100 < original.len() ==> can_be_judged(
            Some(output),
            Some(original),
            keep_prefix,
            target_os,
        ),
        headers::readable(output) && headers::readable(original) ==> can_be_judged(
            Some(output),
            Some(original),
            keep_prefix,
            target_os,
        ),
        headers::readable(output) && (verdict(
            Some(output),
            Some(original),
            keep_prefix,
            target_os,
        ) matches Err(Complaint::NoSymbols) || verdict(
            Some(output),
            Some(original),
            keep_prefix,
            target_os,
        ) matches Err(Complaint::Leaked(_))) ==> can_be_judged(
            Some(output),
            Some(original),
            keep_prefix,
            target_os,
        ),
{
}

} // verus!
