//! The decisions that come before patching.

use vstd::prelude::*;
use vstd::string::*;

use crate::headers;
use crate::headers::can_read;
use crate::inspect;
use crate::inspect::{detect_archive_arch, find_architecture};
use crate::target;
use crate::target::target_os_from_triplet;
use crate::text;
use crate::text::{contains, same};

verus! {

/// The ways to patch a library.
#[derive(Clone, Copy, PartialEq, Eq, Debug, Structural)]
pub enum Platform {
    Windows,
    /// macOS, iOS, tvOS and visionOS.
    Apple,
    Android,
    Linux,
}

/// How a library is to be patched.
pub struct Plan {
    pub target_os: String,
    pub arch: String,
    pub platform: Platform,
}

/// What a `Plan` says.
pub struct PlanView {
    pub target_os: Seq<char>,
    pub arch: Seq<char>,
    pub platform: Platform,
}

impl DeepView for Plan {
    type V = PlanView;

    open spec fn deep_view(&self) -> PlanView {
        PlanView { target_os: self.target_os@, arch: self.arch@, platform: self.platform }
    }
}

/// Why a library is not patched at all.
#[derive(Clone, Copy, PartialEq, Eq, Debug, Structural)]
pub enum PatchError {
    /// The prefix is empty, so that every symbol would stay public.
    EmptyPrefix,
}

/// The system that a library is taken to be for: the one that the triplet names,
/// else that of the build, else that of the host, where `linux` stands for all that
/// are not told apart.
pub open spec fn chosen_os(
    triplet: Option<Seq<char>>,
    build_os: Option<Seq<char>>,
    host_os: Seq<char>,
) -> Seq<char> {
    let named = match triplet {
        Some(triplet) => target::os_of_triplet(triplet),
        None => None,
    };
    match named {
        Some(os) => os,
        None => match build_os {
            Some(os) => os,
            None => if host_os == "windows"@ || host_os == "macos"@ || host_os == "ios"@ {
                host_os
            } else {
                "linux"@
            },
        },
    }
}

/// The way to patch a library for a system. Android is known by its name, or by the
/// triplet.
pub open spec fn platform_for(os: Seq<char>, triplet: Option<Seq<char>>) -> Platform {
    if os == "windows"@ {
        Platform::Windows
    } else if os == "macos"@ || os == "ios"@ || os == "tvos"@ || os == "visionos"@ {
        Platform::Apple
    } else if os == "android"@ || (triplet matches Some(triplet) && text::holds(
        triplet,
        "android"@,
    )) {
        Platform::Android
    } else {
        Platform::Linux
    }
}

/// The architecture of a library that may be unreadable.
pub open spec fn detected(library: Option<&[u8]>) -> Seq<char> {
    match library {
        Some(bytes) => inspect::library_architecture(inspect::found_architecture(bytes@)),
        None => "x86_64"@,
    }
}

/// The plan for a library.
pub open spec fn plan_for(
    target_arch: Option<Seq<char>>,
    triplet: Option<Seq<char>>,
    build_os: Option<Seq<char>>,
    host_os: Seq<char>,
    library: Option<&[u8]>,
) -> PlanView {
    let os = chosen_os(triplet, build_os, host_os);
    PlanView {
        target_os: os,
        arch: match target_arch {
            Some(arch) => arch,
            None => detected(library),
        },
        platform: platform_for(os, triplet),
    }
}

/// Decides which system a library is taken to be for.
pub fn choose_os(triplet: Option<&str>, build_os: Option<&str>, host_os: &str) -> (r: String)
    ensures
        r@ == chosen_os(triplet.deep_view(), build_os.deep_view(), host_os@),
{
    if let Some(triplet) = triplet {
        if let Some(os) = target_os_from_triplet(triplet) {
            return os.to_owned();
        }
    }
    if let Some(os) = build_os {
        return os.to_owned();
    }
    if same(host_os, "windows") || same(host_os, "macos") || same(host_os, "ios") {
        host_os.to_owned()
    } else {
        "linux".to_owned()
    }
}

/// Decides how a library for a system is patched.
pub fn choose_platform(os: &str, triplet: Option<&str>) -> (r: Platform)
    ensures
        r == platform_for(os@, triplet.deep_view()),
{
    if same(os, "windows") {
        return Platform::Windows;
    }
    if same(os, "macos") || same(os, "ios") || same(os, "tvos") || same(os, "visionos") {
        return Platform::Apple;
    }
    let android = match triplet {
        Some(triplet) => contains(triplet, "android"),
        None => false,
    };
    if same(os, "android") || android {
        Platform::Android
    } else {
        Platform::Linux
    }
}

/// Whether the library can be read as far as the plan needs it: up to its first
/// object, unless the prefix is empty.
pub open spec fn can_be_planned(keep_prefix: Seq<char>, library: Option<&[u8]>) -> bool {
    library matches Some(bytes) ==> keep_prefix.len() > 0 ==> inspect::can_be_detected(bytes@)
}

/// What planning says.
pub open spec fn planned(r: Result<Plan, PatchError>) -> Result<PlanView, PatchError> {
    match r {
        Ok(plan) => Ok(plan.deep_view()),
        Err(error) => Err(error),
    }
}

/// The plan for a library, or the refusal of an empty prefix.
pub open spec fn planning(
    keep_prefix: Seq<char>,
    target_arch: Option<Seq<char>>,
    triplet: Option<Seq<char>>,
    build_os: Option<Seq<char>>,
    host_os: Seq<char>,
    library: Option<&[u8]>,
) -> Result<PlanView, PatchError> {
    if keep_prefix.len() == 0 {
        Err(PatchError::EmptyPrefix)
    } else {
        Ok(plan_for(target_arch, triplet, build_os, host_os, library))
    }
}

/// Decides how a library is patched so that only symbols with the prefix stay
/// public. An empty prefix, which every symbol carries, is rejected. The
/// architecture is that of the library, unless another one is given.
pub fn patch_lib(
    keep_prefix: &str,
    target_arch: Option<&str>,
    target_triplet: Option<&str>,
    build_os: Option<&str>,
    host_os: &str,
    library: Option<&[u8]>,
) -> (r: Result<Plan, PatchError>)
    requires
        can_be_planned(keep_prefix@, library),
    ensures
        planned(r) == planning(
            keep_prefix@,
            target_arch.deep_view(),
            target_triplet.deep_view(),
            build_os.deep_view(),
            host_os@,
            library,
        ),
{
    if keep_prefix.unicode_len() == 0 {
        return Err(PatchError::EmptyPrefix);
    }
    let target_os = choose_os(target_triplet, build_os, host_os);
    let found = detect_archive_arch(library);
    let arch = match target_arch {
        Some(arch) => arch,
        None => found,
    };
    let platform = choose_platform(target_os.as_str(), target_triplet);
    Ok(Plan { target_os, arch: arch.to_owned(), platform })
}

/// Decides how a library is patched where it can be read as far as that needs it,
/// and answers `None` where it cannot.
pub fn patch_if_readable(
    keep_prefix: &str,
    target_arch: Option<&str>,
    target_triplet: Option<&str>,
    build_os: Option<&str>,
    host_os: &str,
    library: Option<&[u8]>,
) -> (r: Option<Result<Plan, PatchError>>)
    ensures
        match r {
            Some(result) => can_be_planned(keep_prefix@, library) && planned(result) == planning(
                keep_prefix@,
                target_arch.deep_view(),
                target_triplet.deep_view(),
                build_os.deep_view(),
                host_os@,
                library,
            ),
            None => !can_be_planned(keep_prefix@, library),
        },
{
    if let Some(bytes) = library {
        if keep_prefix.unicode_len() > 0 && find_architecture(bytes).is_none() && !can_read(bytes) {
            return None;
        }
    }
    Some(patch_lib(keep_prefix, target_arch, target_triplet, build_os, host_os, library))
}

/// The triplet decides on the system where it names one, else the build where it says,
/// else the host, of which three are told from all others.
pub proof fn the_triplet_comes_before_the_build_and_the_host(
    triplet: Option<Seq<char>>,
    build_os: Option<Seq<char>>,
    host_os: Seq<char>,
)
    ensures
        triplet is Some && target::os_of_triplet(triplet->0) is Some ==> chosen_os(
            triplet,
            build_os,
            host_os,
        ) == target::os_of_triplet(triplet->0)->0,
        (triplet is None || target::os_of_triplet(triplet->0) is None) && build_os is Some
            ==> chosen_os(triplet, build_os, host_os) == build_os->0,
        (triplet is None || target::os_of_triplet(triplet->0) is None) && build_os is None && (
        host_os == "windows"@ || host_os == "macos"@ || host_os == "ios"@) ==> chosen_os(
            triplet,
            build_os,
            host_os,
        ) == host_os,
        (triplet is None || target::os_of_triplet(triplet->0) is None) && build_os is None
            && host_os != "windows"@ && host_os != "macos"@ && host_os != "ios"@ ==> chosen_os(
            triplet,
            build_os,
            host_os,
        ) == "linux"@,
{
}

/// The way to patch a library, by the system and what the triplet holds.
pub proof fn platforms_by_system(os: Seq<char>, triplet: Option<Seq<char>>)
    ensures
        platform_for(os, triplet) == Platform::Windows <==> os == "windows"@,
        platform_for(os, triplet) == Platform::Apple <==> os == "macos"@ || os == "ios"@ || os
            == "tvos"@ || os == "visionos"@,
        os != "windows"@ && os != "macos"@ && os != "ios"@ && os != "tvos"@ && os != "visionos"@
            ==> (platform_for(os, triplet) == Platform::Android <==> os == "android"@ || (triplet
            is Some && text::holds(triplet->0, "android"@))),
{
    reveal_strlit("windows");
    reveal_strlit("macos");
    reveal_strlit("ios");
    reveal_strlit("tvos");
    reveal_strlit("visionos");
    assert("windows"@.len() == 7 && "macos"@.len() == 5 && "ios"@.len() == 3);
    assert("tvos"@.len() == 4 && "visionos"@.len() == 8);
}

/// A library is planned for exactly where the prefix is not empty: with the system
/// that is chosen, the way to patch a library for it, and the architecture that is
/// given, else that of the library, else the common one.
pub proof fn plans_by_what_is_given(
    keep_prefix: Seq<char>,
    target_arch: Option<Seq<char>>,
    triplet: Option<Seq<char>>,
    build_os: Option<Seq<char>>,
    host_os: Seq<char>,
    library: Option<&[u8]>,
)
    ensures
        keep_prefix.len() == 0 ==> planning(
            keep_prefix,
            target_arch,
            triplet,
            build_os,
            host_os,
            library,
        ) == Err::<PlanView, PatchError>(PatchError::EmptyPrefix),
        keep_prefix.len() > 0 ==> {
            let r = planning(keep_prefix, target_arch, triplet, build_os, host_os, library);
            &&& r is Ok
            &&& r->Ok_0.target_os == chosen_os(triplet, build_os, host_os)
            &&& r->Ok_0.platform == platform_for(chosen_os(triplet, build_os, host_os), triplet)
            &&& target_arch is Some ==> r->Ok_0.arch == target_arch->0
            &&& target_arch is None && library is None ==> r->Ok_0.arch == "x86_64"@
            &&& target_arch is None && library is Some ==> {
                let found = inspect::found_architecture(library->0@);
                &&& found is Some ==> r->Ok_0.arch == inspect::architecture_text(found->0)
                &&& found is None ==> r->Ok_0.arch == "x86_64"@
            }
        },
{
}

/// An Android triplet selects the tools of the NDK, and another one that names Linux
/// those of Linux, whatever the build and the host are.
pub proof fn android_triplets_select_the_ndk(
    triplet: Seq<char>,
    build_os: Option<Seq<char>>,
    host_os: Seq<char>,
)
    requires
        !text::holds(triplet, "windows"@),
        !text::holds(triplet, "apple"@),
        !text::holds(triplet, "apple-ios"@),
        !text::holds(triplet, "apple-tvos"@),
        !text::holds(triplet, "apple-visionos"@),
        !text::holds(triplet, "darwin"@),
    ensures
        text::holds(triplet, "android"@) ==> platform_for(
            chosen_os(Some(triplet), build_os, host_os),
            Some(triplet),
        ) == Platform::Android,
        text::holds(triplet, "linux"@) && !text::holds(triplet, "android"@) ==> platform_for(
            chosen_os(Some(triplet), build_os, host_os),
            Some(triplet),
        ) == Platform::Linux,
{
    target::systems_by_what_a_triplet_holds(triplet);
    platforms_by_system("linux"@, Some(triplet));
    reveal_strlit("linux");
    reveal_strlit("windows");
    reveal_strlit("macos");
    reveal_strlit("ios");
    reveal_strlit("tvos");
    reveal_strlit("visionos");
    reveal_strlit("android");
    assert("linux"@.len() == 5 && "windows"@.len() == 7 && "ios"@.len() == 3);
    assert("tvos"@.len() == 4 && "visionos"@.len() == 8 && "android"@.len() == 7);
    assert("linux"@[0] != "macos"@[0]);
}

/// A library is read only where the plan needs it, and only up to its first object.
pub proof fn libraries_are_read_up_to_the_first_object(
    keep_prefix: Seq<char>,
    library: Option<&[u8]>,
)
    ensures
        keep_prefix.len() == 0 ==> can_be_planned(keep_prefix, library),
        library is None ==> can_be_planned(keep_prefix, library),
        library is Some && headers::readable(library->0@) ==> can_be_planned(keep_prefix, library),
        library is Some && inspect::found_architecture(library->0@) is Some ==> can_be_planned(
            keep_prefix,
            library,
        ),
{
}

} // verus!
