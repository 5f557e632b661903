//! Extraction of the objects from a library.

use vstd::prelude::*;
use vstd::string::*;

use crate::formats;
use crate::formats::{parse_archive, Member, MemberView};
use crate::lists;
use crate::text;
use crate::text::{lossy_text, same, starts_with};

verus! {

/// Why the objects of a library cannot be extracted.
pub enum ExtractError {
    /// The library is no archive; the text says why.
    NotAnArchive(String),
    /// The header of a member is malformed.
    BadMember,
    /// The contents of a member lie outside the library.
    BadData,
    /// The library holds no objects.
    NoObjects,
}

/// What an `ExtractError` says.
pub enum ExtractErrorView {
    NotAnArchive(Seq<char>),
    BadMember,
    BadData,
    NoObjects,
}

impl DeepView for ExtractError {
    type V = ExtractErrorView;

    open spec fn deep_view(&self) -> ExtractErrorView {
        match self {
            ExtractError::NotAnArchive(text) => ExtractErrorView::NotAnArchive(text@),
            ExtractError::BadMember => ExtractErrorView::BadMember,
            ExtractError::BadData => ExtractErrorView::BadData,
            ExtractError::NoObjects => ExtractErrorView::NoObjects,
        }
    }
}

/// Whether a member is a symbol table or a table of names.
pub open spec fn is_table(name: Seq<char>) -> bool {
    name == "/"@ || name == "//"@ || "__.SYMDEF"@.is_prefix_of(name)
}

/// The contents of the members that are no tables. A malformed member ends the
/// extraction, unless it is a table that only lacks its contents.
pub open spec fn object_members(members: Seq<Option<MemberView>>) -> Result<
    Seq<Seq<u8>>,
    ExtractErrorView,
>
    decreases members.len(),
{
    if members.len() == 0 {
        Ok(Seq::empty())
    } else {
        match object_members(members.drop_last()) {
            Err(error) => Err(error),
            Ok(objects) => match members.last() {
                None => Err(ExtractErrorView::BadMember),
                Some(member) => if is_table(text::lossy(member.name)) {
                    Ok(objects)
                } else {
                    match member.data {
                        None => Err(ExtractErrorView::BadData),
                        Some(data) => Ok(objects.push(data)),
                    }
                },
            },
        }
    }
}

/// The objects to link, of which there must be one.
pub open spec fn extracted(members: Result<Seq<Option<MemberView>>, Seq<char>>) -> Result<
    Seq<Seq<u8>>,
    ExtractErrorView,
> {
    match members {
        Err(text) => Err(ExtractErrorView::NotAnArchive(text)),
        Ok(members) => match object_members(members) {
            Err(error) => Err(error),
            Ok(objects) => if objects.len() == 0 {
                Err(ExtractErrorView::NoObjects)
            } else {
                Ok(objects)
            },
        },
    }
}

/// What an extraction says.
pub open spec fn extraction(r: Result<Vec<Vec<u8>>, ExtractError>) -> Result<
    Seq<Seq<u8>>,
    ExtractErrorView,
> {
    match r {
        Ok(objects) => Ok(objects.deep_view()),
        Err(error) => Err(error.deep_view()),
    }
}

fn bytes_of(data: &Vec<u8>) -> (r: Vec<u8>)
    ensures
        r@ == data@,
{
    let mut out: Vec<u8> = Vec::new();
    out.extend_from_slice(data.as_slice());
    assert(out@ =~= data@);
    out
}

proof fn lemma_bad_start(members: Seq<Option<MemberView>>, n: int)
    requires
        0 <= n <= members.len(),
        object_members(members.take(n)) is Err,
    ensures
        object_members(members) == object_members(members.take(n)),
    decreases members.len(),
{
    if n < members.len() {
        assert(members.drop_last().take(n) =~= members.take(n));
        lemma_bad_start(members.drop_last(), n);
    } else {
        assert(members.take(n) =~= members);
    }
}

/// Picks the objects to link out of the members of an archive.
pub fn pick_objects(members: &Result<Vec<Option<Member>>, String>) -> (r: Result<
    Vec<Vec<u8>>,
    ExtractError,
>)
    ensures
        extraction(r) == extracted(formats::members_view(*members)),
{
    let list = match members {
        Ok(list) => list,
        Err(text) => {
            return Err(ExtractError::NotAnArchive(text.clone()));
        },
    };
    let ghost all = list.deep_view();
    let mut objects: Vec<Vec<u8>> = Vec::new();
    assert(objects.deep_view() =~= Seq::empty());
    let n: usize = list.len();
    for i in 0..n
        invariant
            n == list@.len(),
            all == list.deep_view(),
            formats::members_view(*members) == Ok::<Seq<Option<MemberView>>, Seq<char>>(all),
            object_members(all.take(i as int)) == Ok::<Seq<Seq<u8>>, ExtractErrorView>(
                objects.deep_view(),
            ),
    {
        proof {
            assert(all.take(i + 1).drop_last() =~= all.take(i as int));
            assert(all.take(i + 1).last() == list@[i as int].deep_view());
        }
        let member = match &list[i] {
            Some(member) => member,
            None => {
                proof {
                    lemma_bad_start(all, i + 1);
                }
                return Err(ExtractError::BadMember);
            },
        };
        let name = lossy_text(member.name.as_slice());
        let name = name.as_str();
        if !same(name, "/") && !same(name, "//") && !starts_with(name, "__.SYMDEF") {
            let data = match &member.data {
                Some(data) => data,
                None => {
                    proof {
                        lemma_bad_start(all, i + 1);
                    }
                    return Err(ExtractError::BadData);
                },
            };
            let ghost before = objects.deep_view();
            let copy = bytes_of(data);
            assert(copy.deep_view() =~= data@);
            objects.push(copy);
            assert(objects.deep_view() =~= before.push(data@));
        }
    }
    assert(all.take(n as int) =~= all);
    assert(objects.deep_view().len() == objects@.len());
    if objects.len() == 0 {
        return Err(ExtractError::NoObjects);
    }
    Ok(objects)
}

/// Extracts the objects to link from an Apple library.
pub fn extract_objects(library: &[u8]) -> (r: Result<Vec<Vec<u8>>, ExtractError>)
    ensures
        extraction(r) == extracted(formats::members_in(library@)),
{
    let members = parse_archive(library);
    pick_objects(&members)
}

/// The contents of the members of a COFF archive that are no tables. A malformed
/// member ends the extraction.
pub open spec fn coff_members(members: Seq<Option<MemberView>>) -> Result<
    Seq<Seq<u8>>,
    ExtractErrorView,
>
    decreases members.len(),
{
    if members.len() == 0 {
        Ok(Seq::empty())
    } else {
        match coff_members(members.drop_last()) {
            Err(error) => Err(error),
            Ok(objects) => match members.last() {
                None => Err(ExtractErrorView::BadMember),
                Some(member) => match member.data {
                    None => Err(ExtractErrorView::BadData),
                    Some(data) => if text::lossy(member.name) == "/"@ || text::lossy(member.name)
                        == "//"@ {
                        Ok(objects)
                    } else {
                        Ok(objects.push(data))
                    },
                },
            },
        }
    }
}

/// The objects of a COFF archive.
pub open spec fn coff_extracted(members: Result<Seq<Option<MemberView>>, Seq<char>>) -> Result<
    Seq<Seq<u8>>,
    ExtractErrorView,
> {
    match members {
        Err(text) => Err(ExtractErrorView::NotAnArchive(text)),
        Ok(members) => coff_members(members),
    }
}

proof fn lemma_bad_coff_start(members: Seq<Option<MemberView>>, n: int)
    requires
        0 <= n <= members.len(),
        coff_members(members.take(n)) is Err,
    ensures
        coff_members(members) == coff_members(members.take(n)),
    decreases members.len(),
{
    if n < members.len() {
        assert(members.drop_last().take(n) =~= members.take(n));
        lemma_bad_coff_start(members.drop_last(), n);
    } else {
        assert(members.take(n) =~= members);
    }
}

/// Picks the objects out of the members of a COFF archive.
pub fn pick_coff_objects(members: &Result<Vec<Option<Member>>, String>) -> (r: Result<
    Vec<Vec<u8>>,
    ExtractError,
>)
    ensures
        extraction(r) == coff_extracted(formats::members_view(*members)),
{
    let list = match members {
        Ok(list) => list,
        Err(text) => {
            return Err(ExtractError::NotAnArchive(text.clone()));
        },
    };
    let ghost all = list.deep_view();
    let mut objects: Vec<Vec<u8>> = Vec::new();
    assert(objects.deep_view() =~= Seq::empty());
    let n: usize = list.len();
    for i in 0..n
        invariant
            n == list@.len(),
            all == list.deep_view(),
            formats::members_view(*members) == Ok::<Seq<Option<MemberView>>, Seq<char>>(all),
            coff_members(all.take(i as int)) == Ok::<Seq<Seq<u8>>, ExtractErrorView>(
                objects.deep_view(),
            ),
    {
        proof {
            assert(all.take(i + 1).drop_last() =~= all.take(i as int));
            assert(all.take(i + 1).last() == list@[i as int].deep_view());
        }
        let member = match &list[i] {
            Some(member) => member,
            None => {
                proof {
                    lemma_bad_coff_start(all, i + 1);
                }
                return Err(ExtractError::BadMember);
            },
        };
        let data = match &member.data {
            Some(data) => data,
            None => {
                proof {
                    lemma_bad_coff_start(all, i + 1);
                }
                return Err(ExtractError::BadData);
            },
        };
        let name = lossy_text(member.name.as_slice());
        if !same(name.as_str(), "/") && !same(name.as_str(), "//") {
            let ghost before = objects.deep_view();
            let copy = bytes_of(data);
            assert(copy.deep_view() =~= data@);
            objects.push(copy);
            assert(objects.deep_view() =~= before.push(data@));
        }
    }
    assert(all.take(n as int) =~= all);
    Ok(objects)
}

/// Extracts the objects from a COFF library.
pub fn extract_coff_objects(library: &[u8]) -> (r: Result<Vec<Vec<u8>>, ExtractError>)
    ensures
        extraction(r) == coff_extracted(formats::members_in(library@)),
{
    let members = parse_archive(library);
    pick_coff_objects(&members)
}

proof fn lemma_object_members(members: Seq<Option<MemberView>>)
    ensures
        ({
            let keep = |member: Option<MemberView>|
                text::lossy(member->0.name) != "/"@ && text::lossy(member->0.name) != "//"@
                    && !"__.SYMDEF"@.is_prefix_of(text::lossy(member->0.name));
            let data = |member: Option<MemberView>| member->0.data->0;
            let sound = forall|i: int|
                0 <= i < members.len() ==> (#[trigger] members[i]) is Some && (keep(members[i])
                    ==> members[i]->0.data is Some);
            &&& object_members(members) is Ok <==> sound
            &&& sound ==> object_members(members) == Ok::<Seq<Seq<u8>>, ExtractErrorView>(
                members.filter(keep).map_values(data),
            )
        }),
    decreases members.len(),
{
    let keep = |member: Option<MemberView>|
        text::lossy(member->0.name) != "/"@ && text::lossy(member->0.name) != "//"@
            && !"__.SYMDEF"@.is_prefix_of(text::lossy(member->0.name));
    let data = |member: Option<MemberView>| member->0.data->0;
    if members.len() > 0 {
        let front = members.drop_last();
        lemma_object_members(front);
        lists::lemma_filter_map_last(members, keep, data);
        assert(members[members.len() - 1] == members.last());
        assert forall|i: int| 0 <= i < front.len() implies front[i] == #[trigger] members[i] by {}
    } else {
        reveal(Seq::filter);
        assert(members.filter(keep).map_values(data) =~= Seq::empty());
    }
}

/// Every object is extracted: where extraction succeeds, it gives the contents of
/// exactly those members that are not named `/`, `//` or `__.SYMDEF` with anything
/// behind it, each at its place in their order.
pub proof fn every_object_is_extracted(members: Seq<Option<MemberView>>)
    ensures
        extracted(Ok(members)) matches Ok(objects) ==> objects == members.filter(
            |member: Option<MemberView>|
                text::lossy(member->0.name) != "/"@ && text::lossy(member->0.name) != "//"@
                    && !"__.SYMDEF"@.is_prefix_of(text::lossy(member->0.name)),
        ).map_values(|member: Option<MemberView>| member->0.data->0),
{
    lemma_object_members(members);
}

/// Extraction succeeds exactly where every member is well formed, every one that is no
/// table has its contents, and there is one that is no table.
pub proof fn sound_libraries_are_extracted(members: Seq<Option<MemberView>>)
    ensures
        extracted(Ok(members)) is Ok <==> {
            &&& forall|i: int| 0 <= i < members.len() ==> (#[trigger] members[i]) is Some
            &&& forall|i: int|
                0 <= i < members.len() && text::lossy((#[trigger] members[i])->0.name) != "/"@
                    && text::lossy(members[i]->0.name) != "//"@ && !"__.SYMDEF"@.is_prefix_of(
                    text::lossy(members[i]->0.name),
                ) ==> members[i]->0.data is Some
            &&& exists|i: int|
                0 <= i < members.len() && text::lossy((#[trigger] members[i])->0.name) != "/"@
                    && text::lossy(members[i]->0.name) != "//"@ && !"__.SYMDEF"@.is_prefix_of(
                    text::lossy(members[i]->0.name),
                )
        },
{
    let keep = |member: Option<MemberView>|
        text::lossy(member->0.name) != "/"@ && text::lossy(member->0.name) != "//"@
            && !"__.SYMDEF"@.is_prefix_of(text::lossy(member->0.name));
    let kept = members.filter(keep);
    lemma_object_members(members);
    if kept.len() > 0 {
        assert(kept.contains(kept[0]));
        lists::lemma_filter_contains(members, keep, kept[0]);
        let i = choose|i: int| 0 <= i < members.len() && members[i] == kept[0];
        assert(keep(members[i]));
    }
    if exists|i: int| 0 <= i < members.len() && keep(#[trigger] members[i]) {
        let i = choose|i: int| 0 <= i < members.len() && keep(#[trigger] members[i]);
        assert(members.contains(members[i]));
        lists::lemma_filter_contains(members, keep, members[i]);
        assert(kept.contains(members[i]));
    }
}

/// The first bad member decides on the error; a library of tables alone holds no
/// objects; and what is no archive is none for the reason that is given.
pub proof fn the_first_bad_member_is_reported(
    members: Seq<Option<MemberView>>,
    i: int,
    reason: Seq<char>,
)
    requires
        0 <= i <= members.len(),
        forall|j: int|
            0 <= j < i ==> (#[trigger] members[j]) is Some && (text::lossy(members[j]->0.name)
                == "/"@ || text::lossy(members[j]->0.name) == "//"@ || "__.SYMDEF"@.is_prefix_of(
                text::lossy(members[j]->0.name),
            ) || members[j]->0.data is Some),
    ensures
        i < members.len() && members[i] is None ==> extracted(Ok(members)) == Err::<
            Seq<Seq<u8>>,
            ExtractErrorView,
        >(ExtractErrorView::BadMember),
        i < members.len() && members[i] is Some && members[i]->0.data is None && text::lossy(
            members[i]->0.name,
        ) != "/"@ && text::lossy(members[i]->0.name) != "//"@ && !"__.SYMDEF"@.is_prefix_of(
            text::lossy(members[i]->0.name),
        ) ==> extracted(Ok(members)) == Err::<Seq<Seq<u8>>, ExtractErrorView>(
            ExtractErrorView::BadData,
        ),
        i == members.len() && extracted(Ok(members)) is Err ==> extracted(Ok(members)) == Err::<
            Seq<Seq<u8>>,
            ExtractErrorView,
        >(ExtractErrorView::NoObjects),
        extracted(Err(reason)) == Err::<Seq<Seq<u8>>, ExtractErrorView>(
            ExtractErrorView::NotAnArchive(reason),
        ),
{
    lemma_object_members(members.take(i));
    assert forall|j: int| 0 <= j < i implies members.take(i)[j] == #[trigger] members[j] by {}
    if i < members.len() {
        assert(members.take(i + 1).drop_last() =~= members.take(i));
        assert(members.take(i + 1).last() == members[i]);
        if object_members(members.take(i + 1)) is Err {
            lemma_bad_start(members, i + 1);
        }
    } else {
        assert(members.take(i) =~= members);
    }
}

proof fn lemma_coff_members(members: Seq<Option<MemberView>>)
    ensures
        ({
            let keep = |member: Option<MemberView>|
                text::lossy(member->0.name) != "/"@ && text::lossy(member->0.name) != "//"@;
            let data = |member: Option<MemberView>| member->0.data->0;
            let sound = forall|i: int|
                0 <= i < members.len() ==> (#[trigger] members[i]) is Some
                    && members[i]->0.data is Some;
            &&& coff_members(members) is Ok <==> sound
            &&& sound ==> coff_members(members) == Ok::<Seq<Seq<u8>>, ExtractErrorView>(
                members.filter(keep).map_values(data),
            )
        }),
    decreases members.len(),
{
    let keep = |member: Option<MemberView>|
        text::lossy(member->0.name) != "/"@ && text::lossy(member->0.name) != "//"@;
    let data = |member: Option<MemberView>| member->0.data->0;
    if members.len() > 0 {
        let front = members.drop_last();
        lemma_coff_members(front);
        lists::lemma_filter_map_last(members, keep, data);
        assert(members[members.len() - 1] == members.last());
        assert forall|i: int| 0 <= i < front.len() implies front[i] == #[trigger] members[i] by {}
    } else {
        reveal(Seq::filter);
        assert(members.filter(keep).map_values(data) =~= Seq::empty());
    }
}

/// Every member of a COFF archive is extracted: extraction succeeds exactly where all
/// members are well formed and have their contents, and then it gives the contents of
/// exactly those that are not named `/` or `//`, each at its place in their order.
pub proof fn every_coff_member_is_extracted(members: Seq<Option<MemberView>>)
    ensures
        coff_extracted(Ok(members)) is Ok <==> forall|i: int|
            0 <= i < members.len() ==> (#[trigger] members[i]) is Some
                && members[i]->0.data is Some,
        coff_extracted(Ok(members)) matches Ok(objects) ==> objects == members.filter(
            |member: Option<MemberView>|
                text::lossy(member->0.name) != "/"@ && text::lossy(member->0.name) != "//"@,
        ).map_values(|member: Option<MemberView>| member->0.data->0),
{
    lemma_coff_members(members);
}

/// The first bad member of a COFF archive decides on the error, and what is no archive
/// is none for the reason that is given.
pub proof fn the_first_bad_coff_member_is_reported(
    members: Seq<Option<MemberView>>,
    i: int,
    reason: Seq<char>,
)
    requires
        0 <= i < members.len(),
        forall|j: int|
            0 <= j < i ==> (#[trigger] members[j]) is Some && members[j]->0.data is Some,
    ensures
        members[i] is None ==> coff_extracted(Ok(members)) == Err::<
            Seq<Seq<u8>>,
            ExtractErrorView,
        >(ExtractErrorView::BadMember),
        members[i] is Some && members[i]->0.data is None ==> coff_extracted(Ok(members)) == Err::<
            Seq<Seq<u8>>,
            ExtractErrorView,
        >(ExtractErrorView::BadData),
        coff_extracted(Err(reason)) == Err::<Seq<Seq<u8>>, ExtractErrorView>(
            ExtractErrorView::NotAnArchive(reason),
        ),
{
    lemma_coff_members(members.take(i));
    assert forall|j: int| 0 <= j < i implies members.take(i)[j] == #[trigger] members[j] by {}
    assert(members.take(i + 1).drop_last() =~= members.take(i));
    assert(members.take(i + 1).last() == members[i]);
    if coff_members(members.take(i + 1)) is Err {
        lemma_bad_coff_start(members, i + 1);
    }
}

} // verus!
