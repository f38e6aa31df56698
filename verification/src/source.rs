//! Pack sources: uniform access to a pack's members whether it arrived as an
//! in-memory zip archive or as a directory tree whose files were read into
//! memory, plus descriptor discovery, per-device processing, and the batch
//! driver that isolates per-pack failures.

use vstd::prelude::*;
use crate::algorithm::{extract_flash_algo, AlgorithmModel, FlashAlgorithm};
use crate::error::SourceError;
use crate::family::{
    family_named, lemma_add_device_registry, lemma_fold_devices_snoc, merge_device, pack_step,
    registry_wf, spec_add_device, spec_device_memory_map, spec_fold_devices, ChipFamily,
    FamilyModel,
};
use crate::algorithm::spec_extract;
use crate::error::ExtractionError;
use crate::model::{memories_bounded, sort_devices_by_name, spec_core_name, AlgorithmRef, DeviceInfo};
use crate::names::{extension_of, safe_member_name, extension_is, is_safe_member_name, str_eq};

verus! {

#[verifier::external_type_specification]
#[verifier::external_body]
#[verifier::reject_recursive_types(R)]
pub struct ExZipArchive<R>(zip::read::ZipArchive<R>);

#[verifier::external_type_specification]
#[verifier::external_body]
#[verifier::reject_recursive_types(T)]
pub struct ExCursor<T>(std::io::Cursor<T>);

/// An opened zip archive held in memory.
pub struct ArchiveSource {
    archive: zip::read::ZipArchive<std::io::Cursor<Vec<u8>>>,
}

/// The member names of an archive, in member order, each as the stored name
/// read as text. A member whose stored name is not valid UTF-8 appears here
/// in the reader's decoded form, which no lookup key can spell: such a
/// member can be listed yet never read back.
pub uninterp spec fn archive_names(a: ArchiveSource) -> Seq<Seq<char>>;

/// The member contents of an archive, keyed by stored member name; a member
/// whose stored name is not valid UTF-8 has no text key and is absent here.
pub uninterp spec fn archive_data(a: ArchiveSource) -> Map<Seq<char>, Seq<u8>>;

/// The given bytes form a readable zip container.
pub uninterp spec fn zip_readable(bytes: Seq<u8>) -> bool;

/// The member names the container over the given bytes holds, in member
/// order.
pub uninterp spec fn zip_names_of(bytes: Seq<u8>) -> Seq<Seq<char>>;

/// The member contents the container over the given bytes holds, by name.
pub uninterp spec fn zip_data_of(bytes: Seq<u8>) -> Map<Seq<char>, Seq<u8>>;

/// Relies on zip's ZipArchive::new: opens an archive over the given bytes,
/// failing exactly when they are not a readable zip container. The parse
/// reads nothing but the bytes, so whether it succeeds, and the member
/// table it yields, are functions of the bytes alone.
#[verifier::external_body]
pub fn open_archive(bytes: Vec<u8>) -> (r: Result<ArchiveSource, SourceError>)
    ensures
        r matches Ok(a) ==> zip_readable(bytes@) && archive_names(a) == zip_names_of(bytes@)
            && archive_data(a) == zip_data_of(bytes@),
        r matches Err(e) ==> e == SourceError::InvalidContainer && !zip_readable(bytes@),
{
    match zip::read::ZipArchive::new(std::io::Cursor::new(bytes)) {
        Ok(archive) => Ok(ArchiveSource { archive }),
        Err(_) => Err(SourceError::InvalidContainer),
    }
}

/// Relies on zip's ZipArchive::len: the number of members.
#[verifier::external_body]
fn archive_len(a: &ArchiveSource) -> (n: usize)
    ensures
        n == archive_names(*a).len(),
{
    a.archive.len()
}

/// Relies on zip's ZipArchive::name_for_index: the raw name of the member
/// at the given index, as stored in the member table.
#[verifier::external_body]
fn archive_name_at(a: &ArchiveSource, i: usize) -> (r: String)
    requires
        i < archive_names(*a).len(),
    ensures
        r@ == archive_names(*a)[i as int],
{
    match a.archive.name_for_index(i) {
        Some(n) => n.to_owned(),
        None => String::new(),
    }
}

/// Relies on zip's ZipArchive::by_name and the member reader it returns: on
/// success the returned bytes are the named member's contents; an absent
/// name fails exactly with `MissingMember` (zip reports `FileNotFound`
/// exactly when the name is no key of the member table); a present but
/// undecodable member fails with `InvalidContainer`; the member table is
/// unchanged either way.
#[verifier::external_body]
fn archive_read_member(a: &mut ArchiveSource, name: &str) -> (r: Result<Vec<u8>, SourceError>)
    ensures
        archive_names(*final(a)) == archive_names(*old(a)),
        archive_data(*final(a)) == archive_data(*old(a)),
        r matches Ok(bytes) ==> archive_data(*old(a)).dom().contains(name@) && bytes@
            == archive_data(*old(a))[name@],
        r == Err::<Vec<u8>, SourceError>(SourceError::MissingMember) <==> !archive_data(
            *old(a),
        ).dom().contains(name@),
        r matches Err(e) ==> (e == SourceError::MissingMember || e
            == SourceError::InvalidContainer),
{
    let mut file = match a.archive.by_name(name) {
        Ok(f) => f,
        Err(zip::result::ZipError::FileNotFound) => return Err(SourceError::MissingMember),
        Err(_) => return Err(SourceError::InvalidContainer),
    };
    let mut buf: Vec<u8> = Vec::new();
    match std::io::Read::read_to_end(&mut file, &mut buf) {
        Ok(_) => Ok(buf),
        Err(_) => Err(SourceError::InvalidContainer),
    }
}

/// A member qualifies as the descriptor entry: a safe name with the `pdsc`
/// extension.
pub open spec fn descriptor_candidate(name: Seq<char>) -> bool {
    safe_member_name(name) && extension_of(name) == Some("pdsc"@)
}

/// The first descriptor candidate of the member list, from index `i` on.
pub open spec fn spec_find_descriptor(names: Seq<Seq<char>>, i: int) -> Option<int>
    decreases names.len() - i,
{
    if !(0 <= i < names.len()) {
        None
    } else if descriptor_candidate(names[i]) {
        Some(i)
    } else {
        spec_find_descriptor(names, i + 1)
    }
}

/// Locates the descriptor entry of an archive: the first member with the
/// `pdsc` extension whose name is safe to resolve. Exactly one descriptor is
/// expected per archive; zero is an error, and of several the first is taken
/// (a policy choice).
pub fn find_descriptor_name(a: &ArchiveSource) -> (r: Result<String, SourceError>)
    ensures
        match r {
            Ok(name) => {
                &&& spec_find_descriptor(archive_names(*a), 0) matches Some(i) && name@
                    == archive_names(*a)[i]
                &&& descriptor_candidate(name@)
            },
            Err(e) => e == SourceError::NoDescriptor && spec_find_descriptor(archive_names(*a), 0)
                is None,
        },
{
    let n: usize = archive_len(a);
    let mut i: usize = 0;
    while i < n
        invariant
            n == archive_names(*a).len(),
            i <= n,
            spec_find_descriptor(archive_names(*a), 0) == spec_find_descriptor(
                archive_names(*a),
                i as int,
            ),
        decreases n - i,
    {
        let name = archive_name_at(a, i);
        if is_safe_member_name(name.as_str()) && extension_is(name.as_str(), "pdsc") {
            return Ok(name);
        }
        i = i + 1;
    }
    Err(SourceError::NoDescriptor)
}

/// The two backing kinds of a pack source, presented uniformly: an opened
/// zip archive, or members already read into memory (a directory tree whose
/// referenced files the caller loaded, keyed by relative path).
pub enum PackContents {
    Archive(ArchiveSource),
    Members(Vec<(String, Vec<u8>)>),
}

/// The first preloaded member named `name`, from index `i` on.
pub open spec fn spec_member_lookup(members: Seq<(String, Vec<u8>)>, name: Seq<char>, i: int) -> Option<
    Seq<u8>,
>
    decreases members.len() - i,
{
    if !(0 <= i < members.len()) {
        None
    } else if members[i].0@ == name {
        Some(members[i].1@)
    } else {
        spec_member_lookup(members, name, i + 1)
    }
}

/// Reads one named member out of a pack source. For preloaded members the
/// result is exact: the first pair with the given name, or `MissingMember`.
/// For an archive it is whatever the container holds under that name.
pub fn read_member(c: &mut PackContents, name: &str) -> (r: Result<Vec<u8>, SourceError>)
    ensures
        contents_preserved(*old(c), *final(c)),
        match (*old(c), *final(c)) {
            (PackContents::Archive(a0), PackContents::Archive(a1)) => {
                &&& archive_names(a1) == archive_names(a0)
                &&& archive_data(a1) == archive_data(a0)
                &&& (r matches Ok(bytes) ==> archive_data(a0).dom().contains(name@) && bytes@
                    == archive_data(a0)[name@])
            },
            (PackContents::Members(m0), PackContents::Members(m1)) => {
                &&& m1 == m0
                &&& (match spec_member_lookup(m0@, name@, 0) {
                    Some(bytes) => r matches Ok(v) && v@ == bytes,
                    None => r == Err::<Vec<u8>, SourceError>(SourceError::MissingMember),
                })
            },
            _ => false,
        },
{
    let r: Result<Vec<u8>, SourceError>;
    match c {
        PackContents::Archive(a) => {
            r = archive_read_member(a, name);
        },
        PackContents::Members(members) => {
            r = lookup_member(members, name);
        },
    }
    r
}

/// Looks a named member up in a preloaded member list: the first pair with
/// that name wins; an absent name is exactly `MissingMember`.
pub fn lookup_member(members: &Vec<(String, Vec<u8>)>, name: &str) -> (r: Result<
    Vec<u8>,
    SourceError,
>)
    ensures
        match spec_member_lookup(members@, name@, 0) {
            Some(bytes) => r matches Ok(v) && v@ == bytes,
            None => r == Err::<Vec<u8>, SourceError>(SourceError::MissingMember),
        },
{
    let n: usize = members.len();
    let mut i: usize = 0;
    while i < n
        invariant
            n == members@.len(),
            i <= n,
            spec_member_lookup(members@, name@, 0) == spec_member_lookup(
                members@,
                name@,
                i as int,
            ),
        decreases n - i,
    {
        if str_eq(members[i].0.as_str(), name) {
            proof {
                assert(members@[i as int].0@ == name@);
                assert(spec_member_lookup(members@, name@, i as int) == Some(
                    members@[i as int].1@,
                ));
            }
            let bytes = copy_bytes(&members[i].1);
            return Ok(bytes);
        }
        i = i + 1;
    }
    Err(SourceError::MissingMember)
}

/// Opens pack-archive bytes and reads the descriptor entry out of them: the
/// uniform first step for an archive-backed pack. On success the returned
/// bytes are the contents of the archive's first safe `pdsc` member.
/// Unreadable bytes fail with `InvalidContainer`; `NoDescriptor` comes
/// exactly when the container is readable but holds no descriptor
/// candidate; a descriptor member that cannot be read back (a corrupt or
/// non-UTF-8-named entry) fails with the read's own error.
pub fn open_pack_archive(bytes: Vec<u8>) -> (r: Result<(Vec<u8>, ArchiveSource), SourceError>)
    ensures
        r matches Ok(p) ==> ({
            let names = archive_names(p.1);
            &&& zip_readable(bytes@)
            &&& archive_names(p.1) == zip_names_of(bytes@)
            &&& archive_data(p.1) == zip_data_of(bytes@)
            &&& spec_find_descriptor(names, 0) matches Some(i) && archive_data(
                p.1,
            ).dom().contains(names[i]) && p.0@ == archive_data(p.1)[names[i]]
        }),
        !zip_readable(bytes@) ==> r == Err::<(Vec<u8>, ArchiveSource), SourceError>(
            SourceError::InvalidContainer,
        ),
        r == Err::<(Vec<u8>, ArchiveSource), SourceError>(SourceError::NoDescriptor) <==> (
        zip_readable(bytes@) && spec_find_descriptor(zip_names_of(bytes@), 0) is None),
{
    let archive = match open_archive(bytes) {
        Ok(a) => a,
        Err(e) => {
            return Err(e);
        },
    };
    let name = match find_descriptor_name(&archive) {
        Ok(n) => n,
        Err(e) => {
            return Err(e);
        },
    };
    let mut archive = archive;
    let text = match archive_read_member(&mut archive, name.as_str()) {
        Ok(t) => t,
        Err(e) => {
            return Err(e);
        },
    };
    Ok((text, archive))
}

/// The pack source's contents are unchanged: the same preloaded members, or
/// an archive with the same member table.
pub open spec fn contents_preserved(c0: PackContents, c1: PackContents) -> bool {
    match (c0, c1) {
        (PackContents::Archive(a0), PackContents::Archive(a1)) => archive_names(a1)
            == archive_names(a0) && archive_data(a1) == archive_data(a0),
        (PackContents::Members(m0), PackContents::Members(m1)) => m1 == m0,
        _ => false,
    }
}

/// The successfully extracted records of a per-reference outcome list, in
/// order.
pub open spec fn successes(results: Seq<Option<AlgorithmModel>>) -> Seq<AlgorithmModel>
    decreases results.len(),
{
    if results.len() == 0 {
        Seq::empty()
    } else {
        successes(results.drop_last()) + match results.last() {
            Some(m) => seq![m],
            None => Seq::empty(),
        }
    }
}

/// The file names of the failed references of an outcome list, in order.
pub open spec fn failure_names(
    results: Seq<Option<AlgorithmModel>>,
    refs: Seq<AlgorithmRef>,
) -> Seq<Seq<char>>
    decreases results.len(),
{
    if results.len() == 0 {
        Seq::empty()
    } else {
        failure_names(results.drop_last(), refs) + match results.last() {
            Some(_) => Seq::<Seq<char>>::empty(),
            None => seq![refs[results.len() - 1].file_name@],
        }
    }
}

/// What one algorithm reference yields from a preloaded member list: the
/// extracted record where the member exists, fits the 32-bit format and
/// decodes; nothing otherwise.
pub open spec fn member_outcome(
    members: Seq<(String, Vec<u8>)>,
    aref: AlgorithmRef,
) -> Option<AlgorithmModel> {
    match spec_member_lookup(members, aref.file_name@, 0) {
        None => None,
        Some(bytes) => if bytes.len() <= u32::MAX {
            match spec_extract(bytes, aref.file_name@, aref.is_default) {
                Ok(m) => Some(m),
                Err(_) => None,
            }
        } else {
            None
        },
    }
}

/// Every reported failure names one of the given references.
pub proof fn lemma_failure_names_sound(results: Seq<Option<AlgorithmModel>>, refs: Seq<AlgorithmRef>)
    requires
        results.len() <= refs.len(),
    ensures
        forall|x: Seq<char>|
            #[trigger] failure_names(results, refs).contains(x) ==> exists|j: int|
                0 <= j < refs.len() && #[trigger] refs[j].file_name@ == x,
    decreases results.len(),
{
    if results.len() > 0 {
        lemma_failure_names_sound(results.drop_last(), refs);
        assert forall|x: Seq<char>|
            #[trigger] failure_names(results, refs).contains(x) implies exists|j: int|
            0 <= j < refs.len() && #[trigger] refs[j].file_name@ == x by {
            let prefix = failure_names(results.drop_last(), refs);
            let idx = choose|idx: int|
                0 <= idx < failure_names(results, refs).len() && failure_names(results, refs)[idx]
                    == x;
            if idx < prefix.len() {
                assert(prefix.contains(x));
            } else {
                assert(refs[results.len() - 1].file_name@ == x);
            }
        }
    }
}

/// Processes one device: extracts each referenced algorithm from the pack
/// source and merges the resulting record into the registry. An extraction
/// or read failure omits only that algorithm — the device continues — and
/// is reported by file name, in reference order, in the returned list. For
/// preloaded members each reference's outcome is fixed exactly; for an
/// archive, every success is the decoding of the named member's contents.
pub fn process_device(
    device: &DeviceInfo,
    contents: &mut PackContents,
    families: &mut Vec<ChipFamily>,
) -> (failed: Vec<String>)
    requires
        memories_bounded(device.memories@),
    ensures
        contents_preserved(*old(contents), *final(contents)),
        forall|x: Seq<char>|
            #[trigger] failed.deep_view().contains(x) ==> exists|j: int|
                0 <= j < device.algorithms@.len() && #[trigger] device.algorithms@[j].file_name@
                    == x,
        exists|algos: Seq<AlgorithmModel>|
            final(families).deep_view() == #[trigger] spec_add_device(
                old(families).deep_view(),
                device.name@,
                device.family@,
                spec_core_name(device.processor),
                spec_device_memory_map(device.memories@, algos),
                algos,
            ),
        exists|results: Seq<Option<AlgorithmModel>>|
            {
                &&& results.len() == device.algorithms@.len()
                &&& failed.deep_view() == failure_names(results, device.algorithms@)
                &&& ((*old(contents)) matches PackContents::Members(m) ==> (forall|j: int|
                    0 <= j < results.len() ==> #[trigger] results[j] == member_outcome(
                        m@,
                        device.algorithms@[j],
                    )))
                &&& ((*old(contents)) matches PackContents::Archive(a0) ==> (forall|j: int|
                    0 <= j < results.len() ==> (#[trigger] results[j] matches Some(mm)
                        ==> archive_data(a0).dom().contains(device.algorithms@[j].file_name@)
                        && spec_extract(
                        archive_data(a0)[device.algorithms@[j].file_name@],
                        device.algorithms@[j].file_name@,
                        device.algorithms@[j].is_default,
                    ) == Ok::<AlgorithmModel, ExtractionError>(mm))))
                &&& final(families).deep_view() == #[trigger] spec_add_device(
                    old(families).deep_view(),
                    device.name@,
                    device.family@,
                    spec_core_name(device.processor),
                    spec_device_memory_map(device.memories@, successes(results)),
                    successes(results),
                )
            },
{
    let ghost families0 = families.deep_view();
    let mut algos: Vec<FlashAlgorithm> = Vec::new();
    let mut failed: Vec<String> = Vec::new();
    let ghost mut results: Seq<Option<AlgorithmModel>> = Seq::empty();
    let n: usize = device.algorithms.len();
    let mut i: usize = 0;
    proof {
        assert(contents_preserved(*contents, *contents));
        assert(algos.deep_view() =~= successes(results));
        assert(failed.deep_view() =~= failure_names(results, device.algorithms@));
    }
    while i < n
        invariant
            n == device.algorithms@.len(),
            i <= n,
            results.len() == i as int,
            families.deep_view() == families0,
            memories_bounded(device.memories@),
            contents_preserved(*old(contents), *contents),
            algos.deep_view() == successes(results),
            failed.deep_view() == failure_names(results, device.algorithms@),
            (*old(contents)) matches PackContents::Members(m) ==> (forall|j: int|
                0 <= j < i ==> #[trigger] results[j] == member_outcome(
                    m@,
                    device.algorithms@[j],
                )),
            (*old(contents)) matches PackContents::Archive(a0) ==> (forall|j: int|
                0 <= j < i ==> (#[trigger] results[j] matches Some(mm) ==> archive_data(
                    a0,
                ).dom().contains(device.algorithms@[j].file_name@) && spec_extract(
                    archive_data(a0)[device.algorithms@[j].file_name@],
                    device.algorithms@[j].file_name@,
                    device.algorithms@[j].is_default,
                ) == Ok::<AlgorithmModel, ExtractionError>(mm))),
        decreases n - i,
    {
        let file_name = device.algorithms[i].file_name.clone();
        let is_default = device.algorithms[i].is_default;
        let ghost fname = file_name@;
        let ghost algos_before = algos.deep_view();
        let ghost failed_before = failed.deep_view();
        let ghost results_before = results;
        let ghost cur = *contents;
        let ghost mut outcome: Option<AlgorithmModel> = None;
        proof {
            assert(fname == device.algorithms@[i as int].file_name@);
        }
        match read_member(contents, file_name.as_str()) {
            Ok(bytes) => {
                if (bytes.len() as u64) <= 0xFFFF_FFFFu64 {
                    match extract_flash_algo(bytes.as_slice(), file_name.as_str(), is_default) {
                        Ok(a) => {
                            proof {
                                outcome = Some(a@);
                                assert((*old(contents)) matches PackContents::Members(m)
                                    ==> outcome == member_outcome(
                                    m@,
                                    device.algorithms@[i as int],
                                ));
                                assert((*old(contents)) matches PackContents::Archive(a0) ==> (
                                outcome matches Some(mm) ==> archive_data(a0).dom().contains(fname)
                                    && spec_extract(
                                    archive_data(a0)[fname],
                                    fname,
                                    is_default,
                                ) == Ok::<AlgorithmModel, ExtractionError>(mm)));
                            }
                            algos.push(a);
                            proof {
                                assert(algos.deep_view() =~= algos_before.push(a@));
                            }
                        },
                        Err(_) => {
                            proof {
                                assert((*old(contents)) matches PackContents::Members(m)
                                    ==> outcome == member_outcome(
                                    m@,
                                    device.algorithms@[i as int],
                                ));
                            }
                            failed.push(file_name);
                            proof {
                                assert(failed.deep_view() =~= failed_before.push(fname));
                            }
                        },
                    }
                } else {
                    proof {
                        assert((*old(contents)) matches PackContents::Members(m) ==> outcome
                            == member_outcome(m@, device.algorithms@[i as int]));
                    }
                    failed.push(file_name);
                    proof {
                        assert(failed.deep_view() =~= failed_before.push(fname));
                    }
                }
            },
            Err(_) => {
                proof {
                    assert((*old(contents)) matches PackContents::Members(m) ==> outcome
                        == member_outcome(m@, device.algorithms@[i as int]));
                }
                failed.push(file_name);
                proof {
                    assert(failed.deep_view() =~= failed_before.push(fname));
                }
            },
        }
        proof {
            results = results_before.push(outcome);
            assert(results.drop_last() =~= results_before);
            assert(results.last() == outcome);
            assert(algos.deep_view() =~= successes(results));
            assert(failed.deep_view() =~= failure_names(results, device.algorithms@));
        }
        i = i + 1;
    }
    merge_device(device, algos, families);
    proof {
        assert(algos.deep_view() == successes(results));
        lemma_failure_names_sound(results, device.algorithms@);
    }
    failed
}

/// Processes one parsed pack: its devices in name-sorted order, each merged
/// into the registry. Every device's family is present afterwards, and the
/// registry's family names stay unique.
pub fn process_pack(
    devices: Vec<DeviceInfo>,
    contents: &mut PackContents,
    families: &mut Vec<ChipFamily>,
) -> (failed: Vec<String>)
    requires
        forall|i: int|
            0 <= i < devices@.len() ==> memories_bounded(#[trigger] devices@[i].memories@),
        registry_wf(old(families).deep_view()),
    ensures
        registry_wf(final(families).deep_view()),
        forall|i: int|
            0 <= i < devices@.len() ==> family_named(
                final(families).deep_view(),
                #[trigger] devices@[i].family@,
            ),
        forall|n: Seq<char>|
            family_named(old(families).deep_view(), n) ==> family_named(
                final(families).deep_view(),
                n,
            ),
        pack_step(old(families).deep_view(), devices@, final(families).deep_view()),
        contents_preserved(*old(contents), *final(contents)),
        forall|x: Seq<char>|
            #[trigger] failed.deep_view().contains(x) ==> exists|i: int, j: int|
                0 <= i < devices@.len() && 0 <= j < devices@[i].algorithms@.len()
                    && #[trigger] devices@[i].algorithms@[j].file_name@ == x,
{
    let ghost families0 = families.deep_view();
    let ghost devices0 = devices@;
    let sorted = sort_devices_by_name(devices);
    proof {
        devices0.to_multiset_ensures();
        sorted@.to_multiset_ensures();
        assert forall|i: int| 0 <= i < sorted@.len() implies memories_bounded(
            #[trigger] sorted@[i].memories@,
        ) by {
            assert(sorted@.contains(sorted@[i]));
            assert(sorted@.to_multiset().count(sorted@[i]) > 0);
            assert(devices0.contains(sorted@[i]));
            let j = choose|j: int| 0 <= j < devices0.len() && devices0[j] == sorted@[i];
            assert(memories_bounded(devices0[j].memories@));
        }
    }
    let mut failed: Vec<String> = Vec::new();
    let n: usize = sorted.len();
    let mut k: usize = 0;
    let ghost mut algoss: Seq<Seq<AlgorithmModel>> = Seq::empty();
    proof {
        assert(sorted@.take(0) =~= Seq::<DeviceInfo>::empty());
        assert(contents_preserved(*contents, *contents));
    }
    while k < n
        invariant
            n == sorted@.len(),
            k <= n,
            algoss.len() == k as int,
            contents_preserved(*old(contents), *contents),
            families.deep_view() == spec_fold_devices(families0, sorted@.take(k as int), algoss),
            registry_wf(families.deep_view()),
            forall|i: int|
                0 <= i < sorted@.len() ==> memories_bounded(#[trigger] sorted@[i].memories@),
            forall|j: int|
                0 <= j < k ==> family_named(families.deep_view(), #[trigger] sorted@[j].family@),
            forall|fname: Seq<char>|
                family_named(families0, fname) ==> family_named(families.deep_view(), fname),
            forall|x: Seq<char>|
                #[trigger] failed.deep_view().contains(x) ==> exists|i: int, j: int|
                    0 <= i < sorted@.len() && 0 <= j < sorted@[i].algorithms@.len()
                        && #[trigger] sorted@[i].algorithms@[j].file_name@ == x,
        decreases n - k,
    {
        let ghost before = families.deep_view();
        let ghost failed_before = failed.deep_view();
        let dev_failed = process_device(&sorted[k], contents, families);
        proof {
            let algos = choose|algos: Seq<AlgorithmModel>|
                families.deep_view() == #[trigger] spec_add_device(
                    before,
                    sorted@[k as int].name@,
                    sorted@[k as int].family@,
                    spec_core_name(sorted@[k as int].processor),
                    spec_device_memory_map(sorted@[k as int].memories@, algos),
                    algos,
                );
            lemma_add_device_registry(
                before,
                sorted@[k as int].name@,
                sorted@[k as int].family@,
                spec_core_name(sorted@[k as int].processor),
                spec_device_memory_map(sorted@[k as int].memories@, algos),
                algos,
            );
            lemma_fold_devices_snoc(
                families0,
                sorted@.take(k as int),
                algoss,
                sorted@[k as int],
                algos,
            );
            algoss = algoss.push(algos);
            assert(sorted@.take(k as int).push(sorted@[k as int]) =~= sorted@.take(k + 1 as int));
        }
        let mut dev_failed = dev_failed;
        let ghost dev_failed0 = dev_failed.deep_view();
        failed.append(&mut dev_failed);
        proof {
            assert(failed.deep_view() =~= failed_before + dev_failed0);
            assert forall|x: Seq<char>| #[trigger] failed.deep_view().contains(x) implies exists|
                i: int,
                j: int,
            |
                0 <= i < sorted@.len() && 0 <= j < sorted@[i].algorithms@.len()
                    && #[trigger] sorted@[i].algorithms@[j].file_name@ == x by {
                let idx = choose|idx: int|
                    0 <= idx < failed.deep_view().len() && failed.deep_view()[idx] == x;
                if idx < failed_before.len() {
                    assert(failed_before.contains(x));
                } else {
                    assert(dev_failed0.contains(x));
                    let j = choose|j: int|
                        0 <= j < sorted@[k as int].algorithms@.len()
                            && #[trigger] sorted@[k as int].algorithms@[j].file_name@ == x;
                    assert(sorted@[k as int].algorithms@[j].file_name@ == x);
                }
            }
        }
        k = k + 1;
    }
    proof {
        devices0.to_multiset_ensures();
        sorted@.to_multiset_ensures();
        assert forall|i: int| 0 <= i < devices0.len() implies family_named(
            families.deep_view(),
            #[trigger] devices0[i].family@,
        ) by {
            assert(devices0.contains(devices0[i]));
            assert(devices0.to_multiset().count(devices0[i]) > 0);
            assert(sorted@.to_multiset().count(devices0[i]) > 0);
            assert(sorted@.contains(devices0[i]));
            let j = choose|j: int| 0 <= j < sorted@.len() && sorted@[j] == devices0[i];
            assert(family_named(families.deep_view(), sorted@[j].family@));
        }
        assert(sorted@.take(n as int) =~= sorted@);
        assert(families.deep_view() == spec_fold_devices(families0, sorted@, algoss));
        assert(pack_step(families0, devices0, families.deep_view()));
        assert forall|x: Seq<char>| #[trigger] failed.deep_view().contains(x) implies exists|
            i: int,
            j: int,
        |
            0 <= i < devices0.len() && 0 <= j < devices0[i].algorithms@.len()
                && #[trigger] devices0[i].algorithms@[j].file_name@ == x by {
            let (si, sj) = choose|si: int, sj: int|
                0 <= si < sorted@.len() && 0 <= sj < sorted@[si].algorithms@.len()
                    && #[trigger] sorted@[si].algorithms@[sj].file_name@ == x;
            assert(sorted@.contains(sorted@[si]));
            assert(sorted@.to_multiset().count(sorted@[si]) > 0);
            assert(devices0.to_multiset().count(sorted@[si]) > 0);
            assert(devices0.contains(sorted@[si]));
            let di = choose|di: int| 0 <= di < devices0.len() && devices0[di] == sorted@[si];
            assert(devices0[di].algorithms@[sj].file_name@ == x);
        }
    }
    failed
}

/// One pack of a batch, as the fetcher hands it over: parsed devices with
/// the pack's contents, or the failure that prevented them, under the
/// pack's identifier.
pub enum PackInput {
    Loaded(Vec<DeviceInfo>, PackContents),
    Failed(String),
}

/// What became of one pack of a batch.
#[derive(Debug)]
pub enum PackOutcome {
    Processed,
    Skipped(String),
}

/// Every device list of a loaded pack fits the 32-bit address space.
pub open spec fn batch_bounded(packs: Seq<PackInput>) -> bool {
    forall|i: int|
        0 <= i < packs.len() ==> match #[trigger] packs[i] {
            PackInput::Loaded(ds, _) => forall|j: int|
                0 <= j < ds@.len() ==> memories_bounded(#[trigger] ds@[j].memories@),
            PackInput::Failed(_) => true,
        }
}

/// One pack input and its outcome correspond: a loaded pack was processed, a
/// failed pack was skipped under its own identifier.
pub open spec fn outcome_matches(p: PackInput, o: PackOutcome) -> bool {
    match (p, o) {
        (PackInput::Loaded(_, _), PackOutcome::Processed) => true,
        (PackInput::Failed(s), PackOutcome::Skipped(t)) => t == s,
        _ => false,
    }
}

/// The registry change a batch makes, pack by pack: a failed pack changes
/// nothing, and a loaded pack's change is exactly one pack step over its
/// devices.
pub open spec fn batch_effect(
    packs: Seq<PackInput>,
    before: Seq<FamilyModel>,
    after: Seq<FamilyModel>,
) -> bool
    decreases packs.len(),
{
    if packs.len() == 0 {
        after == before
    } else {
        match packs[0] {
            PackInput::Failed(_) => batch_effect(packs.skip(1), before, after),
            PackInput::Loaded(ds, _) => exists|mid: Seq<FamilyModel>|
                #[trigger] pack_step(before, ds@, mid) && batch_effect(packs.skip(1), mid, after),
        }
    }
}

/// Extending a batch by one pack at the end appends that pack's step to the
/// batch's effect.
pub proof fn lemma_batch_effect_snoc(
    packs: Seq<PackInput>,
    p: PackInput,
    before: Seq<FamilyModel>,
    mid: Seq<FamilyModel>,
    after: Seq<FamilyModel>,
)
    requires
        batch_effect(packs, before, mid),
        match p {
            PackInput::Failed(_) => after == mid,
            PackInput::Loaded(ds, _) => pack_step(mid, ds@, after),
        },
    ensures
        batch_effect(packs.push(p), before, after),
    decreases packs.len(),
{
    reveal_with_fuel(batch_effect, 3);
    if packs.len() == 0 {
        assert(packs.push(p)[0] == p);
        assert(packs.push(p).skip(1) =~= Seq::<PackInput>::empty());
        match p {
            PackInput::Failed(_) => {},
            PackInput::Loaded(ds, _) => {
                assert(pack_step(before, ds@, after));
                assert(batch_effect(Seq::<PackInput>::empty(), after, after));
            },
        }
    } else {
        assert(packs.push(p)[0] == packs[0]);
        assert(packs.push(p).skip(1) =~= packs.skip(1).push(p));
        match packs[0] {
            PackInput::Failed(_) => {
                lemma_batch_effect_snoc(packs.skip(1), p, before, mid, after);
            },
            PackInput::Loaded(ds, _) => {
                let m1 = choose|m1: Seq<FamilyModel>|
                    #[trigger] pack_step(before, ds@, m1) && batch_effect(packs.skip(1), m1, mid);
                lemma_batch_effect_snoc(packs.skip(1), p, m1, mid, after);
            },
        }
    }
}

/// Processes a batch of packs in order. A pack whose fetch failed
/// contributes nothing to the registry and is reported, under its
/// identifier, in the outcome list; every other pack is processed, so one
/// bad pack never aborts the batch.
pub fn run_batch(packs: Vec<PackInput>, families: &mut Vec<ChipFamily>) -> (outcomes: Vec<
    PackOutcome,
>)
    requires
        batch_bounded(packs@),
        registry_wf(old(families).deep_view()),
    ensures
        outcomes@.len() == packs@.len(),
        registry_wf(final(families).deep_view()),
        forall|i: int|
            0 <= i < packs@.len() ==> outcome_matches(#[trigger] packs@[i], outcomes@[i]),
        forall|i: int|
            0 <= i < packs@.len() ==> match #[trigger] packs@[i] {
                PackInput::Loaded(ds, _) => forall|j: int|
                    0 <= j < ds@.len() ==> family_named(
                        final(families).deep_view(),
                        #[trigger] ds@[j].family@,
                    ),
                PackInput::Failed(_) => true,
            },
        batch_effect(packs@, old(families).deep_view(), final(families).deep_view()),
{
    let ghost packs0 = packs@;
    let ghost families0 = families.deep_view();
    let mut rest = packs;
    let mut outcomes: Vec<PackOutcome> = Vec::new();
    proof {
        assert(rest@ =~= packs0.skip(0));
        assert(packs0.take(0) =~= Seq::<PackInput>::empty());
        assert(batch_effect(Seq::<PackInput>::empty(), families0, families0));
    }
    while rest.len() > 0
        invariant
            batch_bounded(packs0),
            registry_wf(families.deep_view()),
            outcomes@.len() + rest@.len() == packs0.len(),
            rest@ =~= packs0.skip(outcomes@.len() as int),
            forall|i: int|
                0 <= i < outcomes@.len() ==> outcome_matches(
                    #[trigger] packs0[i],
                    outcomes@[i],
                ),
            forall|i: int|
                0 <= i < outcomes@.len() ==> match #[trigger] packs0[i] {
                    PackInput::Loaded(ds, _) => forall|j: int|
                        0 <= j < ds@.len() ==> family_named(
                            families.deep_view(),
                            #[trigger] ds@[j].family@,
                        ),
                    PackInput::Failed(_) => true,
                },
            batch_effect(packs0.take(outcomes@.len() as int), families0, families.deep_view()),
        decreases rest@.len(),
    {
        let ghost idx = outcomes@.len() as int;
        let ghost step_before = families.deep_view();
        let p = rest.remove(0);
        let ghost p0 = p;
        proof {
            assert(p0 == packs0[idx]);
            assert(rest@ =~= packs0.skip(idx + 1));
        }
        match p {
            PackInput::Loaded(devices, contents) => {
                let mut contents = contents;
                let _pack_failed = process_pack(devices, &mut contents, families);
                outcomes.push(PackOutcome::Processed);
            },
            PackInput::Failed(reason) => {
                outcomes.push(PackOutcome::Skipped(reason));
            },
        }
        proof {
            lemma_batch_effect_snoc(
                packs0.take(idx),
                p0,
                families0,
                step_before,
                families.deep_view(),
            );
            assert(packs0.take(idx).push(p0) =~= packs0.take(idx + 1));
        }
    }
    proof {
        assert(packs0.take(packs0.len() as int) =~= packs0);
    }
    outcomes
}

/// Copies a byte vector.
fn copy_bytes(v: &Vec<u8>) -> (r: Vec<u8>)
    ensures
        r@ == v@,
{
    let mut out: Vec<u8> = Vec::new();
    let n: usize = v.len();
    let mut i: usize = 0;
    while i < n
        invariant
            n == v@.len(),
            i <= n,
            out@ == v@.take(i as int),
        decreases n - i,
    {
        out.push(v[i]);
        proof {
            assert(out@ =~= v@.take(i + 1 as int));
        }
        i = i + 1;
    }
    proof {
        assert(out@ =~= v@);
    }
    out
}

} // verus!
