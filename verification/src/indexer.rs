//! One full reindex run: purge the store, assemble the fresh
//! identifier-to-payload mapping from the scanned files, invalidate the
//! derived data cache, and install the mapping in one bulk operation.
//!
//! The filesystem walk and the metadata extraction are I/O and happen in the
//! host application; a run receives their outcome as one `RootScan` per
//! configured root and is verified for every such outcome.

use vstd::prelude::*;

use crate::fingerprint::id_spec;
use crate::model::RootScan;
use crate::model::ScannedFile;
use crate::model::build_resource;
use crate::payload::encode_resource;
use crate::payload::payload_of;
use crate::store::ResourceStore;
use crate::store::entries_map;
use crate::store::lemma_entries_map_push;

verus! {

broadcast use vstd::set::group_set_axioms, vstd::map::group_map_axioms;

/// Every file a scan discovered, roots in order.
pub open spec fn scan_files(scans: Seq<RootScan>) -> Seq<ScannedFile>
    decreases scans.len(),
{
    if scans.len() == 0 {
        Seq::empty()
    } else {
        scan_files(scans.drop_last()) + scans.last().files@
    }
}

/// The payload one scanned file is stored under.
pub open spec fn payload_spec(f: ScannedFile) -> Seq<char> {
    payload_of(id_spec(f.path@), f.path@, f.captured_at)
}

/// The mapping a run assembles: every file keyed by its identifier, files
/// taken in scan order, so of two files with the same identifier the later
/// one wins.
pub open spec fn assembled(files: Seq<ScannedFile>) -> Map<Seq<char>, Seq<char>>
    decreases files.len(),
{
    if files.len() == 0 {
        Map::empty()
    } else {
        assembled(files.drop_last()).insert(
            id_spec(files.last().path@),
            payload_spec(files.last()),
        )
    }
}

/// What one completed run installs for a given scan outcome.
pub open spec fn run_result(scans: Seq<RootScan>) -> Map<Seq<char>, Seq<char>> {
    assembled(scan_files(scans))
}

/// The identifiers of a sequence of scanned files.
pub open spec fn file_ids(files: Seq<ScannedFile>) -> Set<Seq<char>> {
    Set::new(|k: Seq<char>| exists|i: int| 0 <= i < files.len() && k == id_spec(files[i].path@))
}

/// Builds the identifier-to-payload rows for a scan outcome, in scan order.
pub fn assemble_entries(scans: &Vec<RootScan>) -> (entries: Vec<(String, String)>)
    ensures
        entries_map(entries@) == run_result(scans@),
        entries@.len() == scan_files(scans@).len(),
        forall|k: int|
            0 <= k < entries@.len() ==> entries@[k].0@ == id_spec(scan_files(scans@)[k].path@)
                && entries@[k].1@ == payload_spec(scan_files(scans@)[k]),
{
    let mut entries: Vec<(String, String)> = Vec::new();
    let mut r: usize = 0;
    while r < scans.len()
        invariant
            r <= scans@.len(),
            entries_map(entries@) == assembled(scan_files(scans@.take(r as int))),
            entries@.len() == scan_files(scans@.take(r as int)).len(),
            forall|k: int|
                0 <= k < entries@.len() ==> entries@[k].0@ == id_spec(
                    scan_files(scans@.take(r as int))[k].path@,
                ) && entries@[k].1@ == payload_spec(scan_files(scans@.take(r as int))[k]),
        decreases scans@.len() - r,
    {
        let files = &scans[r].files;
        let mut f: usize = 0;
        proof {
            assert(scan_files(scans@.take(r as int)) + files@.take(0) =~= scan_files(
                scans@.take(r as int),
            ));
        }
        while f < files.len()
            invariant
                f <= files@.len(),
                r < scans@.len(),
                files@ == scans@[r as int].files@,
                entries_map(entries@) == assembled(
                    scan_files(scans@.take(r as int)) + files@.take(f as int),
                ),
                entries@.len() == (scan_files(scans@.take(r as int)) + files@.take(
                    f as int,
                )).len(),
                forall|k: int|
                    0 <= k < entries@.len() ==> entries@[k].0@ == id_spec(
                        (scan_files(scans@.take(r as int)) + files@.take(f as int))[k].path@,
                    ) && entries@[k].1@ == payload_spec(
                        (scan_files(scans@.take(r as int)) + files@.take(f as int))[k],
                    ),
            decreases files@.len() - f,
        {
            let file = &files[f];
            let res = build_resource(file);
            let payload = encode_resource(&res);
            proof {
                lemma_entries_map_push(entries@, (res.id, payload));
                let prefix = scan_files(scans@.take(r as int)) + files@.take(f as int);
                let prefix1 = scan_files(scans@.take(r as int)) + files@.take(f + 1 as int);
                assert(prefix1.drop_last() =~= prefix);
                assert(prefix1.last() == files@[f as int]);
                assert(assembled(prefix1) == assembled(prefix).insert(
                    id_spec(files@[f as int].path@),
                    payload_spec(files@[f as int]),
                ));
                assert(forall|k: int| 0 <= k < prefix.len() ==> prefix1[k] == prefix[k]);
            }
            entries.push((res.id, payload));
            f += 1;
        }
        proof {
            assert(files@.take(files@.len() as int) =~= files@);
            assert(scans@.take(r + 1 as int).drop_last() =~= scans@.take(r as int));
            assert(scans@.take(r + 1 as int).last() == scans@[r as int]);
            assert(scan_files(scans@.take(r + 1 as int)) == scan_files(scans@.take(r as int))
                + scans@[r as int].files@);
        }
        r += 1;
    }
    proof {
        assert(scans@.take(scans@.len() as int) =~= scans@);
    }
    entries
}

/// One full reindex run against the given scan outcome.
///
/// The store is purged first, so an observer can see the "index in
/// progress" window; the derived data cache is invalidated before the new
/// mapping is installed in one bulk operation. Whatever the store held
/// before, it holds exactly the freshly assembled mapping afterwards.
pub fn index_resources(scans: &Vec<RootScan>, store: &mut ResourceStore)
    requires
        old(store).wf(),
    ensures
        final(store).wf(),
        final(store).resource_map() == run_result(scans@),
        final(store).cache_map() == Map::<Seq<char>, Seq<char>>::empty(),
{
    store.clear_resources();
    let entries = assemble_entries(scans);
    store.clear_data_cache();
    store.add_resources(entries);
    proof {
        assert(Map::<Seq<char>, Seq<char>>::empty().union_prefer_right(run_result(scans@))
            =~= run_result(scans@));
    }
}

/// Law (idempotence of a run): a run's outcome is a function of the scan
/// outcome alone, so two runs in immediate succession against an unchanged
/// filesystem leave the same resource entries — the same key set and the
/// same payloads — whatever the store held before either run.
pub proof fn lemma_run_idempotent(
    m1: Map<Seq<char>, Seq<char>>,
    m2: Map<Seq<char>, Seq<char>>,
    scans: Seq<RootScan>,
)
    requires
        m1 == run_result(scans),
        m2 == run_result(scans),
    ensures
        m1 == m2,
        m1.dom() == m2.dom(),
{
}

/// The keys of the assembled mapping are exactly the identifiers of the
/// scanned files.
pub proof fn lemma_assembled_dom(files: Seq<ScannedFile>)
    ensures
        assembled(files).dom() =~= file_ids(files),
    decreases files.len(),
{
    if files.len() == 0 {
        assert(assembled(files).dom() =~= file_ids(files));
    } else {
        let dl = files.drop_last();
        let last_id = id_spec(files.last().path@);
        lemma_assembled_dom(dl);
        assert(assembled(files).dom() =~= assembled(dl).dom().insert(last_id));
        assert forall|k: Seq<char>| file_ids(files).contains(k) implies file_ids(dl).insert(
            last_id,
        ).contains(k) by {
            let i = choose|i: int| 0 <= i < files.len() && k == id_spec(files[i].path@);
            if i < files.len() - 1 {
                assert(dl[i] == files[i]);
                assert(file_ids(dl).contains(k));
            }
        }
        assert forall|k: Seq<char>| file_ids(dl).insert(last_id).contains(k) implies file_ids(
            files,
        ).contains(k) by {
            if file_ids(dl).contains(k) {
                let i = choose|i: int| 0 <= i < dl.len() && k == id_spec(dl[i].path@);
                assert(files[i] == dl[i]);
                assert(0 <= i < files.len() && k == id_spec(files[i].path@));
            } else {
                let i = files.len() - 1;
                assert(0 <= i < files.len() && k == id_spec(files[i].path@));
            }
        }
        assert(file_ids(files) =~= file_ids(dl).insert(last_id));
    }
}

/// Law (purge before populate): a completed run leaves the store keyed by
/// exactly the identifiers of the files its own scan discovered. Entries of
/// earlier runs never survive into the completed state; mixing is possible
/// only transiently, while a run is still in flight.
pub proof fn lemma_purge_before_populate(scans: Seq<RootScan>)
    ensures
        run_result(scans).dom() =~= file_ids(scan_files(scans)),
{
    lemma_assembled_dom(scan_files(scans));
}

/// Concatenating root lists concatenates their scanned files.
proof fn lemma_scan_files_concat(a: Seq<RootScan>, b: Seq<RootScan>)
    ensures
        scan_files(a + b) == scan_files(a) + scan_files(b),
    decreases b.len(),
{
    if b.len() == 0 {
        assert(a + b =~= a);
        assert(scan_files(a) + scan_files(b) =~= scan_files(a));
    } else {
        lemma_scan_files_concat(a, b.drop_last());
        assert((a + b).drop_last() =~= a + b.drop_last());
        assert((a + b).last() == b.last());
        assert((scan_files(a) + scan_files(b.drop_last())) + b.last().files@ =~= scan_files(a) + (
        scan_files(b.drop_last()) + b.last().files@));
    }
}

/// Law (per-root failure isolation): a configured root that contributed no
/// files — it does not exist or cannot be read — changes nothing: the run's
/// outcome is exactly what the remaining roots alone produce.
pub proof fn lemma_unavailable_root_isolated(scans: Seq<RootScan>, i: int)
    requires
        0 <= i < scans.len(),
        scans[i].files@.len() == 0,
    ensures
        run_result(scans) == run_result(scans.remove(i)),
{
    let left = scans.take(i);
    let mid = seq![scans[i]];
    let right = scans.skip(i + 1);
    assert(scans =~= left + mid + right);
    lemma_scan_files_concat(left + mid, right);
    lemma_scan_files_concat(left, mid);
    assert(mid.len() == 1);
    assert(mid.last() == scans[i]);
    assert(mid.drop_last() =~= Seq::<RootScan>::empty());
    assert(scan_files(mid) == scan_files(mid.drop_last()) + mid.last().files@);
    assert(scan_files(mid) =~= Seq::<ScannedFile>::empty());
    lemma_scan_files_concat(left, right);
    assert(scans.remove(i) =~= left + right);
    assert(scan_files(left + mid) =~= scan_files(left));
    assert(scan_files(scans) =~= scan_files(scans.remove(i)));
}

/// Law (per-resource failure isolation): every scanned file is indexed. A
/// file whose metadata extraction failed still contributes an entry keyed by
/// its path-derived identifier, and it never prevents any other file of the
/// same run from being indexed.
pub proof fn lemma_augment_failure_isolated(files: Seq<ScannedFile>, i: int)
    requires
        0 <= i < files.len(),
    ensures
        assembled(files).contains_key(id_spec(files[i].path@)),
{
    lemma_assembled_dom(files);
    assert(0 <= i < files.len() && id_spec(files[i].path@) == id_spec(files[i].path@));
    assert(file_ids(files).contains(id_spec(files[i].path@)));
}

/// Law (one entry per file): files with pairwise-distinct paths have
/// pairwise-distinct identifiers, so a scan of n such files installs exactly
/// n entries — none is lost to a collision.
pub proof fn lemma_distinct_paths_distinct_entries(files: Seq<ScannedFile>)
    requires
        forall|i: int, j: int| 0 <= i < j < files.len() ==> files[i].path@ != files[j].path@,
    ensures
        assembled(files).dom().finite(),
        assembled(files).dom().len() == files.len(),
    decreases files.len(),
{
    if files.len() > 0 {
        let dl = files.drop_last();
        let last_id = id_spec(files.last().path@);
        lemma_distinct_paths_distinct_entries(dl);
        lemma_assembled_dom(dl);
        if assembled(dl).dom().contains(last_id) {
            let i = choose|i: int| 0 <= i < dl.len() && last_id == id_spec(dl[i].path@);
            crate::fingerprint::lemma_id_injective(files.last().path@, dl[i].path@);
            assert(files[i].path@ == files[files.len() - 1].path@);
            assert(false);
        }
        assert(assembled(files).dom() =~= assembled(dl).dom().insert(last_id));
    }
}

/// Law (interleaved runs): two concurrent runs that each purged the store
/// and then installed their mappings in turn leave the union of the two
/// mappings, the later installation winning per key. Every key of the final
/// state is explained by one of the two runs, and no key of either run
/// disappears.
pub proof fn lemma_interleaved_runs(m1: Map<Seq<char>, Seq<char>>, m2: Map<Seq<char>, Seq<char>>)
    ensures
        Map::<Seq<char>, Seq<char>>::empty().union_prefer_right(m1).union_prefer_right(m2)
            == m1.union_prefer_right(m2),
        forall|k: Seq<char>|
            m1.union_prefer_right(m2).contains_key(k) <==> (m1.contains_key(k)
                || m2.contains_key(k)),
        forall|k: Seq<char>|
            m2.contains_key(k) ==> m1.union_prefer_right(m2)[k] == m2[k],
        forall|k: Seq<char>|
            (!m2.contains_key(k) && m1.contains_key(k)) ==> m1.union_prefer_right(m2)[k] == m1[k],
{
    assert(Map::<Seq<char>, Seq<char>>::empty().union_prefer_right(m1) =~= m1);
}

} // verus!
