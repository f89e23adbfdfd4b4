//! Comparison of a source mod set with a destination server, and the plans
//! that resolve the differences.

use crate::models::{
    infos_view, records_view, DiscrepancyKind, DiscrepancyRecord, DiscrepancyView, ModInfo,
    ModInfoView, Side,
};
use crate::plan::record_wf;
use crate::text::{
    chars_of, is_stable_sort_of, lemma_stable_sort_complete, lemma_stable_sort_member, lemma_stable_sort_sorted,
    spec_lowercase, stable_order, text_lt, to_lowercase,
};
use vstd::prelude::*;

verus! {

/// The destination mods of one project, in destination order.
pub open spec fn entries_for(dst: Seq<ModInfoView>, pid: Seq<char>) -> Seq<ModInfoView> {
    dst.filter(|e: ModInfoView| e.project_id == pid)
}

/// A destination jar holds the source mod: same file (SHA-512) or same
/// version as identified by a service.
pub open spec fn in_sync(e: ModInfoView, sm: ModInfoView) -> bool {
    e.local_mod.sha512 == sm.local_mod.sha512 || e.current_version.version_id
        == sm.current_version.version_id
}

/// The first of `entries` that holds the source mod.
pub open spec fn first_in_sync(entries: Seq<ModInfoView>, sm: ModInfoView) -> Option<ModInfoView>
    decreases entries.len(),
{
    if entries.len() == 0 {
        None
    } else if in_sync(entries[0], sm) {
        Some(entries[0])
    } else {
        first_in_sync(entries.drop_first(), sm)
    }
}

/// Name under which a stale duplicate jar is reported.
pub open spec fn duplicate_name(sm: ModInfoView, e: ModInfoView) -> Seq<char> {
    sm.project_name + " (duplicate: "@ + e.local_mod.filename + ")"@
}

/// A stale duplicate jar of a source project on the destination: to delete.
pub open spec fn duplicate_record(sm: ModInfoView, e: ModInfoView) -> DiscrepancyView {
    DiscrepancyView {
        project_id: sm.project_id,
        project_name: duplicate_name(sm, e),
        kind: DiscrepancyKind::ServerOnly,
        client_mod: None,
        server_mod: Some(e),
    }
}

/// The destination holds another version of a source project.
pub open spec fn mismatch_record(sm: ModInfoView, e: ModInfoView) -> DiscrepancyView {
    DiscrepancyView {
        project_id: sm.project_id,
        project_name: sm.project_name,
        kind: DiscrepancyKind::Mismatch,
        client_mod: Some(sm),
        server_mod: Some(e),
    }
}

/// A source project is absent from the destination.
pub open spec fn missing_record(sm: ModInfoView) -> DiscrepancyView {
    DiscrepancyView {
        project_id: sm.project_id,
        project_name: sm.project_name,
        kind: DiscrepancyKind::ClientOnly,
        client_mod: Some(sm),
        server_mod: None,
    }
}

/// A destination mod of a project that the source does not have.
pub open spec fn extra_record(e: ModInfoView) -> DiscrepancyView {
    DiscrepancyView {
        project_id: e.project_id,
        project_name: e.project_name,
        kind: DiscrepancyKind::ServerOnly,
        client_mod: None,
        server_mod: Some(e),
    }
}

/// Duplicate records for the destination entries other than the one kept.
pub open spec fn duplicates_except(
    sm: ModInfoView,
    entries: Seq<ModInfoView>,
    kept: Seq<char>,
) -> Seq<DiscrepancyView> {
    entries.filter(|e: ModInfoView| e.local_mod.filename != kept).map_values(
        |e: ModInfoView| duplicate_record(sm, e),
    )
}

/// What one source mod contributes: nothing for a client-only mod; for a
/// project present on the destination, a mismatch when no jar there holds
/// it, and a duplicate for every further jar; for an absent project, a
/// missing record unless its exact file is among the destination's
/// unidentified jars.
pub open spec fn records_for_source(
    sm: ModInfoView,
    dst: Seq<ModInfoView>,
    unknown: Seq<Seq<char>>,
) -> Seq<DiscrepancyView> {
    if sm.side == Side::ClientOnly {
        seq![]
    } else {
        let entries = entries_for(dst, sm.project_id);
        if entries.len() > 0 {
            match first_in_sync(entries, sm) {
                Some(m) => duplicates_except(sm, entries, m.local_mod.filename),
                None => seq![mismatch_record(sm, entries[0])] + entries.drop_first().map_values(
                    |e: ModInfoView| duplicate_record(sm, e),
                ),
            }
        } else if unknown.contains(sm.local_mod.sha512) {
            seq![]
        } else {
            seq![missing_record(sm)]
        }
    }
}

/// The records of all source mods, in source order.
pub open spec fn source_records(
    src: Seq<ModInfoView>,
    dst: Seq<ModInfoView>,
    unknown: Seq<Seq<char>>,
) -> Seq<DiscrepancyView>
    decreases src.len(),
{
    if src.len() == 0 {
        seq![]
    } else {
        source_records(src.drop_last(), dst, unknown) + records_for_source(
            src.last(),
            dst,
            unknown,
        )
    }
}

/// Entry `i` is the first destination mod of its project.
pub open spec fn is_first_of_project(dst: Seq<ModInfoView>, i: int) -> bool {
    forall|j: int| 0 <= j < i ==> dst[j].project_id != dst[i].project_id
}

/// Some mod of `s` belongs to project `pid`.
pub open spec fn has_project(s: Seq<ModInfoView>, pid: Seq<char>) -> bool {
    exists|k: int| 0 <= k < s.len() && s[k].project_id == pid
}

/// A mod that `skip_server_only` leaves out of the extras.
pub open spec fn skipped_extra(e: ModInfoView, skip_server_only: bool) -> bool {
    skip_server_only && e.side == Side::ServerOnly
}

/// Extra records of the project of destination entry `i`, listed once, at
/// the project's first entry.
pub open spec fn extra_group(
    src: Seq<ModInfoView>,
    dst: Seq<ModInfoView>,
    skip_server_only: bool,
    i: int,
) -> Seq<DiscrepancyView> {
    if is_first_of_project(dst, i) && !has_project(src, dst[i].project_id) {
        entries_for(dst, dst[i].project_id).filter(
            |e: ModInfoView| !skipped_extra(e, skip_server_only),
        ).map_values(|e: ModInfoView| extra_record(e))
    } else {
        seq![]
    }
}

/// Extra records of the projects first met among the first `n` destination entries.
pub open spec fn extra_records(
    src: Seq<ModInfoView>,
    dst: Seq<ModInfoView>,
    skip_server_only: bool,
    n: nat,
) -> Seq<DiscrepancyView>
    decreases n,
{
    if n == 0 {
        seq![]
    } else {
        extra_records(src, dst, skip_server_only, (n - 1) as nat) + extra_group(
            src,
            dst,
            skip_server_only,
            n - 1,
        )
    }
}

/// All differences before sorting: source records, then destination extras
/// project by project.
pub open spec fn spec_compare(
    src: Seq<ModInfoView>,
    dst: Seq<ModInfoView>,
    unknown: Seq<Seq<char>>,
    skip_server_only: bool,
) -> Seq<DiscrepancyView> {
    source_records(src, dst, unknown) + extra_records(src, dst, skip_server_only, dst.len())
}

/// Sort key of a record: its name in lower case.
pub open spec fn record_key(r: DiscrepancyView) -> Seq<char> {
    spec_lowercase(r.project_name)
}

/// Sort keys of records.
pub open spec fn record_keys(s: Seq<DiscrepancyView>) -> Seq<Seq<char>> {
    s.map_values(|r: DiscrepancyView| record_key(r))
}

/// The text views of a vector of strings.
pub open spec fn texts(v: Seq<String>) -> Seq<Seq<char>> {
    v.map_values(|s: String| s@)
}

/// No destination entry holds the source mod exactly when none is found.
pub proof fn lemma_first_in_sync_none(entries: Seq<ModInfoView>, sm: ModInfoView)
    ensures
        first_in_sync(entries, sm) is None <==> forall|k: int|
            0 <= k < entries.len() ==> !in_sync(#[trigger] entries[k], sm),
    decreases entries.len(),
{
    if entries.len() > 0 {
        lemma_first_in_sync_none(entries.drop_first(), sm);
        if !in_sync(entries[0], sm) {
            assert forall|k: int| 1 <= k < entries.len() implies #[trigger] entries[k] == entries.drop_first()[k - 1] by {}
            if (forall|k: int| 0 < k < entries.len() ==> !in_sync(#[trigger] entries[k], sm)) {
                assert forall|k: int| 0 <= k < entries.len() - 1 implies !in_sync(#[trigger] entries.drop_first()[k], sm) by {
                    assert(entries.drop_first()[k] == entries[k + 1]);
                }
            }
            if (forall|k: int| 0 <= k < entries.len() - 1 ==> !in_sync(#[trigger] entries.drop_first()[k], sm)) {
                assert forall|k: int| 0 <= k < entries.len() implies !in_sync(#[trigger] entries[k], sm) by {
                    if k > 0 {
                        assert(entries.drop_first()[k - 1] == entries[k]);
                    }
                }
            }
        }
    }
}

/// A found entry is one of the entries and holds the source mod.
pub proof fn lemma_first_in_sync_some(entries: Seq<ModInfoView>, sm: ModInfoView)
    requires
        first_in_sync(entries, sm) is Some,
    ensures
        entries.contains(first_in_sync(entries, sm).unwrap()),
        in_sync(first_in_sync(entries, sm).unwrap(), sm),
    decreases entries.len(),
{
    if !in_sync(entries[0], sm) {
        lemma_first_in_sync_some(entries.drop_first(), sm);
        let m = first_in_sync(entries, sm).unwrap();
        let k = choose|k: int| 0 <= k < entries.drop_first().len() && entries.drop_first()[k] == m;
        assert(entries[k + 1] == m);
    } else {
        assert(entries[0] == entries[0]);
    }
}

/// The entries of a project are destination mods of that project.
pub proof fn lemma_entries_for_member(dst: Seq<ModInfoView>, pid: Seq<char>, e: ModInfoView)
    requires
        entries_for(dst, pid).contains(e),
    ensures
        dst.contains(e),
        e.project_id == pid,
{
    let pred = |x: ModInfoView| x.project_id == pid;
    dst.lemma_filter_contains_rev(pred, e);
    let k = choose|k: int| 0 <= k < dst.filter(pred).len() && dst.filter(pred)[k] == e;
    dst.lemma_filter_pred(pred, k);
}

/// A record of the source part comes from one source mod.
pub proof fn lemma_source_member(
    src: Seq<ModInfoView>,
    dst: Seq<ModInfoView>,
    unknown: Seq<Seq<char>>,
    r: DiscrepancyView,
)
    requires
        source_records(src, dst, unknown).contains(r),
    ensures
        exists|i: int| 0 <= i < src.len() && records_for_source(src[i], dst, unknown).contains(r),
    decreases src.len(),
{
    let rest = source_records(src.drop_last(), dst, unknown);
    let last = records_for_source(src.last(), dst, unknown);
    let k = choose|k: int| 0 <= k < (rest + last).len() && (rest + last)[k] == r;
    if k < rest.len() {
        assert(rest[k] == r);
        lemma_source_member(src.drop_last(), dst, unknown, r);
        let i = choose|i: int| 0 <= i < src.len() - 1 && records_for_source(src.drop_last()[i], dst, unknown).contains(r);
        assert(src.drop_last()[i] == src[i]);
    } else {
        assert(last[k - rest.len()] == r);
        assert(records_for_source(src[src.len() - 1], dst, unknown).contains(r));
    }
}

/// A record of the extras part comes from one destination entry's group.
pub proof fn lemma_extra_member(
    src: Seq<ModInfoView>,
    dst: Seq<ModInfoView>,
    skip_server_only: bool,
    n: nat,
    r: DiscrepancyView,
)
    requires
        extra_records(src, dst, skip_server_only, n).contains(r),
    ensures
        exists|i: int| 0 <= i < n && extra_group(src, dst, skip_server_only, i).contains(r),
    decreases n,
{
    let rest = extra_records(src, dst, skip_server_only, (n - 1) as nat);
    let last = extra_group(src, dst, skip_server_only, n - 1);
    let k = choose|k: int| 0 <= k < (rest + last).len() && (rest + last)[k] == r;
    if k < rest.len() {
        assert(rest[k] == r);
        lemma_extra_member(src, dst, skip_server_only, (n - 1) as nat, r);
    } else {
        assert(last[k - rest.len()] == r);
    }
}

/// What a reported record can be: for a source mod that is not client-only,
/// a duplicate of one of its project's destination entries, a mismatch when
/// no entry holds it, or a missing record when its project is absent and its
/// file is not among the unidentified destination jars; or an extra for a
/// destination mod of a project the source lacks.
pub open spec fn record_shape(
    src: Seq<ModInfoView>,
    dst: Seq<ModInfoView>,
    unknown: Seq<Seq<char>>,
    skip_server_only: bool,
    r: DiscrepancyView,
) -> bool {
    ||| exists|i: int, e: ModInfoView|
        0 <= i < src.len() && src[i].side != Side::ClientOnly && dst.contains(e)
            && e.project_id == src[i].project_id && r == #[trigger] duplicate_record(src[i], e) && (
        (exists|m: ModInfoView|
            dst.contains(m) && m.project_id == src[i].project_id && in_sync(m, src[i])
                && e.local_mod.filename != m.local_mod.filename) || (forall|d: ModInfoView|
            dst.contains(d) && d.project_id == src[i].project_id ==> !in_sync(d, src[i])))
    ||| exists|i: int, e: ModInfoView|
        0 <= i < src.len() && src[i].side != Side::ClientOnly && dst.contains(e)
            && e.project_id == src[i].project_id && (forall|d: ModInfoView|
            dst.contains(d) && d.project_id == src[i].project_id ==> !in_sync(d, src[i]))
            && r == #[trigger] mismatch_record(src[i], e)
    ||| exists|i: int|
        0 <= i < src.len() && src[i].side != Side::ClientOnly && !unknown.contains(
            src[i].local_mod.sha512,
        ) && !has_project(dst, src[i].project_id) && r == #[trigger] missing_record(src[i])
    ||| exists|e: ModInfoView|
        dst.contains(e) && !has_project(src, e.project_id) && !skipped_extra(e, skip_server_only)
            && r == #[trigger] extra_record(e)
}

proof fn lemma_map_member<A, B>(s: Seq<A>, f: spec_fn(A) -> B, b: B) -> (a: A)
    requires
        s.map_values(f).contains(b),
    ensures
        s.contains(a),
        b == f(a),
{
    let k = choose|k: int| 0 <= k < s.map_values(f).len() && s.map_values(f)[k] == b;
    assert(s.contains(s[k]));
    s[k]
}

/// Every record of the comparison has one of the shapes of [`record_shape`].
pub proof fn lemma_record_shape(
    src: Seq<ModInfoView>,
    dst: Seq<ModInfoView>,
    unknown: Seq<Seq<char>>,
    skip_server_only: bool,
    r: DiscrepancyView,
)
    requires
        spec_compare(src, dst, unknown, skip_server_only).contains(r),
    ensures
        record_shape(src, dst, unknown, skip_server_only, r),
{
    let a = source_records(src, dst, unknown);
    let b = extra_records(src, dst, skip_server_only, dst.len());
    let k = choose|k: int| 0 <= k < (a + b).len() && (a + b)[k] == r;
    if k < a.len() {
        assert(a[k] == r);
        lemma_source_member(src, dst, unknown, r);
        let i = choose|i: int| 0 <= i < src.len() && records_for_source(src[i], dst, unknown).contains(r);
        let sm = src[i];
        let entries = entries_for(dst, sm.project_id);
        let idf = |x: ModInfoView| x.project_id == sm.project_id;
        if entries.len() > 0 {
            match first_in_sync(entries, sm) {
                Some(m) => {
                    let pred = |x: ModInfoView| x.local_mod.filename != m.local_mod.filename;
                    let e = lemma_map_member(entries.filter(pred), |x: ModInfoView| duplicate_record(sm, x), r);
                    entries.lemma_filter_contains_rev(pred, e);
                    let t = choose|t: int| 0 <= t < entries.filter(pred).len() && entries.filter(pred)[t] == e;
                    entries.lemma_filter_pred(pred, t);
                    lemma_entries_for_member(dst, sm.project_id, e);
                    lemma_first_in_sync_some(entries, sm);
                    lemma_entries_for_member(dst, sm.project_id, m);
                    assert(r == duplicate_record(src[i], e));
                },
                None => {
                    let rs = seq![mismatch_record(sm, entries[0])] + entries.drop_first().map_values(|x: ModInfoView| duplicate_record(sm, x));
                    let j = choose|j: int| 0 <= j < rs.len() && rs[j] == r;
                    if j == 0 {
                        assert(entries.contains(entries[0]));
                        lemma_entries_for_member(dst, sm.project_id, entries[0]);
                        lemma_first_in_sync_none(entries, sm);
                        assert forall|d: ModInfoView| dst.contains(d) && d.project_id == sm.project_id implies !in_sync(d, sm) by {
                            let q = choose|q: int| 0 <= q < dst.len() && dst[q] == d;
                            dst.lemma_filter_contains(idf, q);
                            let t = choose|t: int| 0 <= t < entries.len() && entries[t] == d;
                            assert(!in_sync(entries[t], sm));
                        }
                        assert(r == mismatch_record(src[i], entries[0]));
                    } else {
                        lemma_first_in_sync_none(entries, sm);
                        assert forall|d: ModInfoView| dst.contains(d) && d.project_id == sm.project_id implies !in_sync(d, sm) by {
                            let q = choose|q: int| 0 <= q < dst.len() && dst[q] == d;
                            dst.lemma_filter_contains(idf, q);
                            let t = choose|t: int| 0 <= t < entries.len() && entries[t] == d;
                            assert(!in_sync(entries[t], sm));
                        }
                        assert(entries.drop_first().map_values(|x: ModInfoView| duplicate_record(sm, x))[j - 1] == r);
                        let e = entries.drop_first()[j - 1];
                        assert(entries[j] == e);
                        assert(entries.contains(e));
                        lemma_entries_for_member(dst, sm.project_id, e);
                        assert(r == duplicate_record(src[i], e));
                    }
                },
            }
        } else {
            assert(r == missing_record(sm));
            if has_project(dst, sm.project_id) {
                let q = choose|q: int| 0 <= q < dst.len() && dst[q].project_id == sm.project_id;
                dst.lemma_filter_contains(idf, q);
            }
        }
    } else {
        assert(b[k - a.len()] == r);
        lemma_extra_member(src, dst, skip_server_only, dst.len(), r);
        let i = choose|i: int| 0 <= i < dst.len() && extra_group(src, dst, skip_server_only, i).contains(r);
        let pid = dst[i].project_id;
        let pred = |x: ModInfoView| !skipped_extra(x, skip_server_only);
        let e = lemma_map_member(entries_for(dst, pid).filter(pred), |x: ModInfoView| extra_record(x), r);
        entries_for(dst, pid).lemma_filter_contains_rev(pred, e);
        let t = choose|t: int| 0 <= t < entries_for(dst, pid).filter(pred).len() && entries_for(dst, pid).filter(pred)[t] == e;
        entries_for(dst, pid).lemma_filter_pred(pred, t);
        lemma_entries_for_member(dst, pid, e);
        assert(r == extra_record(e));
    }
}

/// Every record that `compare_mod_sets` reports is a record of the comparison.
pub proof fn lemma_compare_result_member(
    src: Seq<ModInfoView>,
    dst: Seq<ModInfoView>,
    unknown: Seq<Seq<char>>,
    skip_server_only: bool,
    result: Seq<DiscrepancyView>,
    k: int,
)
    requires
        is_stable_sort_of(
            spec_compare(src, dst, unknown, skip_server_only),
            record_keys(spec_compare(src, dst, unknown, skip_server_only)),
            result,
        ),
        0 <= k < result.len(),
    ensures
        spec_compare(src, dst, unknown, skip_server_only).contains(result[k]),
{
    lemma_stable_sort_member(
        spec_compare(src, dst, unknown, skip_server_only),
        record_keys(spec_compare(src, dst, unknown, skip_server_only)),
        result,
        k,
    );
}

/// The reported records come in order of their lower-case names.
pub proof fn law_compare_sorted(
    src: Seq<ModInfoView>,
    dst: Seq<ModInfoView>,
    unknown: Seq<Seq<char>>,
    skip_server_only: bool,
    result: Seq<DiscrepancyView>,
    i: int,
    j: int,
)
    requires
        is_stable_sort_of(
            spec_compare(src, dst, unknown, skip_server_only),
            record_keys(spec_compare(src, dst, unknown, skip_server_only)),
            result,
        ),
        0 <= i < j < result.len(),
    ensures
        !text_lt(record_key(result[j]), record_key(result[i])),
{
    let pre = spec_compare(src, dst, unknown, skip_server_only);
    lemma_stable_sort_sorted(pre, record_keys(pre), result, |r: DiscrepancyView| record_key(r), i, j);
}

/// Client-only mods are never pushed: no record carries a client-only source mod.
pub proof fn law_client_only_never_pushed(
    src: Seq<ModInfoView>,
    dst: Seq<ModInfoView>,
    unknown: Seq<Seq<char>>,
    skip_server_only: bool,
    r: DiscrepancyView,
)
    requires
        spec_compare(src, dst, unknown, skip_server_only).contains(r),
        r.client_mod is Some,
    ensures
        r.client_mod.unwrap().side != Side::ClientOnly,
{
    lemma_record_shape(src, dst, unknown, skip_server_only, r);
}

/// A source mod whose exact file lies unidentified on the destination is not missing.
pub proof fn law_unidentified_file_not_missing(
    src: Seq<ModInfoView>,
    dst: Seq<ModInfoView>,
    unknown: Seq<Seq<char>>,
    skip_server_only: bool,
    r: DiscrepancyView,
)
    requires
        spec_compare(src, dst, unknown, skip_server_only).contains(r),
        r.kind == DiscrepancyKind::ClientOnly,
    ensures
        r.client_mod is Some,
        !unknown.contains(r.client_mod.unwrap().local_mod.sha512),
        !has_project(dst, r.project_id),
{
    lemma_record_shape(src, dst, unknown, skip_server_only, r);
}

/// A mismatch is reported only when no destination jar of the project is
/// the same file or the same identified version: the same jar identified
/// through different services is no mismatch.
pub proof fn law_mismatch_only_without_matching_jar(
    src: Seq<ModInfoView>,
    dst: Seq<ModInfoView>,
    unknown: Seq<Seq<char>>,
    skip_server_only: bool,
    r: DiscrepancyView,
    d: ModInfoView,
)
    requires
        spec_compare(src, dst, unknown, skip_server_only).contains(r),
        r.kind == DiscrepancyKind::Mismatch,
        dst.contains(d),
        d.project_id == r.project_id,
    ensures
        r.client_mod is Some,
        d.local_mod.sha512 != r.client_mod.unwrap().local_mod.sha512,
        d.current_version.version_id != r.client_mod.unwrap().current_version.version_id,
{
    lemma_record_shape(src, dst, unknown, skip_server_only, r);
}

/// Every record carries the mods its kind needs, so it can be resolved.
pub proof fn law_records_wellformed(
    src: Seq<ModInfoView>,
    dst: Seq<ModInfoView>,
    unknown: Seq<Seq<char>>,
    skip_server_only: bool,
    r: DiscrepancyView,
)
    requires
        spec_compare(src, dst, unknown, skip_server_only).contains(r),
    ensures
        record_wf(r),
{
    lemma_record_shape(src, dst, unknown, skip_server_only, r);
}

/// Every record of one source mod is among the records of all source mods.
pub proof fn lemma_source_records_contains(
    src: Seq<ModInfoView>,
    dst: Seq<ModInfoView>,
    unknown: Seq<Seq<char>>,
    i: int,
    r: DiscrepancyView,
)
    requires
        0 <= i < src.len(),
        records_for_source(src[i], dst, unknown).contains(r),
    ensures
        source_records(src, dst, unknown).contains(r),
    decreases src.len(),
{
    let rest = source_records(src.drop_last(), dst, unknown);
    let last = records_for_source(src.last(), dst, unknown);
    if i == src.len() - 1 {
        let t = choose|t: int| 0 <= t < last.len() && last[t] == r;
        assert((rest + last)[rest.len() + t] == r);
    } else {
        assert(src.drop_last()[i] == src[i]);
        lemma_source_records_contains(src.drop_last(), dst, unknown, i, r);
        let t = choose|t: int| 0 <= t < rest.len() && rest[t] == r;
        assert((rest + last)[t] == r);
    }
}

/// Every record of one destination entry's group is among the extras.
pub proof fn lemma_extra_records_contains(
    src: Seq<ModInfoView>,
    dst: Seq<ModInfoView>,
    skip_server_only: bool,
    n: nat,
    i: int,
    r: DiscrepancyView,
)
    requires
        0 <= i < n,
        extra_group(src, dst, skip_server_only, i).contains(r),
    ensures
        extra_records(src, dst, skip_server_only, n).contains(r),
    decreases n,
{
    let rest = extra_records(src, dst, skip_server_only, (n - 1) as nat);
    let last = extra_group(src, dst, skip_server_only, n - 1);
    if i == n - 1 {
        let t = choose|t: int| 0 <= t < last.len() && last[t] == r;
        assert((rest + last)[rest.len() + t] == r);
    } else {
        lemma_extra_records_contains(src, dst, skip_server_only, (n - 1) as nat, i, r);
        let t = choose|t: int| 0 <= t < rest.len() && rest[t] == r;
        assert((rest + last)[t] == r);
    }
}

/// The first destination entry of the project of entry `k`.
pub proof fn lemma_first_of_project(dst: Seq<ModInfoView>, k: int) -> (i: int)
    requires
        0 <= k < dst.len(),
    ensures
        0 <= i <= k,
        dst[i].project_id == dst[k].project_id,
        is_first_of_project(dst, i),
    decreases k,
{
    if is_first_of_project(dst, k) {
        k
    } else {
        let j = choose|j: int| 0 <= j < k && dst[j].project_id == dst[k].project_id;
        lemma_first_of_project(dst, j)
    }
}

/// A record of the comparison is among the reported records.
pub proof fn lemma_compare_reports(
    src: Seq<ModInfoView>,
    dst: Seq<ModInfoView>,
    unknown: Seq<Seq<char>>,
    skip_server_only: bool,
    result: Seq<DiscrepancyView>,
    r: DiscrepancyView,
)
    requires
        is_stable_sort_of(
            spec_compare(src, dst, unknown, skip_server_only),
            record_keys(spec_compare(src, dst, unknown, skip_server_only)),
            result,
        ),
        spec_compare(src, dst, unknown, skip_server_only).contains(r),
    ensures
        result.contains(r),
{
    let pre = spec_compare(src, dst, unknown, skip_server_only);
    let j = choose|j: int| 0 <= j < pre.len() && pre[j] == r;
    lemma_stable_sort_complete(pre, record_keys(pre), result, j);
}

/// A source mod that is not client-only, of a project the destination has,
/// is reported as a mismatch (with the project's first destination jar)
/// exactly when no destination jar of the project is the same file or the
/// same identified version.
pub proof fn law_mismatch_exactly_when(
    src: Seq<ModInfoView>,
    dst: Seq<ModInfoView>,
    unknown: Seq<Seq<char>>,
    skip_server_only: bool,
    result: Seq<DiscrepancyView>,
    sm: ModInfoView,
)
    requires
        is_stable_sort_of(
            spec_compare(src, dst, unknown, skip_server_only),
            record_keys(spec_compare(src, dst, unknown, skip_server_only)),
            result,
        ),
        src.contains(sm),
        sm.side != Side::ClientOnly,
        entries_for(dst, sm.project_id).len() > 0,
    ensures
        (exists|k: int|
            0 <= k < result.len() && result[k].kind == DiscrepancyKind::Mismatch
                && #[trigger] result[k].client_mod == Some(sm)) <==> (forall|d: ModInfoView|
            #[trigger] entries_for(dst, sm.project_id).contains(d) ==> !in_sync(d, sm)),
        (forall|d: ModInfoView|
            #[trigger] entries_for(dst, sm.project_id).contains(d) ==> !in_sync(d, sm)) ==> result.contains(
            mismatch_record(sm, entries_for(dst, sm.project_id)[0]),
        ),
{
    let entries = entries_for(dst, sm.project_id);
    if exists|k: int|
        0 <= k < result.len() && result[k].kind == DiscrepancyKind::Mismatch
            && #[trigger] result[k].client_mod == Some(sm) {
        let k = choose|k: int|
            0 <= k < result.len() && result[k].kind == DiscrepancyKind::Mismatch
                && #[trigger] result[k].client_mod == Some(sm);
        let r = result[k];
        lemma_compare_result_member(src, dst, unknown, skip_server_only, result, k);
        lemma_record_shape(src, dst, unknown, skip_server_only, r);
        assert forall|d: ModInfoView| #[trigger] entries.contains(d) implies !in_sync(d, sm) by {
            lemma_entries_for_member(dst, sm.project_id, d);
        }
    }
    if forall|d: ModInfoView| #[trigger] entries.contains(d) ==> !in_sync(d, sm) {
        let i = choose|i: int| 0 <= i < src.len() && src[i] == sm;
        assert forall|t: int| 0 <= t < entries.len() implies !in_sync(#[trigger] entries[t], sm) by {
            assert(entries.contains(entries[t]));
        }
        lemma_first_in_sync_none(entries, sm);
        let rs = records_for_source(sm, dst, unknown);
        assert(rs[0] == mismatch_record(sm, entries[0]));
        assert(rs.contains(mismatch_record(sm, entries[0])));
        lemma_source_records_contains(src, dst, unknown, i, mismatch_record(sm, entries[0]));
        let a = source_records(src, dst, unknown);
        let b = extra_records(src, dst, skip_server_only, dst.len());
        let t = choose|t: int| 0 <= t < a.len() && a[t] == mismatch_record(sm, entries[0]);
        assert((a + b)[t] == mismatch_record(sm, entries[0]));
        lemma_compare_reports(src, dst, unknown, skip_server_only, result, mismatch_record(sm, entries[0]));
        let q = choose|q: int| 0 <= q < result.len() && result[q] == mismatch_record(sm, entries[0]);
        assert(result[q].client_mod == Some(sm));
    }
}

/// A source mod is reported missing exactly when it is not client-only, the
/// destination has no jar of its project, and its exact file is not among
/// the destination's unidentified jars.
pub proof fn law_missing_exactly_when(
    src: Seq<ModInfoView>,
    dst: Seq<ModInfoView>,
    unknown: Seq<Seq<char>>,
    skip_server_only: bool,
    result: Seq<DiscrepancyView>,
    sm: ModInfoView,
)
    requires
        is_stable_sort_of(
            spec_compare(src, dst, unknown, skip_server_only),
            record_keys(spec_compare(src, dst, unknown, skip_server_only)),
            result,
        ),
        src.contains(sm),
    ensures
        (exists|k: int|
            0 <= k < result.len() && result[k].kind == DiscrepancyKind::ClientOnly
                && #[trigger] result[k].client_mod == Some(sm)) <==> (sm.side != Side::ClientOnly
            && !has_project(dst, sm.project_id) && !unknown.contains(sm.local_mod.sha512)),
        (sm.side != Side::ClientOnly && !has_project(dst, sm.project_id) && !unknown.contains(
            sm.local_mod.sha512,
        )) ==> result.contains(missing_record(sm)),
{
    if exists|k: int|
        0 <= k < result.len() && result[k].kind == DiscrepancyKind::ClientOnly
            && #[trigger] result[k].client_mod == Some(sm) {
        let k = choose|k: int|
            0 <= k < result.len() && result[k].kind == DiscrepancyKind::ClientOnly
                && #[trigger] result[k].client_mod == Some(sm);
        lemma_compare_result_member(src, dst, unknown, skip_server_only, result, k);
        lemma_record_shape(src, dst, unknown, skip_server_only, result[k]);
    }
    if sm.side != Side::ClientOnly && !has_project(dst, sm.project_id) && !unknown.contains(
        sm.local_mod.sha512,
    ) {
        let i = choose|i: int| 0 <= i < src.len() && src[i] == sm;
        let entries = entries_for(dst, sm.project_id);
        if entries.len() > 0 {
            assert(entries.contains(entries[0]));
            lemma_entries_for_member(dst, sm.project_id, entries[0]);
            let q = choose|q: int| 0 <= q < dst.len() && dst[q] == entries[0];
            assert(dst[q].project_id == sm.project_id);
        }
        let rs = records_for_source(sm, dst, unknown);
        assert(rs[0] == missing_record(sm));
        assert(rs.contains(missing_record(sm)));
        lemma_source_records_contains(src, dst, unknown, i, missing_record(sm));
        let a = source_records(src, dst, unknown);
        let b = extra_records(src, dst, skip_server_only, dst.len());
        let t = choose|t: int| 0 <= t < a.len() && a[t] == missing_record(sm);
        assert((a + b)[t] == missing_record(sm));
        lemma_compare_reports(src, dst, unknown, skip_server_only, result, missing_record(sm));
        let q = choose|q: int| 0 <= q < result.len() && result[q] == missing_record(sm);
        assert(result[q].client_mod == Some(sm));
    }
}

/// A destination mod of a project the source lacks is reported as an extra
/// exactly when it is not a server-only mod left out by `skip_server_only`.
pub proof fn law_extra_exactly_when(
    src: Seq<ModInfoView>,
    dst: Seq<ModInfoView>,
    unknown: Seq<Seq<char>>,
    skip_server_only: bool,
    result: Seq<DiscrepancyView>,
    e: ModInfoView,
)
    requires
        is_stable_sort_of(
            spec_compare(src, dst, unknown, skip_server_only),
            record_keys(spec_compare(src, dst, unknown, skip_server_only)),
            result,
        ),
        dst.contains(e),
        !has_project(src, e.project_id),
    ensures
        result.contains(extra_record(e)) <==> !skipped_extra(e, skip_server_only),
{
    if result.contains(extra_record(e)) {
        let k = choose|k: int| 0 <= k < result.len() && result[k] == extra_record(e);
        lemma_compare_result_member(src, dst, unknown, skip_server_only, result, k);
        lemma_record_shape(src, dst, unknown, skip_server_only, extra_record(e));
        if exists|i: int, x: ModInfoView|
            0 <= i < src.len() && src[i].side != Side::ClientOnly && dst.contains(x)
                && x.project_id == src[i].project_id && extra_record(e) == #[trigger] duplicate_record(src[i], x) {
            let (i, x) = choose|i: int, x: ModInfoView|
                0 <= i < src.len() && src[i].side != Side::ClientOnly && dst.contains(x)
                    && x.project_id == src[i].project_id && extra_record(e) == #[trigger] duplicate_record(src[i], x);
            assert(src[i].project_id == e.project_id);
            assert(false);
        }
    }
    if !skipped_extra(e, skip_server_only) {
        let k = choose|k: int| 0 <= k < dst.len() && dst[k] == e;
        let i = lemma_first_of_project(dst, k);
        let pid = e.project_id;
        let entries = entries_for(dst, pid);
        let idf = |x: ModInfoView| x.project_id == pid;
        dst.lemma_filter_contains(idf, k);
        let pred = |x: ModInfoView| !skipped_extra(x, skip_server_only);
        let t = choose|t: int| 0 <= t < entries.len() && entries[t] == e;
        entries.lemma_filter_contains(pred, t);
        let kept = entries.filter(pred);
        let u = choose|u: int| 0 <= u < kept.len() && kept[u] == e;
        let group = kept.map_values(|x: ModInfoView| extra_record(x));
        assert(group[u] == extra_record(e));
        assert(extra_group(src, dst, skip_server_only, i) == group);
        assert(group.contains(extra_record(e)));
        lemma_extra_records_contains(src, dst, skip_server_only, dst.len(), i, extra_record(e));
        let a = source_records(src, dst, unknown);
        let b = extra_records(src, dst, skip_server_only, dst.len());
        let w = choose|w: int| 0 <= w < b.len() && b[w] == extra_record(e);
        assert((a + b)[a.len() + w] == extra_record(e));
        lemma_compare_reports(src, dst, unknown, skip_server_only, result, extra_record(e));
    }
}

/// Against a client (`skip_server_only`), a server-only mod of a project the
/// client lacks is never flagged for deletion.
pub proof fn law_server_only_extras_kept(
    src: Seq<ModInfoView>,
    dst: Seq<ModInfoView>,
    unknown: Seq<Seq<char>>,
    r: DiscrepancyView,
)
    requires
        spec_compare(src, dst, unknown, true).contains(r),
        r.kind == DiscrepancyKind::ServerOnly,
        !has_project(src, r.project_id),
    ensures
        r.server_mod is Some,
        r.server_mod.unwrap().side != Side::ServerOnly,
{
    lemma_record_shape(src, dst, unknown, true, r);
}

/// A mod set compared with itself, one jar per project, shows no difference.
pub proof fn law_identical_sets_in_sync(
    mods: Seq<ModInfoView>,
    unknown: Seq<Seq<char>>,
    skip_server_only: bool,
)
    requires
        forall|i: int, j: int|
            0 <= i < j < mods.len() ==> mods[i].project_id != mods[j].project_id,
    ensures
        spec_compare(mods, mods, unknown, skip_server_only).len() == 0,
{
    let c = spec_compare(mods, mods, unknown, skip_server_only);
    if c.len() > 0 {
        let r = c[0];
        assert(c.contains(r));
        lemma_record_shape(mods, mods, unknown, skip_server_only, r);
        if exists|i: int, e: ModInfoView|
            0 <= i < mods.len() && mods[i].side != Side::ClientOnly && mods.contains(e)
                && e.project_id == mods[i].project_id && r == #[trigger] duplicate_record(mods[i], e) && (
            (exists|m: ModInfoView|
                mods.contains(m) && m.project_id == mods[i].project_id && in_sync(m, mods[i])
                    && e.local_mod.filename != m.local_mod.filename) || (forall|d: ModInfoView|
                mods.contains(d) && d.project_id == mods[i].project_id ==> !in_sync(d, mods[i]))) {
            let (i, e) = choose|i: int, e: ModInfoView|
                0 <= i < mods.len() && mods[i].side != Side::ClientOnly && mods.contains(e)
                    && e.project_id == mods[i].project_id && r == #[trigger] duplicate_record(mods[i], e) && (
                (exists|m: ModInfoView|
                    mods.contains(m) && m.project_id == mods[i].project_id && in_sync(m, mods[i])
                        && e.local_mod.filename != m.local_mod.filename) || (forall|d: ModInfoView|
                    mods.contains(d) && d.project_id == mods[i].project_id ==> !in_sync(d, mods[i])));
            assert(mods.contains(mods[i]));
            let q = choose|q: int| 0 <= q < mods.len() && mods[q] == e;
            assert(q == i);
            if exists|m: ModInfoView|
                mods.contains(m) && m.project_id == mods[i].project_id && in_sync(m, mods[i])
                    && e.local_mod.filename != m.local_mod.filename {
                let m = choose|m: ModInfoView|
                    mods.contains(m) && m.project_id == mods[i].project_id && in_sync(m, mods[i])
                        && e.local_mod.filename != m.local_mod.filename;
                let p = choose|p: int| 0 <= p < mods.len() && mods[p] == m;
                assert(p == i);
            }
        } else if exists|i: int, e: ModInfoView|
            0 <= i < mods.len() && mods[i].side != Side::ClientOnly && mods.contains(e)
                && e.project_id == mods[i].project_id && (forall|d: ModInfoView|
                mods.contains(d) && d.project_id == mods[i].project_id ==> !in_sync(d, mods[i]))
                && r == #[trigger] mismatch_record(mods[i], e) {
            let (i, e) = choose|i: int, e: ModInfoView|
                0 <= i < mods.len() && mods[i].side != Side::ClientOnly && mods.contains(e)
                    && e.project_id == mods[i].project_id && (forall|d: ModInfoView|
                    mods.contains(d) && d.project_id == mods[i].project_id ==> !in_sync(d, mods[i]))
                    && r == #[trigger] mismatch_record(mods[i], e);
            assert(mods.contains(mods[i]));
        } else if exists|i: int|
            0 <= i < mods.len() && mods[i].side != Side::ClientOnly && !unknown.contains(
                mods[i].local_mod.sha512,
            ) && !has_project(mods, mods[i].project_id) && r == #[trigger] missing_record(mods[i]) {
            let i = choose|i: int|
                0 <= i < mods.len() && mods[i].side != Side::ClientOnly && !unknown.contains(
                    mods[i].local_mod.sha512,
                ) && !has_project(mods, mods[i].project_id) && r == #[trigger] missing_record(mods[i]);
            assert(mods[i].project_id == mods[i].project_id);
        } else {
            let e = choose|e: ModInfoView|
                mods.contains(e) && !has_project(mods, e.project_id) && !skipped_extra(e, skip_server_only)
                    && r == #[trigger] extra_record(e);
            let q = choose|q: int| 0 <= q < mods.len() && mods[q] == e;
            assert(mods[q].project_id == e.project_id);
        }
    }
}

/// Views of the destination mods at the given indices.
pub open spec fn at_indices(dst: Seq<ModInfo>, idx: Seq<usize>) -> Seq<ModInfoView> {
    idx.map_values(|k: usize| dst[k as int]@)
}

/// Indices of the destination mods of project `pid`, in order.
fn project_entries(dst: &Vec<ModInfo>, pid: &String) -> (idx: Vec<usize>)
    ensures
        forall|k: int| 0 <= k < idx@.len() ==> idx@[k] < dst@.len(),
        at_indices(dst@, idx@) == entries_for(infos_view(dst@), pid@),
{
    let ghost dv = infos_view(dst@);
    let mut idx: Vec<usize> = Vec::new();
    let mut i: usize = 0;
    while i < dst.len()
        invariant
            dv == infos_view(dst@),
            i <= dst@.len(),
            forall|k: int| 0 <= k < idx@.len() ==> idx@[k] < i,
            at_indices(dst@, idx@) == dv.take(i as int).filter(
                |e: ModInfoView| e.project_id == pid@,
            ),
        decreases dst@.len() - i,
    {
        proof {
            reveal_with_fuel(Seq::<_>::filter, 1);
            assert(dv.take(i + 1).drop_last() =~= dv.take(i as int));
            assert(dv.take(i + 1).last() == dst@[i as int]@);
        }
        let ghost old_idx = idx@;
        if dst[i].project_id == *pid {
            idx.push(i);
            assert(at_indices(dst@, idx@) =~= at_indices(dst@, old_idx).push(dst@[i as int]@));
        }
        i = i + 1;
    }
    assert(dv.take(dst@.len() as int) =~= dv);
    idx
}

/// Position in `idx` of the first destination entry that holds `sm`.
fn find_in_sync(dst: &Vec<ModInfo>, idx: &Vec<usize>, sm: &ModInfo) -> (r: Option<usize>)
    requires
        forall|k: int| 0 <= k < idx@.len() ==> idx@[k] < dst@.len(),
    ensures
        match r {
            Some(j) => j < idx@.len() && first_in_sync(at_indices(dst@, idx@), sm@) == Some(
                dst@[idx@[j as int] as int]@,
            ),
            None => first_in_sync(at_indices(dst@, idx@), sm@) is None,
        },
{
    let ghost entries = at_indices(dst@, idx@);
    let mut j: usize = 0;
    assert(entries.skip(0) =~= entries);
    while j < idx.len()
        invariant
            entries == at_indices(dst@, idx@),
            forall|k: int| 0 <= k < idx@.len() ==> idx@[k] < dst@.len(),
            j <= idx@.len(),
            first_in_sync(entries, sm@) == first_in_sync(entries.skip(j as int), sm@),
        decreases idx@.len() - j,
    {
        let e = &dst[idx[j]];
        assert(entries.skip(j as int)[0] == e@);
        if e.local_mod.sha512 == sm.local_mod.sha512
            || e.current_version.version_id == sm.current_version.version_id {
            return Some(j);
        }
        assert(entries.skip(j as int).drop_first() =~= entries.skip(j + 1));
        j = j + 1;
    }
    None
}

/// The record of a stale duplicate jar.
fn make_duplicate(sm: &ModInfo, e: &ModInfo) -> (r: DiscrepancyRecord)
    ensures
        r@ == duplicate_record(sm@, e@),
{
    let mut name = sm.project_name.clone();
    name.append(" (duplicate: ");
    name.append(e.local_mod.filename.as_str());
    name.append(")");
    DiscrepancyRecord {
        project_id: sm.project_id.clone(),
        project_name: name,
        kind: DiscrepancyKind::ServerOnly,
        client_mod: None,
        server_mod: Some(e.clone()),
    }
}

/// Whether `hash` is among `hashes`.
fn contains_text(hashes: &Vec<String>, hash: &String) -> (b: bool)
    ensures
        b == texts(hashes@).contains(hash@),
{
    let mut i: usize = 0;
    while i < hashes.len()
        invariant
            i <= hashes@.len(),
            forall|k: int| 0 <= k < i ==> hashes@[k]@ != hash@,
        decreases hashes@.len() - i,
    {
        if hashes[i] == *hash {
            assert(texts(hashes@)[i as int] == hash@);
            return true;
        }
        i = i + 1;
    }
    assert(!texts(hashes@).contains(hash@)) by {
        if texts(hashes@).contains(hash@) {
            let k = choose|k: int| 0 <= k < texts(hashes@).len() && texts(hashes@)[k] == hash@;
            assert(hashes@[k]@ == hash@);
        }
    }
    false
}

/// The records that one source mod contributes.
fn source_mod_records(sm: &ModInfo, dst: &Vec<ModInfo>, unknown: &Vec<String>) -> (recs: Vec<
    DiscrepancyRecord,
>)
    ensures
        records_view(recs@) == records_for_source(sm@, infos_view(dst@), texts(unknown@)),
{
    let mut recs: Vec<DiscrepancyRecord> = Vec::new();
    if sm.side == Side::ClientOnly {
        assert(records_view(recs@) =~= seq![]);
        return recs;
    }
    let idx = project_entries(dst, &sm.project_id);
    let ghost entries = at_indices(dst@, idx@);
    if idx.len() > 0 {
        match find_in_sync(dst, &idx, sm) {
            Some(m) => {
                let kept = &dst[idx[m]].local_mod.filename;
                let mut j: usize = 0;
                while j < idx.len()
                    invariant
                        entries == at_indices(dst@, idx@),
                        forall|k: int| 0 <= k < idx@.len() ==> idx@[k] < dst@.len(),
                        j <= idx@.len(),
                        records_view(recs@) == duplicates_except(
                            sm@,
                            entries.take(j as int),
                            kept@,
                        ),
                    decreases idx@.len() - j,
                {
                    let e = &dst[idx[j]];
                    proof {
                        reveal_with_fuel(Seq::<_>::filter, 1);
                        assert(entries.take(j + 1).drop_last() =~= entries.take(j as int));
                        assert(entries.take(j + 1).last() == e@);
                    }
                    let ghost before = recs@;
                    if e.local_mod.filename != *kept {
                        recs.push(make_duplicate(sm, e));
                        assert(records_view(recs@) =~= records_view(before).push(
                            duplicate_record(sm@, e@),
                        ));
                    }
                    proof {
                        let pred = |x: ModInfoView| x.local_mod.filename != kept@;
                        let f = |x: ModInfoView| duplicate_record(sm@, x);
                        let fj = entries.take(j as int).filter(pred);
                        let fj1 = entries.take(j + 1).filter(pred);
                        if pred(e@) {
                            assert(fj1 == fj.push(e@));
                            assert(fj1.map_values(f) =~= fj.map_values(f).push(f(e@)));
                        } else {
                            assert(fj1 == fj);
                        }
                    }
                    j = j + 1;
                }
                assert(entries.take(idx@.len() as int) =~= entries);
            },
            None => {
                recs.push(
                    DiscrepancyRecord {
                        project_id: sm.project_id.clone(),
                        project_name: sm.project_name.clone(),
                        kind: DiscrepancyKind::Mismatch,
                        client_mod: Some(sm.clone()),
                        server_mod: Some(dst[idx[0]].clone()),
                    },
                );
                let mut j: usize = 1;
                while j < idx.len()
                    invariant
                        entries == at_indices(dst@, idx@),
                        forall|k: int| 0 <= k < idx@.len() ==> idx@[k] < dst@.len(),
                        1 <= j <= idx@.len(),
                        records_view(recs@) == seq![mismatch_record(sm@, entries[0])]
                            + entries.subrange(1, j as int).map_values(
                            |x: ModInfoView| duplicate_record(sm@, x),
                        ),
                    decreases idx@.len() - j,
                {
                    let ghost before = recs@;
                    recs.push(make_duplicate(sm, &dst[idx[j]]));
                    assert(records_view(recs@) =~= records_view(before).push(
                        duplicate_record(sm@, entries[j as int]),
                    ));
                    assert(entries.subrange(1, j + 1).map_values(
                        |x: ModInfoView| duplicate_record(sm@, x),
                    ) =~= entries.subrange(1, j as int).map_values(
                        |x: ModInfoView| duplicate_record(sm@, x),
                    ).push(duplicate_record(sm@, entries[j as int])));
                    j = j + 1;
                }
                assert(entries.subrange(1, idx@.len() as int) =~= entries.drop_first());
            },
        }
        recs
    } else {
        if contains_text(unknown, &sm.local_mod.sha512) {
            assert(records_view(recs@) =~= seq![]);
            return recs;
        }
        recs.push(
            DiscrepancyRecord {
                project_id: sm.project_id.clone(),
                project_name: sm.project_name.clone(),
                kind: DiscrepancyKind::ClientOnly,
                client_mod: Some(sm.clone()),
                server_mod: None,
            },
        );
        assert(records_view(recs@) =~= seq![missing_record(sm@)]);
        recs
    }
}

/// Whether destination entry `i` is the first of its project.
fn first_of_project(dst: &Vec<ModInfo>, i: usize) -> (b: bool)
    requires
        i < dst@.len(),
    ensures
        b == is_first_of_project(infos_view(dst@), i as int),
{
    let mut j: usize = 0;
    while j < i
        invariant
            i < dst@.len(),
            j <= i,
            forall|k: int| 0 <= k < j ==> dst@[k].project_id@ != dst@[i as int].project_id@,
        decreases i - j,
    {
        if dst[j].project_id == dst[i].project_id {
            assert(infos_view(dst@)[j as int].project_id == infos_view(dst@)[i as int].project_id);
            return false;
        }
        j = j + 1;
    }
    true
}

/// Whether some mod of `mods` belongs to project `pid`.
fn contains_project(mods: &Vec<ModInfo>, pid: &String) -> (b: bool)
    ensures
        b == has_project(infos_view(mods@), pid@),
{
    let mut j: usize = 0;
    while j < mods.len()
        invariant
            j <= mods@.len(),
            forall|k: int| 0 <= k < j ==> mods@[k].project_id@ != pid@,
        decreases mods@.len() - j,
    {
        if mods[j].project_id == *pid {
            assert(infos_view(mods@)[j as int].project_id == pid@);
            return true;
        }
        j = j + 1;
    }
    false
}

/// The extra records listed at destination entry `i`.
fn extra_group_records(
    src: &Vec<ModInfo>,
    dst: &Vec<ModInfo>,
    skip_server_only: bool,
    i: usize,
) -> (recs: Vec<DiscrepancyRecord>)
    requires
        i < dst@.len(),
    ensures
        records_view(recs@) == extra_group(
            infos_view(src@),
            infos_view(dst@),
            skip_server_only,
            i as int,
        ),
{
    let mut recs: Vec<DiscrepancyRecord> = Vec::new();
    if !first_of_project(dst, i) || contains_project(src, &dst[i].project_id) {
        assert(records_view(recs@) =~= seq![]);
        return recs;
    }
    let idx = project_entries(dst, &dst[i].project_id);
    let ghost entries = at_indices(dst@, idx@);
    let ghost pred = |e: ModInfoView| !skipped_extra(e, skip_server_only);
    let mut j: usize = 0;
    while j < idx.len()
        invariant
            entries == at_indices(dst@, idx@),
            pred == (|e: ModInfoView| !skipped_extra(e, skip_server_only)),
            forall|k: int| 0 <= k < idx@.len() ==> idx@[k] < dst@.len(),
            j <= idx@.len(),
            records_view(recs@) == entries.take(j as int).filter(pred).map_values(
                |e: ModInfoView| extra_record(e),
            ),
        decreases idx@.len() - j,
    {
        let e = &dst[idx[j]];
        proof {
            reveal_with_fuel(Seq::<_>::filter, 1);
            assert(entries.take(j + 1).drop_last() =~= entries.take(j as int));
            assert(entries.take(j + 1).last() == e@);
        }
        let ghost before = recs@;
        if !(skip_server_only && e.side == Side::ServerOnly) {
            recs.push(
                DiscrepancyRecord {
                    project_id: e.project_id.clone(),
                    project_name: e.project_name.clone(),
                    kind: DiscrepancyKind::ServerOnly,
                    client_mod: None,
                    server_mod: Some(e.clone()),
                },
            );
            assert(records_view(recs@) =~= records_view(before).push(extra_record(e@)));
        }
        proof {
            let f = |x: ModInfoView| extra_record(x);
            let fj = entries.take(j as int).filter(pred);
            let fj1 = entries.take(j + 1).filter(pred);
            if pred(e@) {
                assert(fj1 == fj.push(e@));
                assert(fj1.map_values(f) =~= fj.map_values(f).push(f(e@)));
            } else {
                assert(fj1 == fj);
            }
        }
        j = j + 1;
    }
    assert(entries.take(idx@.len() as int) =~= entries);
    recs
}

/// Records stably sorted by their lower-case names.
fn sort_records(pre: Vec<DiscrepancyRecord>) -> (res: Vec<DiscrepancyRecord>)
    ensures
        is_stable_sort_of(records_view(pre@), record_keys(records_view(pre@)), records_view(res@)),
{
    let ghost pv = records_view(pre@);
    let mut keys: Vec<Vec<char>> = Vec::new();
    let mut i: usize = 0;
    while i < pre.len()
        invariant
            pv == records_view(pre@),
            i <= pre@.len(),
            keys@.len() == i,
            forall|k: int| 0 <= k < i ==> #[trigger] keys@[k]@ == record_key(pv[k]),
        decreases pre@.len() - i,
    {
        let lower = to_lowercase(pre[i].project_name.as_str());
        keys.push(chars_of(lower.as_str()));
        i = i + 1;
    }
    assert(keys@.map_values(|k: Vec<char>| k@) =~= record_keys(pv));
    let order = stable_order(&keys);
    let mut res: Vec<DiscrepancyRecord> = Vec::new();
    let mut k: usize = 0;
    while k < order.len()
        invariant
            pv == records_view(pre@),
            order@.len() == pre@.len(),
            forall|a: int| 0 <= a < order@.len() ==> order@[a] < pre@.len(),
            k <= order@.len(),
            res@.len() == k,
            forall|a: int| 0 <= a < k ==> #[trigger] res@[a]@ == pv[order@[a] as int],
        decreases order@.len() - k,
    {
        res.push(pre[order[k]].clone());
        k = k + 1;
    }
    let ghost rv = records_view(res@);
    assert forall|a: int| 0 <= a < rv.len() implies #[trigger] rv[a] == pv[order@[a] as int] by {
        assert(rv[a] == res@[a]@);
    }
    res
}

/// Compares a source mod set with a destination server (always a server).
/// Client-only source mods are never pushed. A destination jar holds a
/// source mod when its SHA-512 or its identified version matches; further
/// jars of the same project are stale duplicates. A source mod whose exact
/// file is among the destination's unidentified jars (`dst_unknown_hashes`)
/// is not missing. Destination-only projects are extras, except server-only
/// mods when `skip_server_only_extras` (the source is a client). The result
/// is sorted by lower-case name, stably.
pub fn compare_mod_sets(
    src_mods: &Vec<ModInfo>,
    dst_mods: &Vec<ModInfo>,
    dst_unknown_hashes: &Vec<String>,
    skip_server_only_extras: bool,
) -> (records: Vec<DiscrepancyRecord>)
    ensures
        is_stable_sort_of(
            spec_compare(
                infos_view(src_mods@),
                infos_view(dst_mods@),
                texts(dst_unknown_hashes@),
                skip_server_only_extras,
            ),
            record_keys(
                spec_compare(
                    infos_view(src_mods@),
                    infos_view(dst_mods@),
                    texts(dst_unknown_hashes@),
                    skip_server_only_extras,
                ),
            ),
            records_view(records@),
        ),
{
    let ghost sv = infos_view(src_mods@);
    let ghost dv = infos_view(dst_mods@);
    let ghost uv = texts(dst_unknown_hashes@);
    let mut pre: Vec<DiscrepancyRecord> = Vec::new();
    let mut i: usize = 0;
    while i < src_mods.len()
        invariant
            sv == infos_view(src_mods@),
            dv == infos_view(dst_mods@),
            uv == texts(dst_unknown_hashes@),
            i <= src_mods@.len(),
            records_view(pre@) == source_records(sv.take(i as int), dv, uv),
        decreases src_mods@.len() - i,
    {
        let mut recs = source_mod_records(&src_mods[i], dst_mods, dst_unknown_hashes);
        let ghost before = pre@;
        let ghost added = recs@;
        pre.append(&mut recs);
        assert(records_view(pre@) =~= records_view(before) + records_view(added));
        assert(sv.take(i + 1).drop_last() =~= sv.take(i as int));
        assert(sv.take(i + 1).last() == src_mods@[i as int]@);
        i = i + 1;
    }
    assert(sv.take(src_mods@.len() as int) =~= sv);
    let mut j: usize = 0;
    while j < dst_mods.len()
        invariant
            sv == infos_view(src_mods@),
            dv == infos_view(dst_mods@),
            uv == texts(dst_unknown_hashes@),
            j <= dst_mods@.len(),
            records_view(pre@) == source_records(sv, dv, uv) + extra_records(
                sv,
                dv,
                skip_server_only_extras,
                j as nat,
            ),
        decreases dst_mods@.len() - j,
    {
        let mut recs = extra_group_records(src_mods, dst_mods, skip_server_only_extras, j);
        let ghost before = pre@;
        let ghost added = recs@;
        pre.append(&mut recs);
        assert(records_view(pre@) =~= records_view(before) + records_view(added));
        j = j + 1;
    }
    sort_records(pre)
}

} // verus!
