//! Plans that carry out a selection on a server: which files to upload,
//! transfer and delete, in which order. The caller performs the steps in
//! order and stops at the first failure.

use crate::models::{DiscrepancyKind, DiscrepancyRecord, DiscrepancyView, ModInfo, ModInfoView, records_view, infos_view};
use vstd::prelude::*;

verus! {

/// Path of a file in a remote folder.
pub open spec fn spec_remote_path(folder: Seq<char>, filename: Seq<char>) -> Seq<char> {
    folder + "/"@ + filename
}

/// Path of a file in a remote folder: the folder, a slash, the file name.
pub fn remote_path(folder: &str, filename: &str) -> (p: String)
    ensures
        p@ == spec_remote_path(folder@, filename@),
{
    let mut p = String::from_str(folder);
    p.append("/");
    p.append(filename);
    p
}

proof fn lemma_remote_path_injective(folder: Seq<char>, a: Seq<char>, b: Seq<char>)
    requires
        a != b,
    ensures
        spec_remote_path(folder, a) != spec_remote_path(folder, b),
{
    reveal_strlit("/");
    let pa = spec_remote_path(folder, a);
    let pb = spec_remote_path(folder, b);
    let n: int = folder.len() as int + 1;
    assert(pa.skip(n) =~= a);
    assert(pb.skip(n) =~= b);
}

/// A step on a remote server.
#[derive(Debug)]
pub enum RemoteAction {
    /// Upload the local file to the remote path (replacing it).
    Upload { local_path: String, remote_path: String },
    /// Copy a file from the source server to the destination server.
    Transfer { source_path: String, destination_path: String },
    /// Delete the remote file.
    Delete { remote_path: String },
}

/// Mathematical view of a [`RemoteAction`].
pub enum RemoteStep {
    Upload { local_path: Seq<char>, remote_path: Seq<char> },
    Transfer { source_path: Seq<char>, destination_path: Seq<char> },
    Delete { remote_path: Seq<char> },
}

impl View for RemoteAction {
    type V = RemoteStep;

    open spec fn view(&self) -> RemoteStep {
        match self {
            RemoteAction::Upload { local_path, remote_path } => RemoteStep::Upload {
                local_path: local_path@,
                remote_path: remote_path@,
            },
            RemoteAction::Transfer { source_path, destination_path } => RemoteStep::Transfer {
                source_path: source_path@,
                destination_path: destination_path@,
            },
            RemoteAction::Delete { remote_path } => RemoteStep::Delete { remote_path: remote_path@ },
        }
    }
}

/// Views of a list of steps.
pub open spec fn steps_view(s: Seq<RemoteAction>) -> Seq<RemoteStep> {
    s.map_values(|a: RemoteAction| a@)
}

/// A record carries the mods its kind needs: a source mod for a mismatch or
/// a missing mod, a destination mod for a mismatch or an extra.
pub open spec fn record_wf(r: DiscrepancyView) -> bool {
    &&& (r.kind == DiscrepancyKind::Mismatch || r.kind == DiscrepancyKind::ClientOnly) ==> r.client_mod is Some
    &&& (r.kind == DiscrepancyKind::Mismatch || r.kind == DiscrepancyKind::ServerOnly) ==> r.server_mod is Some
}

/// Whether a record carries the mods its kind needs.
pub fn record_is_wellformed(r: &DiscrepancyRecord) -> (b: bool)
    ensures
        b == record_wf(r@),
{
    let needs_client = r.kind == DiscrepancyKind::Mismatch || r.kind == DiscrepancyKind::ClientOnly;
    let needs_server = r.kind == DiscrepancyKind::Mismatch || r.kind == DiscrepancyKind::ServerOnly;
    (!needs_client || r.client_mod.is_some()) && (!needs_server || r.server_mod.is_some())
}

/// Steps that bring one record from the client to the server: for a
/// mismatch whose server jar has another name, delete that jar first; for a
/// mismatch or a missing mod, upload the client jar under its name; for an
/// extra, delete the server jar.
pub open spec fn resolve_steps(r: DiscrepancyView, folder: Seq<char>) -> Seq<RemoteStep> {
    match r.kind {
        DiscrepancyKind::ServerOnly => seq![
            RemoteStep::Delete { remote_path: spec_remote_path(folder, r.server_mod.unwrap().local_mod.filename) },
        ],
        _ => {
            let cm = r.client_mod.unwrap();
            let upload = RemoteStep::Upload {
                local_path: cm.local_mod.filepath,
                remote_path: spec_remote_path(folder, cm.local_mod.filename),
            };
            if r.kind == DiscrepancyKind::Mismatch && r.server_mod.unwrap().local_mod.filename
                != cm.local_mod.filename {
                seq![
                    RemoteStep::Delete { remote_path: spec_remote_path(folder, r.server_mod.unwrap().local_mod.filename) },
                    upload,
                ]
            } else {
                seq![upload]
            }
        },
    }
}

/// Resolving a record never deletes the jar it uploads: the delete (first)
/// aims at another file than the upload.
pub proof fn law_resolve_keeps_upload(r: DiscrepancyView, folder: Seq<char>)
    requires
        record_wf(r),
        resolve_steps(r, folder).len() == 2,
    ensures
        resolve_steps(r, folder)[0] matches RemoteStep::Delete { remote_path: d }
            && resolve_steps(r, folder)[1] matches RemoteStep::Upload { remote_path: u, .. } && d != u,
{
    lemma_remote_path_injective(folder, r.server_mod.unwrap().local_mod.filename, r.client_mod.unwrap().local_mod.filename);
}

/// The steps of all records, in record order.
pub open spec fn resolve_plan(records: Seq<DiscrepancyView>, folder: Seq<char>) -> Seq<RemoteStep>
    decreases records.len(),
{
    if records.len() == 0 {
        seq![]
    } else {
        resolve_plan(records.drop_last(), folder) + resolve_steps(records.last(), folder)
    }
}

/// The steps that resolve the selected client/server discrepancies.
pub fn plan_resolve_discrepancies(selected: &Vec<DiscrepancyRecord>, remote_folder: &str) -> (plan: Vec<RemoteAction>)
    requires
        forall|i: int| 0 <= i < selected@.len() ==> record_wf(#[trigger] selected@[i]@),
    ensures
        steps_view(plan@) == resolve_plan(records_view(selected@), remote_folder@),
{
    let ghost rv = records_view(selected@);
    let mut plan: Vec<RemoteAction> = Vec::new();
    let mut i: usize = 0;
    while i < selected.len()
        invariant
            rv == records_view(selected@),
            forall|i: int| 0 <= i < selected@.len() ==> record_wf(#[trigger] selected@[i]@),
            i <= selected@.len(),
            steps_view(plan@) == resolve_plan(rv.take(i as int), remote_folder@),
        decreases selected@.len() - i,
    {
        let r = &selected[i];
        assert(rv.take(i + 1).drop_last() =~= rv.take(i as int));
        assert(rv.take(i + 1).last() == r@);
        assert(record_wf(r@));
        let ghost before = plan@;
        match r.kind {
            DiscrepancyKind::ServerOnly => {
                let sm = r.server_mod.as_ref().unwrap();
                plan.push(RemoteAction::Delete { remote_path: remote_path(remote_folder, sm.local_mod.filename.as_str()) });
                assert(steps_view(plan@) =~= steps_view(before) + resolve_steps(r@, remote_folder@));
            },
            _ => {
                let cm = r.client_mod.as_ref().unwrap();
                if r.kind == DiscrepancyKind::Mismatch {
                    let sm = r.server_mod.as_ref().unwrap();
                    if sm.local_mod.filename != cm.local_mod.filename {
                        plan.push(RemoteAction::Delete { remote_path: remote_path(remote_folder, sm.local_mod.filename.as_str()) });
                    }
                }
                plan.push(RemoteAction::Upload {
                    local_path: cm.local_mod.filepath.clone(),
                    remote_path: remote_path(remote_folder, cm.local_mod.filename.as_str()),
                });
                assert(steps_view(plan@) =~= steps_view(before) + resolve_steps(r@, remote_folder@));
            },
        }
        i = i + 1;
    }
    assert(rv.take(selected@.len() as int) =~= rv);
    plan
}

/// Steps that bring one record from a source server to a destination
/// server: for a mismatch or a missing mod, transfer the source jar under
/// its name, then, for a mismatch whose destination jar has another name,
/// delete that jar; for an extra, delete the destination jar.
pub open spec fn transfer_steps(r: DiscrepancyView, src_folder: Seq<char>, dst_folder: Seq<char>) -> Seq<RemoteStep> {
    match r.kind {
        DiscrepancyKind::ServerOnly => seq![
            RemoteStep::Delete { remote_path: spec_remote_path(dst_folder, r.server_mod.unwrap().local_mod.filename) },
        ],
        _ => {
            let name = r.client_mod.unwrap().local_mod.filename;
            let transfer = RemoteStep::Transfer {
                source_path: spec_remote_path(src_folder, name),
                destination_path: spec_remote_path(dst_folder, name),
            };
            if r.kind == DiscrepancyKind::Mismatch && r.server_mod.unwrap().local_mod.filename != name {
                seq![
                    transfer,
                    RemoteStep::Delete { remote_path: spec_remote_path(dst_folder, r.server_mod.unwrap().local_mod.filename) },
                ]
            } else {
                seq![transfer]
            }
        },
    }
}

/// Syncing a record between servers never deletes the jar it transferred:
/// the delete (second) aims at another file than the transfer.
pub proof fn law_transfer_keeps_copy(r: DiscrepancyView, src_folder: Seq<char>, dst_folder: Seq<char>)
    requires
        record_wf(r),
        transfer_steps(r, src_folder, dst_folder).len() == 2,
    ensures
        transfer_steps(r, src_folder, dst_folder)[0] matches RemoteStep::Transfer { destination_path: t, .. }
            && transfer_steps(r, src_folder, dst_folder)[1] matches RemoteStep::Delete { remote_path: d } && d != t,
{
    lemma_remote_path_injective(dst_folder, r.server_mod.unwrap().local_mod.filename, r.client_mod.unwrap().local_mod.filename);
}

/// The server-to-server steps of all records, in record order.
pub open spec fn transfer_plan(records: Seq<DiscrepancyView>, src_folder: Seq<char>, dst_folder: Seq<char>) -> Seq<RemoteStep>
    decreases records.len(),
{
    if records.len() == 0 {
        seq![]
    } else {
        transfer_plan(records.drop_last(), src_folder, dst_folder) + transfer_steps(records.last(), src_folder, dst_folder)
    }
}

/// Server-to-server steps of one record: a mismatch or a missing mod first
/// copies the source jar to the same name in the destination folder; a
/// mismatch whose destination jar has another name then deletes that jar;
/// an extra deletes the destination jar; nothing else happens.
pub proof fn law_transfer_steps(r: DiscrepancyView, src_folder: Seq<char>, dst_folder: Seq<char>)
    requires
        record_wf(r),
    ensures
        r.kind != DiscrepancyKind::ServerOnly ==> transfer_steps(r, src_folder, dst_folder).len() >= 1
            && transfer_steps(r, src_folder, dst_folder)[0] == (RemoteStep::Transfer {
            source_path: src_folder + "/"@ + r.client_mod.unwrap().local_mod.filename,
            destination_path: dst_folder + "/"@ + r.client_mod.unwrap().local_mod.filename,
        }),
        (r.kind == DiscrepancyKind::Mismatch && r.server_mod.unwrap().local_mod.filename
            != r.client_mod.unwrap().local_mod.filename) ==> transfer_steps(r, src_folder, dst_folder).len() == 2
            && transfer_steps(r, src_folder, dst_folder)[1] == (RemoteStep::Delete {
            remote_path: dst_folder + "/"@ + r.server_mod.unwrap().local_mod.filename,
        }),
        (r.kind == DiscrepancyKind::ClientOnly || (r.kind == DiscrepancyKind::Mismatch
            && r.server_mod.unwrap().local_mod.filename == r.client_mod.unwrap().local_mod.filename))
            ==> transfer_steps(r, src_folder, dst_folder).len() == 1,
        r.kind == DiscrepancyKind::ServerOnly ==> transfer_steps(r, src_folder, dst_folder) == seq![
            RemoteStep::Delete { remote_path: dst_folder + "/"@ + r.server_mod.unwrap().local_mod.filename },
        ],
{
}

/// Client-to-server steps of one record: a mismatch whose server jar has
/// another name first deletes that jar; a mismatch or a missing mod then
/// uploads the client jar from its local path to the same name in the
/// folder; an extra deletes the server jar; nothing else happens.
pub proof fn law_resolve_steps(r: DiscrepancyView, folder: Seq<char>)
    requires
        record_wf(r),
    ensures
        r.kind != DiscrepancyKind::ServerOnly ==> resolve_steps(r, folder).len() >= 1
            && resolve_steps(r, folder).last() == (RemoteStep::Upload {
            local_path: r.client_mod.unwrap().local_mod.filepath,
            remote_path: folder + "/"@ + r.client_mod.unwrap().local_mod.filename,
        }),
        (r.kind == DiscrepancyKind::Mismatch && r.server_mod.unwrap().local_mod.filename
            != r.client_mod.unwrap().local_mod.filename) ==> resolve_steps(r, folder).len() == 2
            && resolve_steps(r, folder)[0] == (RemoteStep::Delete {
            remote_path: folder + "/"@ + r.server_mod.unwrap().local_mod.filename,
        }),
        (r.kind == DiscrepancyKind::ClientOnly || (r.kind == DiscrepancyKind::Mismatch
            && r.server_mod.unwrap().local_mod.filename == r.client_mod.unwrap().local_mod.filename))
            ==> resolve_steps(r, folder).len() == 1,
        r.kind == DiscrepancyKind::ServerOnly ==> resolve_steps(r, folder) == seq![
            RemoteStep::Delete { remote_path: folder + "/"@ + r.server_mod.unwrap().local_mod.filename },
        ],
{
}

/// The server-to-server plan is the records' steps one record after another.
pub proof fn law_transfer_plan_in_order(
    records: Seq<DiscrepancyView>,
    src_folder: Seq<char>,
    dst_folder: Seq<char>,
    k: int,
)
    requires
        0 <= k < records.len(),
    ensures
        transfer_plan(records, src_folder, dst_folder) == transfer_plan(records.take(k), src_folder, dst_folder)
            + transfer_steps(records[k], src_folder, dst_folder) + transfer_plan(
            records.skip(k + 1),
            src_folder,
            dst_folder,
        ),
    decreases records.len(),
{
    if k == records.len() - 1 {
        assert(records.take(k) =~= records.drop_last());
        assert(records.skip(k + 1) =~= Seq::<DiscrepancyView>::empty());
        assert(transfer_plan(records.skip(k + 1), src_folder, dst_folder) =~= Seq::<RemoteStep>::empty());
        assert(transfer_plan(records, src_folder, dst_folder) =~= transfer_plan(records.take(k), src_folder, dst_folder)
            + transfer_steps(records[k], src_folder, dst_folder) + seq![]);
    } else {
        let d = records.drop_last();
        law_transfer_plan_in_order(d, src_folder, dst_folder, k);
        assert(d.take(k) =~= records.take(k));
        assert(d[k] == records[k]);
        let tail = records.skip(k + 1);
        assert(tail.drop_last() =~= d.skip(k + 1));
        assert(tail.last() == records.last());
        let a = transfer_plan(records.take(k), src_folder, dst_folder);
        let b = transfer_steps(records[k], src_folder, dst_folder);
        let c = transfer_plan(d.skip(k + 1), src_folder, dst_folder);
        let e = transfer_steps(records.last(), src_folder, dst_folder);
        assert(transfer_plan(tail, src_folder, dst_folder) == c + e);
        assert(a + b + c + e =~= a + b + (c + e));
    }
}

/// The client-to-server plan is the records' steps one record after another.
pub proof fn law_resolve_plan_in_order(records: Seq<DiscrepancyView>, folder: Seq<char>, k: int)
    requires
        0 <= k < records.len(),
    ensures
        resolve_plan(records, folder) == resolve_plan(records.take(k), folder) + resolve_steps(records[k], folder)
            + resolve_plan(records.skip(k + 1), folder),
    decreases records.len(),
{
    if k == records.len() - 1 {
        assert(records.take(k) =~= records.drop_last());
        assert(records.skip(k + 1) =~= Seq::<DiscrepancyView>::empty());
        assert(resolve_plan(records.skip(k + 1), folder) =~= Seq::<RemoteStep>::empty());
        assert(resolve_plan(records, folder) =~= resolve_plan(records.take(k), folder) + resolve_steps(records[k], folder)
            + seq![]);
    } else {
        let d = records.drop_last();
        law_resolve_plan_in_order(d, folder, k);
        assert(d.take(k) =~= records.take(k));
        assert(d[k] == records[k]);
        let tail = records.skip(k + 1);
        assert(tail.drop_last() =~= d.skip(k + 1));
        assert(tail.last() == records.last());
        let a = resolve_plan(records.take(k), folder);
        let b = resolve_steps(records[k], folder);
        let c = resolve_plan(d.skip(k + 1), folder);
        let e = resolve_steps(records.last(), folder);
        assert(resolve_plan(tail, folder) == c + e);
        assert(a + b + c + e =~= a + b + (c + e));
    }
}

/// The steps that sync the selected discrepancies from one server to another.
/// In the records the source server's mod is `client_mod`, the destination's `server_mod`.
pub fn plan_sync_between_servers(
    selected: &Vec<DiscrepancyRecord>,
    src_folder: &str,
    dst_folder: &str,
) -> (plan: Vec<RemoteAction>)
    requires
        forall|i: int| 0 <= i < selected@.len() ==> record_wf(#[trigger] selected@[i]@),
    ensures
        steps_view(plan@) == transfer_plan(records_view(selected@), src_folder@, dst_folder@),
{
    let ghost rv = records_view(selected@);
    let mut plan: Vec<RemoteAction> = Vec::new();
    let mut i: usize = 0;
    while i < selected.len()
        invariant
            rv == records_view(selected@),
            forall|i: int| 0 <= i < selected@.len() ==> record_wf(#[trigger] selected@[i]@),
            i <= selected@.len(),
            steps_view(plan@) == transfer_plan(rv.take(i as int), src_folder@, dst_folder@),
        decreases selected@.len() - i,
    {
        let r = &selected[i];
        assert(rv.take(i + 1).drop_last() =~= rv.take(i as int));
        assert(rv.take(i + 1).last() == r@);
        assert(record_wf(r@));
        let ghost before = plan@;
        match r.kind {
            DiscrepancyKind::ServerOnly => {
                let sm = r.server_mod.as_ref().unwrap();
                plan.push(RemoteAction::Delete { remote_path: remote_path(dst_folder, sm.local_mod.filename.as_str()) });
            },
            _ => {
                let name = &r.client_mod.as_ref().unwrap().local_mod.filename;
                plan.push(RemoteAction::Transfer {
                    source_path: remote_path(src_folder, name.as_str()),
                    destination_path: remote_path(dst_folder, name.as_str()),
                });
                if r.kind == DiscrepancyKind::Mismatch {
                    let old = &r.server_mod.as_ref().unwrap().local_mod.filename;
                    if *old != *name {
                        plan.push(RemoteAction::Delete { remote_path: remote_path(dst_folder, old.as_str()) });
                    }
                }
            },
        }
        assert(steps_view(plan@) =~= steps_view(before) + transfer_steps(r@, src_folder@, dst_folder@));
        i = i + 1;
    }
    assert(rv.take(selected@.len() as int) =~= rv);
    plan
}

/// Updating one mod in place: download the new jar, store it under its
/// name, and delete the old jar when its name differs. `old_path` is where
/// the old jar was found.
#[derive(Debug)]
pub struct UpdateStep {
    pub download_url: String,
    pub filename: String,
    pub old_filename: Option<String>,
    pub old_path: String,
}

/// Mathematical view of an [`UpdateStep`].
pub struct UpdateView {
    pub download_url: Seq<char>,
    pub filename: Seq<char>,
    pub old_filename: Option<Seq<char>>,
    pub old_path: Seq<char>,
}

impl View for UpdateStep {
    type V = UpdateView;

    open spec fn view(&self) -> UpdateView {
        UpdateView {
            download_url: self.download_url@,
            filename: self.filename@,
            old_filename: match self.old_filename {
                Some(o) => Some(o@),
                None => None,
            },
            old_path: self.old_path@,
        }
    }
}

/// The update steps: one per mod with a known newest version, in order.
pub open spec fn update_plan(updates: Seq<ModInfoView>) -> Seq<UpdateView>
    decreases updates.len(),
{
    if updates.len() == 0 {
        seq![]
    } else {
        let rest = update_plan(updates.drop_last());
        let m = updates.last();
        match m.latest_version {
            Some(v) => rest.push(
                UpdateView {
                    download_url: v.download_url,
                    filename: v.filename,
                    old_filename: if m.local_mod.filename != v.filename {
                        Some(m.local_mod.filename)
                    } else {
                        None
                    },
                    old_path: m.local_mod.filepath,
                },
            ),
            None => rest,
        }
    }
}

/// An update never deletes the jar it installs: an old jar is deleted only
/// under another name than the new one.
pub proof fn law_update_keeps_new_jar(updates: Seq<ModInfoView>, k: int)
    requires
        0 <= k < update_plan(updates).len(),
    ensures
        update_plan(updates)[k].old_filename matches Some(o) ==> o != update_plan(updates)[k].filename,
    decreases updates.len(),
{
    if updates.len() > 0 {
        let rest = update_plan(updates.drop_last());
        if k < rest.len() {
            law_update_keeps_new_jar(updates.drop_last(), k);
            assert(update_plan(updates)[k] == rest[k]);
        }
    }
}

/// Planning one more mod adds one step exactly when its newest version is
/// known: download that version's file under its own name, delete the old
/// jar only when its name differs, the old jar being where it was found.
pub proof fn law_update_plan_step(updates: Seq<ModInfoView>, k: int)
    requires
        0 <= k < updates.len(),
    ensures
        update_plan(updates.take(k + 1)) == update_plan(updates.take(k)) + match updates[k].latest_version {
            Some(v) => seq![
                UpdateView {
                    download_url: v.download_url,
                    filename: v.filename,
                    old_filename: if updates[k].local_mod.filename == v.filename {
                        None
                    } else {
                        Some(updates[k].local_mod.filename)
                    },
                    old_path: updates[k].local_mod.filepath,
                },
            ],
            None => Seq::<UpdateView>::empty(),
        },
{
    let t = updates.take(k + 1);
    assert(t.drop_last() =~= updates.take(k));
    assert(t.last() == updates[k]);
    let rest = update_plan(updates.take(k));
    match updates[k].latest_version {
        Some(v) => {
            assert(update_plan(t) =~= rest + seq![update_plan(t).last()]);
        },
        None => {
            assert(update_plan(t) =~= rest + Seq::<UpdateView>::empty());
        },
    }
}

/// Views of update steps.
pub open spec fn updates_view(s: Seq<UpdateStep>) -> Seq<UpdateView> {
    s.map_values(|u: UpdateStep| u@)
}

/// The steps that update the selected mods (mods without a newer version are skipped).
pub fn plan_updates(updates: &Vec<ModInfo>) -> (plan: Vec<UpdateStep>)
    ensures
        updates_view(plan@) == update_plan(infos_view(updates@)),
{
    let ghost uv = infos_view(updates@);
    let mut plan: Vec<UpdateStep> = Vec::new();
    let mut i: usize = 0;
    while i < updates.len()
        invariant
            uv == infos_view(updates@),
            i <= updates@.len(),
            updates_view(plan@) == update_plan(uv.take(i as int)),
        decreases updates@.len() - i,
    {
        let m = &updates[i];
        assert(uv.take(i + 1).drop_last() =~= uv.take(i as int));
        assert(uv.take(i + 1).last() == m@);
        let ghost before = plan@;
        match &m.latest_version {
            Some(v) => {
                let old = if m.local_mod.filename != v.filename {
                    Some(m.local_mod.filename.clone())
                } else {
                    None
                };
                let step = UpdateStep {
                    download_url: v.download_url.clone(),
                    filename: v.filename.clone(),
                    old_filename: old,
                    old_path: m.local_mod.filepath.clone(),
                };
                plan.push(step);
                assert(updates_view(plan@) =~= updates_view(before).push(step@));
            },
            None => {},
        }
        i = i + 1;
    }
    assert(uv.take(updates@.len() as int) =~= uv);
    plan
}

} // verus!
