use mc_mod_updater::app::{
    clamp_server_pair, curseforge_setting, default_config, kind_indices, new_server, push_log,
    selected_records, selected_updates, server_label, unselect_blacklisted, updatable_indices,
    AppModel, Msg,
};
use mc_mod_updater::models::{DiscrepancyKind, DiscrepancyRecord, LocalMod, ModInfo, ModSource, ModVersion, Side};
use mc_mod_updater::state::AppState;
use mc_mod_updater::updater::IdentifyResult;

fn version(id: &str) -> ModVersion {
    ModVersion {
        version_id: id.to_string(),
        version_number: id.to_string(),
        filename: format!("{id}.jar"),
        download_url: String::new(),
        game_versions: Vec::new(),
        loaders: Vec::new(),
        source: ModSource::Modrinth,
    }
}

fn info(pid: &str, latest: Option<&str>) -> ModInfo {
    ModInfo {
        project_id: pid.to_string(),
        project_name: pid.to_uppercase(),
        current_version: version("v1"),
        latest_version: latest.map(version),
        local_mod: LocalMod { filename: format!("{pid}.jar"), filepath: String::new(), sha512: String::new(), murmur2: None },
        source: ModSource::Modrinth,
        side: Side::Both,
    }
}

fn record(pid: &str, kind: DiscrepancyKind) -> DiscrepancyRecord {
    DiscrepancyRecord { project_id: pid.to_string(), project_name: pid.to_string(), kind, client_mod: None, server_mod: None }
}

#[test]
fn toggle_flips_and_restores() {
    let mut s = AppState::new();
    assert!(!s.is_blacklisted("p"));
    s.toggle_blacklist("p", "Pname");
    assert!(s.is_blacklisted("p"));
    s.toggle_blacklist("p", "Pname");
    assert!(!s.is_blacklisted("p"));
    assert!(s.blacklist().is_empty());
}

#[test]
fn toggle_is_local_and_ordered() {
    let mut s = AppState::new();
    s.toggle_blacklist("zz", "Z");
    s.toggle_blacklist("aa", "A");
    s.toggle_blacklist("mm", "M");
    let ids: Vec<&str> = s.blacklist().iter().map(|e| e.0.as_str()).collect();
    assert_eq!(ids, vec!["aa", "mm", "zz"]);
    s.toggle_blacklist("mm", "M");
    assert!(s.is_blacklisted("aa"));
    assert!(s.is_blacklisted("zz"));
    assert!(!s.is_blacklisted("mm"));
}

#[test]
fn state_from_entries_later_wins() {
    let s = AppState::from_entries(&vec![("b".to_string(), "B1".to_string()), ("a".to_string(), "A".to_string()), ("b".to_string(), "B2".to_string())]);
    let entries: Vec<(String, String)> = s.blacklist().clone();
    assert_eq!(entries, vec![("a".to_string(), "A".to_string()), ("b".to_string(), "B2".to_string())]);
}

#[test]
fn default_configuration() {
    let c = default_config();
    assert_eq!(c.local.mods_folder, "");
    assert_eq!(c.local.minecraft_version, "1.21.1");
    assert_eq!(c.local.loader, "neoforge");
    assert!(c.curseforge.is_none());
    assert!(c.servers.is_empty());
}

#[test]
fn server_labels_and_new_servers() {
    assert_eq!(server_label("", 0), "Server 1");
    assert_eq!(server_label("", 9), "Server 10");
    assert_eq!(server_label("Survival", 3), "Survival");
    let s = new_server(2);
    assert_eq!(s.name, "Server 3");
    assert_eq!(s.port, 22);
    assert_eq!(s.remote_mods_folder, "/mods");
    assert_eq!(s.host, "");
}

#[test]
fn log_keeps_last_two_hundred_lines() {
    let mut log: Vec<String> = Vec::new();
    for i in 0..205 {
        push_log(&mut log, format!("line {i}"));
    }
    assert_eq!(log.len(), 200);
    assert_eq!(log[0], "line 5");
    assert_eq!(log[199], "line 204");
}

#[test]
fn client_scan_report_selects_updates() {
    let mut m = AppModel::new(1);
    m.busy = true;
    let res = IdentifyResult { known: vec![info("a", Some("v2")), info("b", None)], unknown: Vec::new() };
    m.apply_msg(Msg::Client(Ok(res)));
    assert!(!m.busy);
    assert_eq!(m.client_sel, vec![true, false]);
    assert_eq!(m.log.last().unwrap(), "Client scan done: 2 identified, 0 unknown, 1 update(s).");
    assert!(m.client_result.is_some());
}

#[test]
fn server_scan_report_fills_tab_and_clears_comparison() {
    let mut m = AppModel::new(2);
    m.s2s_disc.push(record("x", DiscrepancyKind::Mismatch));
    m.s2s_sel.push(true);
    let res = IdentifyResult { known: vec![info("a", Some("v2"))], unknown: Vec::new() };
    let disc = vec![record("a", DiscrepancyKind::Mismatch), record("b", DiscrepancyKind::ServerOnly)];
    m.apply_msg(Msg::Server(1, Ok((res, disc))));
    assert_eq!(m.servers[1].disc_sel, vec![true, true]);
    assert_eq!(m.servers[1].upd_sel, vec![true]);
    assert!(m.servers[0].result.is_none());
    assert!(m.s2s_disc.is_empty() && m.s2s_sel.is_empty());
    assert_eq!(m.log.last().unwrap(), "Server scan done: 1 identified, 1 update(s), 2 discrepanc(ies).");
}

#[test]
fn error_and_done_reports_are_logged() {
    let mut m = AppModel::new(0);
    m.apply_msg(Msg::Client(Err("no folder".to_string())));
    m.apply_msg(Msg::Done(Ok("Sync complete.".to_string())));
    m.apply_msg(Msg::Done(Err("boom".to_string())));
    assert_eq!(m.log, vec!["ERROR: no folder", "Sync complete.", "ERROR: boom"]);
}

#[test]
fn selections_skip_blacklisted_projects() {
    let known = vec![info("a", Some("v2")), info("b", Some("v2")), info("c", None), info("d", Some("v2"))];
    assert_eq!(updatable_indices(&known), vec![0, 1, 3]);
    let mut state = AppState::new();
    state.toggle_blacklist("b", "B");
    let chosen = selected_updates(&known, &vec![true, true, true, false], &state);
    let ids: Vec<&str> = chosen.iter().map(|m| m.project_id.as_str()).collect();
    assert_eq!(ids, vec!["a"]);
    let disc = vec![record("a", DiscrepancyKind::Mismatch), record("b", DiscrepancyKind::ClientOnly), record("c", DiscrepancyKind::Mismatch)];
    let picked = selected_records(&disc, &vec![true, true, false], &state);
    assert_eq!(picked.len(), 1);
    assert_eq!(picked[0].project_id, "a");
    assert_eq!(kind_indices(&disc, DiscrepancyKind::Mismatch), vec![0, 2]);
    let mut sel = vec![true, true, true, true];
    unselect_blacklisted(&disc, &mut sel, &state);
    assert_eq!(sel, vec![true, false, true, true]);
}

#[test]
fn server_pair_clamping() {
    assert_eq!(clamp_server_pair(0, 1, 2), (0, 1));
    assert_eq!(clamp_server_pair(5, 7, 3), (0, 2));
}

#[test]
fn curseforge_key_is_trimmed() {
    assert!(curseforge_setting("   ").is_none());
    assert!(curseforge_setting("").is_none());
    assert_eq!(curseforge_setting("  key-123\n").unwrap().api_key, "key-123");
}
