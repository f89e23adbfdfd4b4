use mc_mod_updater::app::{all_selected, curseforge_setting, selectable_indices, set_selection, AppModel};
use mc_mod_updater::modrinth::projects_url;
use mc_mod_updater::local_mods::sort_by_filename;
use mc_mod_updater::models::{DiscrepancyKind, DiscrepancyRecord, LocalMod};
use mc_mod_updater::state::AppState;
use mc_mod_updater::transfer::assemble_pieces;

fn jar(name: &str, sha: &str) -> LocalMod {
    LocalMod { filename: name.to_string(), filepath: format!("/mods/{name}"), sha512: sha.to_string(), murmur2: None }
}

fn record(pid: &str) -> DiscrepancyRecord {
    DiscrepancyRecord {
        project_id: pid.to_string(),
        project_name: pid.to_string(),
        kind: DiscrepancyKind::ServerOnly,
        client_mod: None,
        server_mod: None,
    }
}

#[test]
fn remote_jars_sorted_by_filename_stably() {
    let mods = vec![jar("b.jar", "1"), jar("a.jar", "2"), jar("B.jar", "3"), jar("a.jar", "4")];
    let sorted = sort_by_filename(mods);
    let names: Vec<(&str, &str)> = sorted.iter().map(|m| (m.filename.as_str(), m.sha512.as_str())).collect();
    assert_eq!(names, vec![("B.jar", "3"), ("a.jar", "2"), ("a.jar", "4"), ("b.jar", "1")]);
}

#[test]
fn pieces_assemble_in_any_order() {
    let pieces = vec![(3u64, vec![4u8, 5]), (0u64, vec![1u8, 2, 3])];
    assert_eq!(assemble_pieces(5, &pieces), Some(vec![1, 2, 3, 4, 5]));
}

#[test]
fn short_read_gives_none() {
    let pieces = vec![(0u64, vec![1u8, 2, 3]), (3u64, vec![4u8])];
    assert_eq!(assemble_pieces(5, &pieces), None);
}

#[test]
fn empty_file_assembles_to_nothing() {
    assert_eq!(assemble_pieces(0, &Vec::new()), Some(Vec::new()));
}

#[test]
fn select_all_skips_blacklisted_rows() {
    let disc = vec![record("a"), record("b"), record("c")];
    let mut state = AppState::new();
    state.toggle_blacklist("b", "B");
    let idxs = vec![0usize, 1, 2];
    let selectable = selectable_indices(&disc, &idxs, &state);
    assert_eq!(selectable, vec![0, 2]);
    let mut sel = vec![true, false, false];
    assert!(!all_selected(&sel, &selectable));
    set_selection(&mut sel, &selectable, true);
    assert_eq!(sel, vec![true, false, true]);
    assert!(all_selected(&sel, &selectable));
    set_selection(&mut sel, &selectable, false);
    assert_eq!(sel, vec![false, false, false]);
    assert!(!all_selected(&sel, &Vec::new()));
}

#[test]
fn comparison_kept_with_every_row_selected() {
    let mut m = AppModel::new(2);
    m.set_s2s_comparison(vec![record("a"), record("b")]);
    assert_eq!(m.s2s_disc.len(), 2);
    assert_eq!(m.s2s_sel, vec![true, true]);
}

#[test]
fn saving_settings_resets_server_tabs() {
    let mut m = AppModel::new(1);
    m.set_s2s_comparison(vec![record("a")]);
    m.push_log("kept".to_string());
    m.reset_servers(3);
    assert_eq!(m.servers.len(), 3);
    assert!(m.servers.iter().all(|p| p.result.is_none() && p.discrepancies.is_empty()));
    assert!(m.s2s_disc.is_empty());
    assert!(m.s2s_sel.is_empty());
    assert_eq!(m.log, vec!["kept".to_string()]);
}

#[test]
fn curseforge_key_trims_unicode_whitespace() {
    assert_eq!(curseforge_setting("\u{3000}\u{a0}key\u{2009}\t").unwrap().api_key, "key");
    assert!(curseforge_setting("\u{85}\u{2028}").is_none());
}

#[test]
fn project_lookup_url_always_encodes() {
    assert_eq!(
        projects_url(&vec!["a\"b".to_string()]).unwrap(),
        "https://api.modrinth.com/v2/projects?ids=[\"a\\\"b\"]"
    );
    assert_eq!(projects_url(&Vec::new()).unwrap(), "https://api.modrinth.com/v2/projects?ids=[]");
}
