use mc_mod_updater::models::{DiscrepancyKind, LocalMod, ModInfo, ModSource, ModVersion, Side};
use mc_mod_updater::sync::compare_mod_sets;

fn version(id: &str, filename: &str) -> ModVersion {
    ModVersion {
        version_id: id.to_string(),
        version_number: format!("v-{id}"),
        filename: filename.to_string(),
        download_url: format!("https://cdn.example/{filename}"),
        game_versions: vec!["1.21.1".to_string()],
        loaders: vec!["fabric".to_string()],
        source: ModSource::Modrinth,
    }
}

fn info(pid: &str, name: &str, sha: &str, vid: &str, filename: &str, side: Side) -> ModInfo {
    ModInfo {
        project_id: pid.to_string(),
        project_name: name.to_string(),
        current_version: version(vid, filename),
        latest_version: None,
        local_mod: LocalMod {
            filename: filename.to_string(),
            filepath: format!("/mods/{filename}"),
            sha512: sha.to_string(),
            murmur2: Some(1),
        },
        source: ModSource::Modrinth,
        side,
    }
}

#[test]
fn identical_sets_are_in_sync() {
    let mods = vec![
        info("a", "Alpha", "h1", "v1", "alpha.jar", Side::Both),
        info("b", "Beta", "h2", "v2", "beta.jar", Side::ServerOnly),
    ];
    assert!(compare_mod_sets(&mods, &mods, &Vec::new(), true).is_empty());
    assert!(compare_mod_sets(&mods, &mods, &Vec::new(), false).is_empty());
}

#[test]
fn different_version_is_a_mismatch() {
    let client = vec![info("a", "Alpha", "h1", "v2", "alpha-2.jar", Side::Both)];
    let server = vec![info("a", "Alpha", "h0", "v1", "alpha-1.jar", Side::Both)];
    let recs = compare_mod_sets(&client, &server, &Vec::new(), true);
    assert_eq!(recs.len(), 1);
    assert_eq!(recs[0].kind, DiscrepancyKind::Mismatch);
    assert_eq!(recs[0].project_name, "Alpha");
    assert_eq!(recs[0].client_mod.as_ref().unwrap().local_mod.filename, "alpha-2.jar");
    assert_eq!(recs[0].server_mod.as_ref().unwrap().local_mod.filename, "alpha-1.jar");
}

#[test]
fn same_file_identified_differently_is_in_sync() {
    // same sha512, different version ids (identified through different services)
    let client = vec![info("a", "Alpha", "same", "mr-1", "alpha.jar", Side::Both)];
    let server = vec![info("a", "Alpha", "same", "cf-9", "alpha.jar", Side::Both)];
    assert!(compare_mod_sets(&client, &server, &Vec::new(), true).is_empty());
    // same version id, different files
    let server2 = vec![info("a", "Alpha", "other", "mr-1", "alpha-copy.jar", Side::Both)];
    assert!(compare_mod_sets(&client, &server2, &Vec::new(), true).is_empty());
}

#[test]
fn client_only_mods_are_never_pushed() {
    let client = vec![info("m", "Minimap", "h1", "v1", "minimap.jar", Side::ClientOnly)];
    let server: Vec<ModInfo> = Vec::new();
    assert!(compare_mod_sets(&client, &server, &Vec::new(), true).is_empty());
}

#[test]
fn missing_mod_is_client_only_record() {
    let client = vec![info("a", "Alpha", "h1", "v1", "alpha.jar", Side::Both)];
    let server: Vec<ModInfo> = Vec::new();
    let recs = compare_mod_sets(&client, &server, &Vec::new(), true);
    assert_eq!(recs.len(), 1);
    assert_eq!(recs[0].kind, DiscrepancyKind::ClientOnly);
    assert!(recs[0].server_mod.is_none());
}

#[test]
fn unidentified_server_copy_is_not_missing() {
    let client = vec![info("a", "Alpha", "h1", "v1", "alpha.jar", Side::Both)];
    let server: Vec<ModInfo> = Vec::new();
    let unknown = vec!["h1".to_string()];
    assert!(compare_mod_sets(&client, &server, &unknown, true).is_empty());
}

#[test]
fn stale_duplicates_are_flagged_for_deletion() {
    let client = vec![info("a", "Alpha", "h2", "v2", "alpha-2.jar", Side::Both)];
    let server = vec![
        info("a", "Alpha", "h1", "v1", "alpha-1.jar", Side::Both),
        info("a", "Alpha", "h2", "v2", "alpha-2.jar", Side::Both),
    ];
    let recs = compare_mod_sets(&client, &server, &Vec::new(), true);
    assert_eq!(recs.len(), 1);
    assert_eq!(recs[0].kind, DiscrepancyKind::ServerOnly);
    assert_eq!(recs[0].project_name, "Alpha (duplicate: alpha-1.jar)");
    assert_eq!(recs[0].server_mod.as_ref().unwrap().local_mod.filename, "alpha-1.jar");
}

#[test]
fn mismatch_with_extra_duplicates() {
    let client = vec![info("a", "Alpha", "h3", "v3", "alpha-3.jar", Side::Both)];
    let server = vec![
        info("a", "Alpha", "h1", "v1", "alpha-1.jar", Side::Both),
        info("a", "Alpha", "h2", "v2", "alpha-2.jar", Side::Both),
    ];
    let recs = compare_mod_sets(&client, &server, &Vec::new(), true);
    assert_eq!(recs.len(), 2);
    assert_eq!(recs[0].kind, DiscrepancyKind::Mismatch);
    assert_eq!(recs[0].server_mod.as_ref().unwrap().local_mod.filename, "alpha-1.jar");
    assert_eq!(recs[1].kind, DiscrepancyKind::ServerOnly);
    assert_eq!(recs[1].project_name, "Alpha (duplicate: alpha-2.jar)");
}

#[test]
fn server_only_extras_depend_on_the_source() {
    let client: Vec<ModInfo> = Vec::new();
    let server = vec![
        info("s", "Server Tool", "h1", "v1", "tool.jar", Side::ServerOnly),
        info("x", "Extra", "h2", "v2", "extra.jar", Side::Both),
    ];
    let against_client = compare_mod_sets(&client, &server, &Vec::new(), true);
    assert_eq!(against_client.len(), 1);
    assert_eq!(against_client[0].project_id, "x");
    assert_eq!(against_client[0].kind, DiscrepancyKind::ServerOnly);
    let against_server = compare_mod_sets(&client, &server, &Vec::new(), false);
    assert_eq!(against_server.len(), 2);
}

#[test]
fn records_sorted_by_lowercase_name() {
    let client = vec![
        info("z", "zeta", "h1", "v1", "z.jar", Side::Both),
        info("b", "Beta", "h2", "v2", "b.jar", Side::Both),
        info("a", "alpha", "h3", "v3", "a.jar", Side::Both),
    ];
    let server: Vec<ModInfo> = Vec::new();
    let recs = compare_mod_sets(&client, &server, &Vec::new(), true);
    let names: Vec<&str> = recs.iter().map(|r| r.project_name.as_str()).collect();
    assert_eq!(names, vec!["alpha", "Beta", "zeta"]);
}

#[test]
fn extras_of_one_project_stay_together() {
    let client: Vec<ModInfo> = Vec::new();
    let server = vec![
        info("p", "Pack", "h1", "v1", "p1.jar", Side::Both),
        info("q", "Other", "h2", "v2", "q.jar", Side::Both),
        info("p", "Pack", "h3", "v3", "p2.jar", Side::Both),
    ];
    let recs = compare_mod_sets(&client, &server, &Vec::new(), false);
    let files: Vec<&str> = recs
        .iter()
        .map(|r| r.server_mod.as_ref().unwrap().local_mod.filename.as_str())
        .collect();
    assert_eq!(files, vec!["q.jar", "p1.jar", "p2.jar"]);
}
