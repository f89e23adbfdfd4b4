use mc_mod_updater::models::{DiscrepancyKind, DiscrepancyRecord, LocalMod, ModInfo, ModSource, ModVersion, Side};
use mc_mod_updater::plan::{
    plan_resolve_discrepancies, plan_sync_between_servers, plan_updates, record_is_wellformed,
    remote_path, RemoteAction,
};
use mc_mod_updater::transfer::{chunks, jar_names, packet_lengths, wants_limits};

fn version(id: &str, filename: &str) -> ModVersion {
    ModVersion {
        version_id: id.to_string(),
        version_number: id.to_string(),
        filename: filename.to_string(),
        download_url: format!("https://cdn.example/{filename}"),
        game_versions: Vec::new(),
        loaders: Vec::new(),
        source: ModSource::Modrinth,
    }
}

fn info(filename: &str, latest: Option<&str>) -> ModInfo {
    ModInfo {
        project_id: "p".to_string(),
        project_name: "P".to_string(),
        current_version: version("v1", filename),
        latest_version: latest.map(|f| version("v2", f)),
        local_mod: LocalMod {
            filename: filename.to_string(),
            filepath: format!("/home/me/mods/{filename}"),
            sha512: "h".to_string(),
            murmur2: None,
        },
        source: ModSource::Modrinth,
        side: Side::Both,
    }
}

fn record(kind: DiscrepancyKind, client: Option<&str>, server: Option<&str>) -> DiscrepancyRecord {
    DiscrepancyRecord {
        project_id: "p".to_string(),
        project_name: "P".to_string(),
        kind,
        client_mod: client.map(|f| info(f, None)),
        server_mod: server.map(|f| info(f, None)),
    }
}

#[test]
fn remote_paths() {
    assert_eq!(remote_path("/srv/mods", "a.jar"), "/srv/mods/a.jar");
}

#[test]
fn resolve_deletes_renamed_jar_before_upload() {
    let plan = plan_resolve_discrepancies(
        &vec![
            record(DiscrepancyKind::Mismatch, Some("a-2.jar"), Some("a-1.jar")),
            record(DiscrepancyKind::Mismatch, Some("b.jar"), Some("b.jar")),
            record(DiscrepancyKind::ClientOnly, Some("c.jar"), None),
            record(DiscrepancyKind::ServerOnly, None, Some("d.jar")),
        ],
        "/srv",
    );
    assert_eq!(plan.len(), 5);
    assert!(matches!(&plan[0], RemoteAction::Delete { remote_path } if remote_path == "/srv/a-1.jar"));
    assert!(matches!(&plan[1], RemoteAction::Upload { local_path, remote_path } if local_path == "/home/me/mods/a-2.jar" && remote_path == "/srv/a-2.jar"));
    assert!(matches!(&plan[2], RemoteAction::Upload { remote_path, .. } if remote_path == "/srv/b.jar"));
    assert!(matches!(&plan[3], RemoteAction::Upload { remote_path, .. } if remote_path == "/srv/c.jar"));
    assert!(matches!(&plan[4], RemoteAction::Delete { remote_path } if remote_path == "/srv/d.jar"));
}

#[test]
fn server_to_server_transfers_before_deleting() {
    let plan = plan_sync_between_servers(
        &vec![
            record(DiscrepancyKind::Mismatch, Some("a-2.jar"), Some("a-1.jar")),
            record(DiscrepancyKind::ServerOnly, None, Some("d.jar")),
        ],
        "/src",
        "/dst",
    );
    assert_eq!(plan.len(), 3);
    assert!(matches!(&plan[0], RemoteAction::Transfer { source_path, destination_path } if source_path == "/src/a-2.jar" && destination_path == "/dst/a-2.jar"));
    assert!(matches!(&plan[1], RemoteAction::Delete { remote_path } if remote_path == "/dst/a-1.jar"));
    assert!(matches!(&plan[2], RemoteAction::Delete { remote_path } if remote_path == "/dst/d.jar"));
}

#[test]
fn wellformedness_of_records() {
    assert!(record_is_wellformed(&record(DiscrepancyKind::Mismatch, Some("a"), Some("b"))));
    assert!(!record_is_wellformed(&record(DiscrepancyKind::Mismatch, Some("a"), None)));
    assert!(!record_is_wellformed(&record(DiscrepancyKind::ClientOnly, None, None)));
    assert!(!record_is_wellformed(&record(DiscrepancyKind::ServerOnly, Some("a"), None)));
}

#[test]
fn update_plan_skips_mods_without_update_and_keeps_new_jar() {
    let plan = plan_updates(&vec![info("a-1.jar", Some("a-2.jar")), info("b.jar", None), info("c.jar", Some("c.jar"))]);
    assert_eq!(plan.len(), 2);
    assert_eq!(plan[0].download_url, "https://cdn.example/a-2.jar");
    assert_eq!(plan[0].filename, "a-2.jar");
    assert_eq!(plan[0].old_filename.as_deref(), Some("a-1.jar"));
    assert_eq!(plan[1].filename, "c.jar");
    assert_eq!(plan[1].old_filename, None);
}

#[test]
fn packet_lengths_defaults_and_caps() {
    assert_eq!(packet_lengths(None, None), (32759, 32747));
    assert_eq!(packet_lengths(Some(0), Some(0)), (32759, 32747));
    assert_eq!(packet_lengths(Some(1000), Some(2000)), (1000, 2000));
    assert_eq!(packet_lengths(Some(1 << 30), Some(1 << 30)), (262135, 262123));
    assert!(wants_limits(Some("1")));
    assert!(!wants_limits(Some("2")));
    assert!(!wants_limits(None));
}

#[test]
fn chunks_tile_the_file() {
    assert_eq!(chunks(10, 4), vec![(0, 4), (4, 4), (8, 2)]);
    assert_eq!(chunks(8, 4), vec![(0, 4), (4, 4)]);
    assert_eq!(chunks(0, 4), Vec::<(u64, u64)>::new());
    assert_eq!(chunks(3, 100), vec![(0, 3)]);
}

#[test]
fn listing_keeps_only_jars() {
    let names = vec!["a.jar".to_string(), "readme.txt".to_string(), "b.JAR".to_string(), "c.jar".to_string()];
    assert_eq!(jar_names(&names), vec!["a.jar", "c.jar"]);
}
