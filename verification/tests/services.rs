use mc_mod_updater::curseforge::{
    latest_file_url, loader_id, parse_cf_file, versions_by_fingerprint, CfFile, CfFingerprintMatch,
};
use mc_mod_updater::models::{ModSource, Side};
use mc_mod_updater::modrinth::{
    latest_version, latest_version_url, parse_side, parse_version, projects_by_id, projects_url,
    retry_delay, versions_by_hash, MrProject, MrVersion, MrVersionFile, MrVersionFull,
};

fn mr_version(id: &str, files: Vec<MrVersionFile>) -> MrVersion {
    MrVersion {
        id: id.to_string(),
        version_number: format!("{id}.0"),
        files,
        game_versions: vec!["1.21.1".to_string()],
        loaders: vec!["fabric".to_string()],
    }
}

fn file(name: &str, algos: &[&str]) -> MrVersionFile {
    MrVersionFile {
        hash_algorithms: algos.iter().map(|s| s.to_string()).collect(),
        url: format!("https://cdn.modrinth.com/{name}"),
        filename: name.to_string(),
    }
}

#[test]
fn sides_from_support() {
    assert_eq!(parse_side("required", "unsupported"), Side::ClientOnly);
    assert_eq!(parse_side("unsupported", "required"), Side::ServerOnly);
    assert_eq!(parse_side("unsupported", "unsupported"), Side::ClientOnly);
    assert_eq!(parse_side("optional", "required"), Side::Both);
}

#[test]
fn version_uses_first_file_with_sha512() {
    let v = mr_version("abc", vec![file("x.jar", &["sha1"]), file("y.jar", &["sha1", "sha512"]), file("z.jar", &["sha512"])]);
    let mv = parse_version(&v).unwrap();
    assert_eq!(mv.version_id, "abc");
    assert_eq!(mv.filename, "y.jar");
    assert_eq!(mv.download_url, "https://cdn.modrinth.com/y.jar");
    assert_eq!(mv.source, ModSource::Modrinth);
    let none = mr_version("abc", vec![file("x.jar", &["sha1"])]);
    assert!(parse_version(&none).is_none());
}

#[test]
fn newest_version_is_the_first_listed() {
    let versions = vec![mr_version("new", vec![file("n.jar", &["sha512"])]), mr_version("old", vec![file("o.jar", &["sha512"])])];
    assert_eq!(latest_version(&versions).unwrap().version_id, "new");
    assert!(latest_version(&Vec::new()).is_none());
}

#[test]
fn hash_table_skips_versions_without_sha512() {
    let data = vec![
        ("h1".to_string(), MrVersionFull { project_id: "P1".to_string(), version: mr_version("a", vec![file("a.jar", &["sha512"])]) }),
        ("h2".to_string(), MrVersionFull { project_id: "P2".to_string(), version: mr_version("b", vec![file("b.jar", &["sha1"])]) }),
    ];
    let table = versions_by_hash(&data);
    assert_eq!(table.len(), 1);
    assert_eq!(table[0].0, "h1");
    assert_eq!(table[0].1 .0, "P1");
}

#[test]
fn project_table_carries_sides() {
    let projects = vec![MrProject {
        id: "P".to_string(),
        title: "Sodium".to_string(),
        client_side: "required".to_string(),
        server_side: "unsupported".to_string(),
    }];
    let table = projects_by_id(&projects);
    assert_eq!(table, vec![("P".to_string(), ("Sodium".to_string(), Side::ClientOnly))]);
}

#[test]
fn modrinth_urls() {
    assert_eq!(
        latest_version_url("AANobbMI", "1.21.1", "fabric"),
        "https://api.modrinth.com/v2/project/AANobbMI/version?game_versions=[\"1.21.1\"]&loaders=[\"fabric\"]"
    );
    assert_eq!(
        projects_url(&vec!["a".to_string(), "b".to_string()]).unwrap(),
        "https://api.modrinth.com/v2/projects?ids=[\"a\",\"b\"]"
    );
}

#[test]
fn rate_limit_retries() {
    assert_eq!(retry_delay(429, Some("5")), Some(5));
    assert_eq!(retry_delay(429, Some("soon")), Some(1));
    assert_eq!(retry_delay(429, None), Some(1));
    assert_eq!(retry_delay(200, Some("5")), None);
    assert_eq!(retry_delay(404, None), None);
}

fn cf_file(id: u32, url: Option<&str>, tags: &[&str], fp: u64) -> CfFile {
    CfFile {
        id,
        display_name: format!("Mod {id}"),
        file_name: format!("mod-{id}.jar"),
        download_url: url.map(|u| u.to_string()),
        game_versions: tags.iter().map(|s| s.to_string()).collect(),
        file_fingerprint: fp,
    }
}

#[test]
fn curseforge_loader_ids() {
    assert_eq!(loader_id("forge"), 1);
    assert_eq!(loader_id("fabric"), 4);
    assert_eq!(loader_id("quilt"), 5);
    assert_eq!(loader_id("neoforge"), 6);
    assert_eq!(loader_id("Fabric"), 0);
    assert_eq!(loader_id("rift"), 0);
}

#[test]
fn curseforge_file_splits_versions_and_loaders() {
    let f = cf_file(4711, Some("https://edge.forgecdn.net/x.jar"), &["1.21.1", "NeoForge", "1.21", "Client"], 9);
    let mv = parse_cf_file(&f).unwrap();
    assert_eq!(mv.version_id, "4711");
    assert_eq!(mv.version_number, "Mod 4711");
    assert_eq!(mv.game_versions, vec!["1.21.1", "1.21"]);
    assert_eq!(mv.loaders, vec!["neoforge", "client"]);
    assert_eq!(mv.source, ModSource::CurseForge);
    assert!(parse_cf_file(&cf_file(1, None, &[], 0)).is_none());
}

#[test]
fn fingerprint_table_truncates_to_32_bits() {
    let matches = vec![
        CfFingerprintMatch { id: 300, file: cf_file(1, Some("u"), &[], 0x1_0000_0005) },
        CfFingerprintMatch { id: 301, file: cf_file(2, None, &[], 7) },
    ];
    let table = versions_by_fingerprint(&matches);
    assert_eq!(table.len(), 1);
    assert_eq!(table[0].0, 5);
    assert_eq!(table[0].1 .0, "300");
}

#[test]
fn curseforge_file_url() {
    assert_eq!(
        latest_file_url(238222, "1.21.1", "neoforge"),
        "https://api.curseforge.com/v1/mods/238222/files?gameVersion=1.21.1&modLoaderType=6&pageSize=1"
    );
}
