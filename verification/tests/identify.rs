use mc_mod_updater::models::{LocalMod, ModInfo, ModSource, ModVersion, Side, UnknownMod};
use mc_mod_updater::updater::{
    assemble_result, classify_mods, curseforge_fingerprints, curseforge_mod_ids, match_curseforge,
    modrinth_hashes, modrinth_project_ids, LatestQuery,
};

fn local(name: &str, sha: &str, fp: Option<u32>) -> LocalMod {
    LocalMod {
        filename: name.to_string(),
        filepath: format!("/mods/{name}"),
        sha512: sha.to_string(),
        murmur2: fp,
    }
}

fn version(id: &str, filename: &str, source: ModSource) -> ModVersion {
    ModVersion {
        version_id: id.to_string(),
        version_number: id.to_string(),
        filename: filename.to_string(),
        download_url: format!("https://cdn.example/{filename}"),
        game_versions: Vec::new(),
        loaders: Vec::new(),
        source,
    }
}

#[test]
fn hashes_and_fingerprints_to_ask_for() {
    let mods = vec![local("a.jar", "ha", Some(1)), local("b.jar", "hb", None), local("c.jar", "hc", Some(3))];
    assert_eq!(modrinth_hashes(&mods), vec!["ha", "hb", "hc"]);
    assert_eq!(curseforge_fingerprints(&mods), vec![1, 3]);
}

#[test]
fn curseforge_matches_are_keyed_by_hash() {
    let mods = vec![local("a.jar", "ha", Some(1)), local("b.jar", "hb", Some(2)), local("c.jar", "ha", Some(1))];
    let cf = vec![(1u32, ("100".to_string(), version("f1", "a.jar", ModSource::CurseForge)))];
    let by_sha = match_curseforge(&mods, &cf);
    assert_eq!(by_sha.len(), 1);
    assert_eq!(by_sha[0].0, "ha");
    assert_eq!(by_sha[0].1 .0, "100");
}

#[test]
fn project_ids_skip_projects_curseforge_named() {
    let mr = vec![
        ("ha".to_string(), ("P1".to_string(), version("m1", "a.jar", ModSource::Modrinth))),
        ("hb".to_string(), ("P2".to_string(), version("m2", "b.jar", ModSource::Modrinth))),
    ];
    let cf = vec![("hx".to_string(), ("P1".to_string(), version("f1", "x.jar", ModSource::CurseForge)))];
    assert_eq!(modrinth_project_ids(&mr, &cf), vec!["P2"]);
}

#[test]
fn curseforge_ids_that_are_numbers() {
    let cf = vec![
        ("ha".to_string(), ("123".to_string(), version("f1", "a.jar", ModSource::CurseForge))),
        ("hb".to_string(), ("abc".to_string(), version("f2", "b.jar", ModSource::CurseForge))),
        ("hc".to_string(), ("4294967296".to_string(), version("f3", "c.jar", ModSource::CurseForge))),
        ("hd".to_string(), ("7".to_string(), version("f4", "d.jar", ModSource::CurseForge))),
    ];
    assert_eq!(curseforge_mod_ids(&cf), vec![123, 7]);
}

#[test]
fn curseforge_first_then_modrinth_then_unknown() {
    let mods = vec![local("a.jar", "ha", Some(1)), local("b.jar", "hb", Some(2)), local("c.jar", "hc", None)];
    let cf_by_sha = vec![("ha".to_string(), ("55".to_string(), version("f1", "a.jar", ModSource::CurseForge)))];
    let mr = vec![
        ("ha".to_string(), ("PA".to_string(), version("m1", "a.jar", ModSource::Modrinth))),
        ("hb".to_string(), ("PB".to_string(), version("m2", "b.jar", ModSource::Modrinth))),
    ];
    let projects = vec![("PB".to_string(), ("Beta".to_string(), Side::ServerOnly))];
    let names = vec![(55u32, "Alpha".to_string())];
    let (pending, unknown) = classify_mods(&mods, &cf_by_sha, &mr, &projects, &names);
    assert_eq!(pending.len(), 2);
    assert_eq!(unknown.len(), 1);
    assert_eq!(unknown[0].local_mod.filename, "c.jar");
    assert_eq!(pending[0].source, ModSource::CurseForge);
    assert_eq!(pending[0].project_name, "Alpha");
    assert_eq!(pending[0].side, Side::Both);
    assert_eq!(pending[0].cf_mod_id, Some(55));
    assert_eq!(pending[0].latest_query(true), LatestQuery::CurseForge { mod_id: 55 });
    assert_eq!(pending[0].latest_query(false), LatestQuery::NoQuery);
    assert_eq!(pending[1].source, ModSource::Modrinth);
    assert_eq!(pending[1].project_name, "Beta");
    assert_eq!(pending[1].side, Side::ServerOnly);
    assert_eq!(pending[1].cf_mod_id, None);
    assert_eq!(pending[1].latest_query(true), LatestQuery::Modrinth);
}

#[test]
fn names_fall_back_to_file_names() {
    let mods = vec![local("a.jar", "ha", Some(1)), local("b.jar", "hb", None)];
    let cf_by_sha = vec![("ha".to_string(), ("x".to_string(), version("f1", "a-file.jar", ModSource::CurseForge)))];
    let mr = vec![("hb".to_string(), ("PB".to_string(), version("m2", "b-file.jar", ModSource::Modrinth)))];
    let (pending, _) = classify_mods(&mods, &cf_by_sha, &mr, &Vec::new(), &Vec::new());
    assert_eq!(pending[0].project_name, "a-file.jar");
    assert_eq!(pending[0].cf_mod_id, Some(0));
    assert_eq!(pending[1].project_name, "b-file.jar");
    assert_eq!(pending[1].side, Side::Both);
}

#[test]
fn result_sorted_by_lowercase_name() {
    let mods = vec![local("a.jar", "ha", None), local("b.jar", "hb", None)];
    let mr = vec![
        ("ha".to_string(), ("PA".to_string(), version("m1", "a.jar", ModSource::Modrinth))),
        ("hb".to_string(), ("PB".to_string(), version("m2", "b.jar", ModSource::Modrinth))),
    ];
    let projects = vec![
        ("PA".to_string(), ("zinc".to_string(), Side::Both)),
        ("PB".to_string(), ("Apple".to_string(), Side::Both)),
    ];
    let (pending, unknown) = classify_mods(&mods, &Vec::new(), &mr, &projects, &Vec::new());
    let known: Vec<ModInfo> = pending
        .into_iter()
        .map(|p| {
            let latest = Some(version("new", "new.jar", ModSource::Modrinth));
            p.into_mod_info(latest)
        })
        .collect();
    let unknown: Vec<UnknownMod> = unknown;
    let result = assemble_result(known, unknown);
    assert_eq!(result.known[0].project_name, "Apple");
    assert_eq!(result.known[1].project_name, "zinc");
    assert!(result.known[0].has_update());
    assert!(result.unknown.is_empty());
}
