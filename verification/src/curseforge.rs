//! CurseForge answers: the loader ids of its API, how a file becomes a mod
//! version, the lookup tables that identification reads, and the request URLs.

use crate::models::{strings_view, ModSource, ModVersion, ModVersionView};
use crate::text::{
    begins_with_digit, decimal, decimal_text, law_decimal_parses_back, spec_lowercase, spec_parse_unsigned,
    starts_with_digit, text_equal, to_lowercase,
};
use crate::updater::{fingerprint_matches, mod_names};
use vstd::prelude::*;

verus! {

/// A CurseForge file.
#[derive(Debug)]
pub struct CfFile {
    pub id: u32,
    pub display_name: String,
    pub file_name: String,
    pub download_url: Option<String>,
    pub game_versions: Vec<String>,
    pub file_fingerprint: u64,
}

/// A CurseForge mod: id and name.
#[derive(Debug)]
pub struct CfMod {
    pub id: u32,
    pub name: String,
}

/// A fingerprint match: the mod id and the matching file.
#[derive(Debug)]
pub struct CfFingerprintMatch {
    pub id: u32,
    pub file: CfFile,
}

/// CurseForge's numeric id of a mod loader; 0 for an unknown loader.
pub open spec fn spec_loader_id(loader: Seq<char>) -> u32 {
    if loader == "forge"@ {
        1
    } else if loader == "fabric"@ {
        4
    } else if loader == "quilt"@ {
        5
    } else if loader == "neoforge"@ {
        6
    } else {
        0
    }
}

/// CurseForge's numeric id of a mod loader.
pub fn loader_id(loader: &str) -> (id: u32)
    ensures
        id == spec_loader_id(loader@),
{
    if text_equal(loader, "forge") {
        1
    } else if text_equal(loader, "fabric") {
        4
    } else if text_equal(loader, "quilt") {
        5
    } else if text_equal(loader, "neoforge") {
        6
    } else {
        0
    }
}

/// The game-version tags that are Minecraft versions (they begin with a digit).
pub open spec fn minecraft_versions(tags: Seq<Seq<char>>) -> Seq<Seq<char>> {
    tags.filter(|t: Seq<char>| starts_with_digit(t))
}

/// The game-version tags that name loaders (the others), in lower case.
pub open spec fn loader_tags(tags: Seq<Seq<char>>) -> Seq<Seq<char>> {
    tags.filter(|t: Seq<char>| !starts_with_digit(t)).map_values(|t: Seq<char>| spec_lowercase(t))
}

/// The mod version of a CurseForge file: none without a download URL.
pub open spec fn spec_parse_cf_file(f: CfFile) -> Option<ModVersionView> {
    match f.download_url {
        Some(url) => Some(
            ModVersionView {
                version_id: decimal(f.id as nat),
                version_number: f.display_name@,
                filename: f.file_name@,
                download_url: url@,
                game_versions: minecraft_versions(strings_view(f.game_versions@)),
                loaders: loader_tags(strings_view(f.game_versions@)),
                source: ModSource::CurseForge,
            },
        ),
        None => None,
    }
}

/// A CurseForge file gives a mod version exactly when it has a download
/// URL; the version is that file (its name and URL), marked as CurseForge's,
/// and its id reads back as the file's numeric id.
pub proof fn law_parse_cf_file(f: CfFile)
    ensures
        spec_parse_cf_file(f) is Some <==> f.download_url is Some,
        spec_parse_cf_file(f) matches Some(mv) ==> {
            &&& mv.filename == f.file_name@
            &&& mv.download_url == f.download_url.unwrap()@
            &&& mv.version_number == f.display_name@
            &&& mv.source == ModSource::CurseForge
            &&& spec_parse_unsigned(mv.version_id, u32::MAX as nat) == Some(f.id as nat)
        },
{
    law_decimal_parses_back(f.id as nat, u32::MAX as nat);
}

/// Converts a CurseForge file into a mod version, if it can be downloaded.
pub fn parse_cf_file(f: &CfFile) -> (r: Option<ModVersion>)
    ensures
        match r {
            Some(mv) => spec_parse_cf_file(*f) == Some(mv@),
            None => spec_parse_cf_file(*f) is None,
        },
{
    let url = match &f.download_url {
        Some(u) => u.clone(),
        None => return None,
    };
    let ghost tags = strings_view(f.game_versions@);
    let ghost is_mc = |t: Seq<char>| starts_with_digit(t);
    let ghost is_loader = |t: Seq<char>| !starts_with_digit(t);
    let ghost low = |t: Seq<char>| spec_lowercase(t);
    let mut loaders: Vec<String> = Vec::new();
    let mut game_versions: Vec<String> = Vec::new();
    let mut i: usize = 0;
    while i < f.game_versions.len()
        invariant
            tags == strings_view(f.game_versions@),
            is_mc == (|t: Seq<char>| starts_with_digit(t)),
            is_loader == (|t: Seq<char>| !starts_with_digit(t)),
            low == (|t: Seq<char>| spec_lowercase(t)),
            i <= tags.len(),
            strings_view(game_versions@) == tags.take(i as int).filter(is_mc),
            strings_view(loaders@) == tags.take(i as int).filter(is_loader).map_values(low),
        decreases tags.len() - i,
    {
        let t = &f.game_versions[i];
        proof {
            reveal_with_fuel(Seq::<_>::filter, 1);
            assert(tags.take(i + 1).drop_last() =~= tags.take(i as int));
            assert(tags.take(i + 1).last() == t@);
        }
        let ghost bg = game_versions@;
        let ghost bl = loaders@;
        if begins_with_digit(t.as_str()) {
            game_versions.push(t.clone());
            assert(strings_view(game_versions@) =~= strings_view(bg).push(t@));
        } else {
            loaders.push(to_lowercase(t.as_str()));
            assert(strings_view(loaders@) =~= strings_view(bl).push(spec_lowercase(t@)));
            proof {
                let fl = tags.take(i as int).filter(is_loader);
                assert(tags.take(i + 1).filter(is_loader) == fl.push(t@));
                assert(fl.push(t@).map_values(low) =~= fl.map_values(low).push(low(t@)));
            }
        }
        i = i + 1;
    }
    assert(tags.take(tags.len() as int) =~= tags);
    Some(
        ModVersion {
            version_id: decimal_text(f.id as u64),
            version_number: f.display_name.clone(),
            filename: f.file_name.clone(),
            download_url: url,
            game_versions: game_versions,
            loaders: loaders,
            source: ModSource::CurseForge,
        },
    )
}

/// The fingerprint lookup table: for each exact match whose file can be
/// downloaded, the file's fingerprint cut to 32 bits and (mod id as text,
/// version), in answer order.
pub open spec fn spec_versions_by_fingerprint(matches: Seq<CfFingerprintMatch>) -> Seq<(u32, (Seq<char>, ModVersionView))>
    decreases matches.len(),
{
    if matches.len() == 0 {
        seq![]
    } else {
        let rest = spec_versions_by_fingerprint(matches.drop_last());
        let m = matches.last();
        match spec_parse_cf_file(m.file) {
            Some(mv) => rest.push((m.file.file_fingerprint as u32, (decimal(m.id as nat), mv))),
            None => rest,
        }
    }
}

/// Turns CurseForge's exact fingerprint matches into the table identification reads.
pub fn versions_by_fingerprint(matches: &Vec<CfFingerprintMatch>) -> (table: Vec<(u32, (String, ModVersion))>)
    ensures
        fingerprint_matches(table@) == spec_versions_by_fingerprint(matches@),
{
    let mut table: Vec<(u32, (String, ModVersion))> = Vec::new();
    let mut i: usize = 0;
    while i < matches.len()
        invariant
            i <= matches@.len(),
            fingerprint_matches(table@) == spec_versions_by_fingerprint(matches@.take(i as int)),
        decreases matches@.len() - i,
    {
        assert(matches@.take(i + 1).drop_last() =~= matches@.take(i as int));
        assert(matches@.take(i + 1).last() == matches@[i as int]);
        let m = &matches[i];
        let fingerprint = m.file.file_fingerprint as u32;
        let ghost before = table@;
        match parse_cf_file(&m.file) {
            Some(mv) => {
                table.push((fingerprint, (decimal_text(m.id as u64), mv)));
                assert(fingerprint_matches(table@) =~= fingerprint_matches(before).push(
                    (fingerprint, (decimal(m.id as nat), mv@)),
                ));
            },
            None => {},
        }
        i = i + 1;
    }
    assert(matches@.take(matches@.len() as int) =~= matches@);
    table
}

/// The name table: each mod's id and name, in answer order.
pub fn mod_names_table(mods: &Vec<CfMod>) -> (table: Vec<(u32, String)>)
    ensures
        mod_names(table@) == mods@.map_values(|m: CfMod| (m.id, m.name@)),
{
    let mut table: Vec<(u32, String)> = Vec::new();
    let mut i: usize = 0;
    while i < mods.len()
        invariant
            i <= mods@.len(),
            table@.len() == i,
            forall|k: int| 0 <= k < i ==> #[trigger] mod_names(table@)[k] == (mods@[k].id, mods@[k].name@),
        decreases mods@.len() - i,
    {
        let ghost before = table@;
        table.push((mods[i].id, mods[i].name.clone()));
        assert(mod_names(table@) =~= mod_names(before).push((mods@[i as int].id, mods@[i as int].name@)));
        i = i + 1;
    }
    assert(mod_names(table@) =~= mods@.map_values(|m: CfMod| (m.id, m.name@)));
    table
}

/// The newest compatible file (CurseForge is asked for one), if downloadable.
pub fn latest_file_version(files: &Vec<CfFile>) -> (r: Option<ModVersion>)
    ensures
        match r {
            Some(mv) => files@.len() > 0 && spec_parse_cf_file(files@[0]) == Some(mv@),
            None => files@.len() == 0 || spec_parse_cf_file(files@[0]) is None,
        },
{
    if files.len() == 0 {
        None
    } else {
        parse_cf_file(&files[0])
    }
}

/// Base of the CurseForge API.
pub open spec fn curseforge_base() -> Seq<char> {
    "https://api.curseforge.com/v1"@
}

/// URL of the fingerprint lookup (game 432: Minecraft).
pub fn fingerprints_url() -> (u: String)
    ensures
        u@ == curseforge_base() + "/fingerprints/432"@,
{
    let mut u = String::from_str("https://api.curseforge.com/v1");
    u.append("/fingerprints/432");
    u
}

/// URL of the mod lookup.
pub fn mods_url() -> (u: String)
    ensures
        u@ == curseforge_base() + "/mods"@,
{
    let mut u = String::from_str("https://api.curseforge.com/v1");
    u.append("/mods");
    u
}

/// URL of the newest file of a mod for a game version and loader.
pub open spec fn spec_latest_file_url(mod_id: u32, mc_version: Seq<char>, loader: Seq<char>) -> Seq<char> {
    curseforge_base() + "/mods/"@ + decimal(mod_id as nat) + "/files?gameVersion="@ + mc_version
        + "&modLoaderType="@ + decimal(spec_loader_id(loader) as nat) + "&pageSize=1"@
}

/// URL of the newest file of a mod compatible with a game version and loader.
pub fn latest_file_url(mod_id: u32, mc_version: &str, loader: &str) -> (u: String)
    ensures
        u@ == spec_latest_file_url(mod_id, mc_version@, loader@),
{
    let lid = loader_id(loader);
    let mut u = String::from_str("https://api.curseforge.com/v1");
    u.append("/mods/");
    let id_text = decimal_text(mod_id as u64);
    u.append(id_text.as_str());
    u.append("/files?gameVersion=");
    u.append(mc_version);
    u.append("&modLoaderType=");
    let lid_text = decimal_text(lid as u64);
    u.append(lid_text.as_str());
    u.append("&pageSize=1");
    u
}

} // verus!
