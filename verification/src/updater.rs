//! Identification of local jars and the update check: which service knows a
//! jar (CurseForge first, Modrinth as fallback), under which name and side,
//! which newest version to ask for, and the sorted result.

use crate::lookup::{
    keys_of, last_index_of, last_index_text, last_index_u32, lemma_last_index_of,
    lemma_last_index_unique, lookup, unique_keys,
};
use crate::models::{
    infos_view, LocalMod, LocalModView, ModInfo, ModInfoView, ModSource, ModVersion,
    ModVersionView, Side, UnknownMod, opt_version_view,
};
use crate::sync::texts;
use crate::text::{
    chars_of, decimal, is_stable_sort_of, law_decimal_parses_back, parse_unsigned, spec_lowercase, spec_parse_unsigned,
    stable_order, to_lowercase,
};
use vstd::prelude::*;

verus! {

/// A service's answer for one jar: project id and the version the jar is.
pub open spec fn match_view(m: (String, ModVersion)) -> (Seq<char>, ModVersionView) {
    (m.0@, m.1@)
}

/// Views of answers keyed by text (a SHA-512 hash).
pub open spec fn text_matches(s: Seq<(String, (String, ModVersion))>) -> Seq<(Seq<char>, (Seq<char>, ModVersionView))> {
    s.map_values(|e: (String, (String, ModVersion))| (e.0@, match_view(e.1)))
}

/// Views of answers keyed by a CurseForge fingerprint.
pub open spec fn fingerprint_matches(s: Seq<(u32, (String, ModVersion))>) -> Seq<(u32, (Seq<char>, ModVersionView))> {
    s.map_values(|e: (u32, (String, ModVersion))| (e.0, match_view(e.1)))
}

/// Views of Modrinth project data: id to (title, side).
pub open spec fn project_entries(s: Seq<(String, (String, Side))>) -> Seq<(Seq<char>, (Seq<char>, Side))> {
    s.map_values(|e: (String, (String, Side))| (e.0@, (e.1.0@, e.1.1)))
}

/// Views of CurseForge mod names: id to name.
pub open spec fn mod_names(s: Seq<(u32, String)>) -> Seq<(u32, Seq<char>)> {
    s.map_values(|e: (u32, String)| (e.0, e.1@))
}

/// Views of local jars.
pub open spec fn locals_view(s: Seq<LocalMod>) -> Seq<LocalModView> {
    s.map_values(|m: LocalMod| m@)
}

/// The fingerprints of the jars that have one, in order.
pub open spec fn fingerprints(mods: Seq<LocalModView>) -> Seq<u32>
    decreases mods.len(),
{
    if mods.len() == 0 {
        seq![]
    } else {
        match mods.last().murmur2 {
            Some(f) => fingerprints(mods.drop_last()).push(f),
            None => fingerprints(mods.drop_last()),
        }
    }
}

/// CurseForge's answer for a jar, looked up by its fingerprint.
pub open spec fn cf_hit(cf: Seq<(u32, (Seq<char>, ModVersionView))>, m: LocalModView) -> Option<
    (Seq<char>, ModVersionView),
> {
    match m.murmur2 {
        Some(fp) => lookup(cf, fp),
        None => None,
    }
}

/// CurseForge's answer for the jars of SHA-512 `sha`: that of the last such
/// jar that CurseForge knows.
pub open spec fn cf_for_sha(
    mods: Seq<LocalModView>,
    cf: Seq<(u32, (Seq<char>, ModVersionView))>,
    sha: Seq<char>,
) -> Option<(Seq<char>, ModVersionView)>
    decreases mods.len(),
{
    if mods.len() == 0 {
        None
    } else if mods.last().sha512 == sha && cf_hit(cf, mods.last()) is Some {
        cf_hit(cf, mods.last())
    } else {
        cf_for_sha(mods.drop_last(), cf, sha)
    }
}

/// The hashes to ask Modrinth about: every jar's SHA-512, in order.
pub fn modrinth_hashes(local_mods: &Vec<LocalMod>) -> (hashes: Vec<String>)
    ensures
        texts(hashes@) == locals_view(local_mods@).map_values(|m: LocalModView| m.sha512),
{
    let mut hashes: Vec<String> = Vec::new();
    let mut i: usize = 0;
    while i < local_mods.len()
        invariant
            i <= local_mods@.len(),
            hashes@.len() == i,
            forall|k: int| 0 <= k < i ==> #[trigger] hashes@[k]@ == local_mods@[k].sha512@,
        decreases local_mods@.len() - i,
    {
        hashes.push(local_mods[i].sha512.clone());
        i = i + 1;
    }
    assert(texts(hashes@) =~= locals_view(local_mods@).map_values(|m: LocalModView| m.sha512));
    hashes
}

/// The fingerprints to ask CurseForge about.
pub fn curseforge_fingerprints(local_mods: &Vec<LocalMod>) -> (fps: Vec<u32>)
    ensures
        fps@ == fingerprints(locals_view(local_mods@)),
{
    let ghost lv = locals_view(local_mods@);
    let mut fps: Vec<u32> = Vec::new();
    let mut i: usize = 0;
    while i < local_mods.len()
        invariant
            lv == locals_view(local_mods@),
            i <= local_mods@.len(),
            fps@ == fingerprints(lv.take(i as int)),
        decreases local_mods@.len() - i,
    {
        assert(lv.take(i + 1).drop_last() =~= lv.take(i as int));
        assert(lv.take(i + 1).last() == local_mods@[i as int]@);
        match local_mods[i].murmur2 {
            Some(f) => fps.push(f),
            None => {},
        }
        i = i + 1;
    }
    assert(lv.take(local_mods@.len() as int) =~= lv);
    fps
}

/// Clone of a service answer.
fn clone_match(m: &(String, ModVersion)) -> (r: (String, ModVersion))
    ensures
        match_view(r) == match_view(*m),
{
    (m.0.clone(), m.1.clone())
}

/// The CurseForge answers keyed by SHA-512: each jar that CurseForge knows by
/// its fingerprint, under its hash, the last such jar winning; every hash once.
pub fn match_curseforge(
    local_mods: &Vec<LocalMod>,
    cf_results: &Vec<(u32, (String, ModVersion))>,
) -> (by_sha: Vec<(String, (String, ModVersion))>)
    ensures
        unique_keys(keys_of(text_matches(by_sha@))),
        forall|sha: Seq<char>|
            #[trigger] lookup(text_matches(by_sha@), sha) == cf_for_sha(
                locals_view(local_mods@),
                fingerprint_matches(cf_results@),
                sha,
            ),
{
    let ghost lv = locals_view(local_mods@);
    let ghost cv = fingerprint_matches(cf_results@);
    let mut by_sha: Vec<(String, (String, ModVersion))> = Vec::new();
    let mut i: usize = 0;
    while i < local_mods.len()
        invariant
            lv == locals_view(local_mods@),
            cv == fingerprint_matches(cf_results@),
            i <= local_mods@.len(),
            unique_keys(keys_of(text_matches(by_sha@))),
            forall|sha: Seq<char>|
                #[trigger] lookup(text_matches(by_sha@), sha) == cf_for_sha(
                    lv.take(i as int),
                    cv,
                    sha,
                ),
        decreases local_mods@.len() - i,
    {
        let m = &local_mods[i];
        assert(lv.take(i + 1).drop_last() =~= lv.take(i as int));
        assert(lv.take(i + 1).last() == m@);
        let ghost old_v = text_matches(by_sha@);
        assert(cv.map_values(|e: (u32, (Seq<char>, ModVersionView))| e.0) =~= cf_results@.map_values(|e: (u32, (String, ModVersion))| e.0));
        let hit: Option<usize> = match m.murmur2 {
            Some(fp) => last_index_u32(cf_results, fp),
            None => None,
        };
        match hit {
            Some(c) => {
                proof {
                    let fp = m.murmur2.unwrap();
                    lemma_last_index_of(keys_of(cv), fp);
                    assert(keys_of(cv) =~= cf_results@.map_values(|e: (u32, (String, ModVersion))| e.0));
                }
                let value = clone_match(&cf_results[c].1);
                assert(cf_hit(cv, m@) == Some(match_view(value)));
                assert(keys_of(old_v) =~= by_sha@.map_values(|e: (String, (String, ModVersion))| e.0@));
                match last_index_text(&by_sha, &m.sha512) {
                    Some(j) => {
                        proof {
                            lemma_last_index_of(keys_of(old_v), m.sha512@);
                        }
                        by_sha.set(j, (m.sha512.clone(), value));
                        proof {
                            let nv = text_matches(by_sha@);
                            assert(nv =~= old_v.update(j as int, (m.sha512@, match_view(value))));
                            assert(keys_of(nv) =~= keys_of(old_v));
                            assert forall|sha: Seq<char>|
                                #[trigger] lookup(nv, sha) == cf_for_sha(lv.take(i + 1), cv, sha) by {
                                lemma_last_index_of(keys_of(old_v), sha);
                                assert(lookup(old_v, sha) == cf_for_sha(lv.take(i as int), cv, sha));
                                if sha == m.sha512@ {
                                    lemma_last_index_unique(keys_of(old_v), j as int);
                                    assert(lookup(nv, sha) == Some(match_view(value)));
                                } else {
                                    let li = last_index_of(keys_of(old_v), sha);
                                    if li >= 0 {
                                        assert(li != j);
                                        assert(nv[li] == old_v[li]);
                                    }
                                    assert(lookup(nv, sha) == lookup(old_v, sha));
                                }
                            }
                        }
                    },
                    None => {
                        by_sha.push((m.sha512.clone(), value));
                        proof {
                            let nv = text_matches(by_sha@);
                            assert(nv =~= old_v.push((m.sha512@, match_view(value))));
                            assert(keys_of(nv) =~= keys_of(old_v).push(m.sha512@));
                            lemma_last_index_of(keys_of(old_v), m.sha512@);
                            assert(keys_of(nv).drop_last() =~= keys_of(old_v));
                            assert forall|sha: Seq<char>|
                                #[trigger] lookup(nv, sha) == cf_for_sha(lv.take(i + 1), cv, sha) by {
                                assert(lookup(old_v, sha) == cf_for_sha(lv.take(i as int), cv, sha));
                                if sha != m.sha512@ {
                                    assert(last_index_of(keys_of(nv), sha) == last_index_of(keys_of(old_v), sha));
                                    lemma_last_index_of(keys_of(old_v), sha);
                                    let li = last_index_of(keys_of(old_v), sha);
                                    if li >= 0 {
                                        assert(nv[li] == old_v[li]);
                                    }
                                    assert(lookup(nv, sha) == lookup(old_v, sha));
                                } else {
                                    assert(lookup(nv, sha) == Some(match_view(value)));
                                }
                            }
                        }
                    },
                }
            },
            None => {
                proof {
                    if m.murmur2 is Some {
                        assert(keys_of(cv) =~= cf_results@.map_values(|e: (u32, (String, ModVersion))| e.0));
                    }
                }
                assert(cf_hit(cv, m@) is None);
            },
        }
        i = i + 1;
    }
    assert(lv.take(local_mods@.len() as int) =~= lv);
    by_sha
}

/// Some CurseForge answer names project `pid`.
pub open spec fn cf_has_project(
    by_sha: Seq<(Seq<char>, (Seq<char>, ModVersionView))>,
    pid: Seq<char>,
) -> bool {
    exists|k: int| 0 <= k < by_sha.len() && by_sha[k].1.0 == pid
}

/// Project ids to ask Modrinth for names and sides: those of the Modrinth
/// answers whose project CurseForge did not already name, in answer order.
pub open spec fn spec_modrinth_project_ids(
    mr: Seq<(Seq<char>, (Seq<char>, ModVersionView))>,
    by_sha: Seq<(Seq<char>, (Seq<char>, ModVersionView))>,
) -> Seq<Seq<char>> {
    mr.filter(
        |e: (Seq<char>, (Seq<char>, ModVersionView))| !cf_has_project(by_sha, e.1.0),
    ).map_values(|e: (Seq<char>, (Seq<char>, ModVersionView))| e.1.0)
}

/// The Modrinth project ids to look up.
pub fn modrinth_project_ids(
    mr_results: &Vec<(String, (String, ModVersion))>,
    cf_by_sha: &Vec<(String, (String, ModVersion))>,
) -> (ids: Vec<String>)
    ensures
        texts(ids@) == spec_modrinth_project_ids(text_matches(mr_results@), text_matches(cf_by_sha@)),
{
    let ghost mv = text_matches(mr_results@);
    let ghost cv = text_matches(cf_by_sha@);
    let ghost pred = |e: (Seq<char>, (Seq<char>, ModVersionView))| !cf_has_project(cv, e.1.0);
    let ghost f = |e: (Seq<char>, (Seq<char>, ModVersionView))| e.1.0;
    let mut ids: Vec<String> = Vec::new();
    let mut i: usize = 0;
    while i < mr_results.len()
        invariant
            mv == text_matches(mr_results@),
            cv == text_matches(cf_by_sha@),
            pred == (|e: (Seq<char>, (Seq<char>, ModVersionView))| !cf_has_project(cv, e.1.0)),
            f == (|e: (Seq<char>, (Seq<char>, ModVersionView))| e.1.0),
            i <= mr_results@.len(),
            texts(ids@) == mv.take(i as int).filter(pred).map_values(f),
        decreases mr_results@.len() - i,
    {
        let pid = &mr_results[i].1.0;
        proof {
            reveal_with_fuel(Seq::<_>::filter, 1);
            assert(mv.take(i + 1).drop_last() =~= mv.take(i as int));
            assert(mv.take(i + 1).last() == mv[i as int]);
        }
        let mut named = false;
        let mut k: usize = 0;
        while k < cf_by_sha.len()
            invariant
                cv == text_matches(cf_by_sha@),
                k <= cf_by_sha@.len(),
                named == exists|q: int| 0 <= q < k && cv[q].1.0 == pid@,
            decreases cf_by_sha@.len() - k,
        {
            if cf_by_sha[k].1.0 == *pid {
                named = true;
            }
            assert(cv[k as int].1.0 == cf_by_sha@[k as int].1.0@);
            k = k + 1;
        }
        let ghost before = ids@;
        if !named {
            ids.push(pid.clone());
            assert(texts(ids@) =~= texts(before).push(pid@));
        }
        proof {
            let fi = mv.take(i as int).filter(pred);
            let fi1 = mv.take(i + 1).filter(pred);
            if pred(mv[i as int]) {
                assert(fi1 == fi.push(mv[i as int]));
                assert(fi1.map_values(f) =~= fi.map_values(f).push(f(mv[i as int])));
            } else {
                assert(fi1 == fi);
            }
        }
        i = i + 1;
    }
    assert(mv.take(mr_results@.len() as int) =~= mv);
    ids
}

/// CurseForge mod ids: the project ids of the CurseForge answers that read
/// as 32-bit numbers, in answer order.
pub open spec fn spec_curseforge_mod_ids(by_sha: Seq<(Seq<char>, (Seq<char>, ModVersionView))>) -> Seq<u32>
    decreases by_sha.len(),
{
    if by_sha.len() == 0 {
        seq![]
    } else {
        match spec_parse_unsigned(by_sha.last().1.0, u32::MAX as nat) {
            Some(v) => spec_curseforge_mod_ids(by_sha.drop_last()).push(v as u32),
            None => spec_curseforge_mod_ids(by_sha.drop_last()),
        }
    }
}

/// The CurseForge mod ids to look up names for.
pub fn curseforge_mod_ids(cf_by_sha: &Vec<(String, (String, ModVersion))>) -> (ids: Vec<u32>)
    ensures
        ids@ == spec_curseforge_mod_ids(text_matches(cf_by_sha@)),
{
    let ghost cv = text_matches(cf_by_sha@);
    let mut ids: Vec<u32> = Vec::new();
    let mut i: usize = 0;
    while i < cf_by_sha.len()
        invariant
            cv == text_matches(cf_by_sha@),
            i <= cf_by_sha@.len(),
            ids@ == spec_curseforge_mod_ids(cv.take(i as int)),
        decreases cf_by_sha@.len() - i,
    {
        assert(cv.take(i + 1).drop_last() =~= cv.take(i as int));
        assert(cv.take(i + 1).last() == cv[i as int]);
        match parse_unsigned(cf_by_sha[i].1.0.as_str(), 0xffff_ffff) {
            Some(v) => ids.push(v as u32),
            None => {},
        }
        i = i + 1;
    }
    assert(cv.take(cf_by_sha@.len() as int) =~= cv);
    ids
}

/// A jar that a service knows, before its newest version is asked for.
#[derive(Debug)]
pub struct PendingMod {
    pub local_mod: LocalMod,
    pub project_id: String,
    pub project_name: String,
    pub current_version: ModVersion,
    pub source: ModSource,
    pub side: Side,
    pub cf_mod_id: Option<u32>,
}

/// Mathematical view of a [`PendingMod`].
pub struct PendingView {
    pub local_mod: LocalModView,
    pub project_id: Seq<char>,
    pub project_name: Seq<char>,
    pub current_version: ModVersionView,
    pub source: ModSource,
    pub side: Side,
    pub cf_mod_id: Option<u32>,
}

impl View for PendingMod {
    type V = PendingView;

    open spec fn view(&self) -> PendingView {
        PendingView {
            local_mod: self.local_mod@,
            project_id: self.project_id@,
            project_name: self.project_name@,
            current_version: self.current_version@,
            source: self.source,
            side: self.side,
            cf_mod_id: self.cf_mod_id,
        }
    }
}

/// The CurseForge mod id of a project id: its number, or 0 when it is none.
pub open spec fn cf_mod_id_of(pid: Seq<char>) -> u32 {
    match spec_parse_unsigned(pid, u32::MAX as nat) {
        Some(v) => v as u32,
        None => 0,
    }
}

/// The project id that the fingerprint table records for a CurseForge mod
/// (its id as decimal text) gives back that mod id when identification
/// reads it.
pub proof fn law_cf_mod_id_round_trip(id: u32)
    ensures
        cf_mod_id_of(decimal(id as nat)) == id,
{
    law_decimal_parses_back(id as nat, u32::MAX as nat);
}

/// How a jar is identified: by CurseForge if it knows the jar's hash (name
/// from CurseForge, else the file name; side unknown, so both), else by
/// Modrinth (name and side from Modrinth, else the file name and both), else
/// not at all.
pub open spec fn identify_one(
    m: LocalModView,
    cf_by_sha: Seq<(Seq<char>, (Seq<char>, ModVersionView))>,
    mr: Seq<(Seq<char>, (Seq<char>, ModVersionView))>,
    projects: Seq<(Seq<char>, (Seq<char>, Side))>,
    cf_names: Seq<(u32, Seq<char>)>,
) -> Option<PendingView> {
    match lookup(cf_by_sha, m.sha512) {
        Some(hit) => {
            let id = cf_mod_id_of(hit.0);
            Some(
                PendingView {
                    local_mod: m,
                    project_id: hit.0,
                    project_name: match lookup(cf_names, id) {
                        Some(n) => n,
                        None => hit.1.filename,
                    },
                    current_version: hit.1,
                    source: ModSource::CurseForge,
                    side: Side::Both,
                    cf_mod_id: Some(id),
                },
            )
        },
        None => match lookup(mr, m.sha512) {
            Some(hit) => {
                let ns = match lookup(projects, hit.0) {
                    Some(ns) => ns,
                    None => (hit.1.filename, Side::Both),
                };
                Some(
                    PendingView {
                        local_mod: m,
                        project_id: hit.0,
                        project_name: ns.0,
                        current_version: hit.1,
                        source: ModSource::Modrinth,
                        side: ns.1,
                        cf_mod_id: None,
                    },
                )
            },
            None => None,
        },
    }
}

/// The identified jars, in order.
pub open spec fn pending_of(
    mods: Seq<LocalModView>,
    cf_by_sha: Seq<(Seq<char>, (Seq<char>, ModVersionView))>,
    mr: Seq<(Seq<char>, (Seq<char>, ModVersionView))>,
    projects: Seq<(Seq<char>, (Seq<char>, Side))>,
    cf_names: Seq<(u32, Seq<char>)>,
) -> Seq<PendingView>
    decreases mods.len(),
{
    if mods.len() == 0 {
        seq![]
    } else {
        let rest = pending_of(mods.drop_last(), cf_by_sha, mr, projects, cf_names);
        match identify_one(mods.last(), cf_by_sha, mr, projects, cf_names) {
            Some(p) => rest.push(p),
            None => rest,
        }
    }
}

/// The jars that neither service knows, in order.
pub open spec fn unknown_of(
    mods: Seq<LocalModView>,
    cf_by_sha: Seq<(Seq<char>, (Seq<char>, ModVersionView))>,
    mr: Seq<(Seq<char>, (Seq<char>, ModVersionView))>,
    projects: Seq<(Seq<char>, (Seq<char>, Side))>,
    cf_names: Seq<(u32, Seq<char>)>,
) -> Seq<LocalModView>
    decreases mods.len(),
{
    if mods.len() == 0 {
        seq![]
    } else {
        let rest = unknown_of(mods.drop_last(), cf_by_sha, mr, projects, cf_names);
        match identify_one(mods.last(), cf_by_sha, mr, projects, cf_names) {
            Some(p) => rest,
            None => rest.push(mods.last()),
        }
    }
}

/// CurseForge takes priority: a jar that CurseForge knows is identified by
/// CurseForge, as a mod for both sides, with the project and the file that
/// CurseForge matched (its name from CurseForge's mod names when known, else
/// the matched file's name), whatever Modrinth says.
pub proof fn law_curseforge_first(
    m: LocalModView,
    cf_by_sha: Seq<(Seq<char>, (Seq<char>, ModVersionView))>,
    mr: Seq<(Seq<char>, (Seq<char>, ModVersionView))>,
    projects: Seq<(Seq<char>, (Seq<char>, Side))>,
    cf_names: Seq<(u32, Seq<char>)>,
    other_mr: Seq<(Seq<char>, (Seq<char>, ModVersionView))>,
    other_projects: Seq<(Seq<char>, (Seq<char>, Side))>,
)
    requires
        lookup(cf_by_sha, m.sha512) is Some,
    ensures
        identify_one(m, cf_by_sha, mr, projects, cf_names) is Some,
        identify_one(m, cf_by_sha, mr, projects, cf_names).unwrap().source == ModSource::CurseForge,
        identify_one(m, cf_by_sha, mr, projects, cf_names).unwrap().side == Side::Both,
        identify_one(m, cf_by_sha, mr, projects, cf_names).unwrap().local_mod == m,
        identify_one(m, cf_by_sha, mr, projects, cf_names).unwrap().project_id == lookup(
            cf_by_sha,
            m.sha512,
        ).unwrap().0,
        identify_one(m, cf_by_sha, mr, projects, cf_names).unwrap().current_version == lookup(
            cf_by_sha,
            m.sha512,
        ).unwrap().1,
        identify_one(m, cf_by_sha, mr, projects, cf_names).unwrap().cf_mod_id == Some(
            cf_mod_id_of(lookup(cf_by_sha, m.sha512).unwrap().0),
        ),
        identify_one(m, cf_by_sha, mr, projects, cf_names).unwrap().project_name == match lookup(
            cf_names,
            cf_mod_id_of(lookup(cf_by_sha, m.sha512).unwrap().0),
        ) {
            Some(n) => n,
            None => lookup(cf_by_sha, m.sha512).unwrap().1.filename,
        },
        identify_one(m, cf_by_sha, mr, projects, cf_names) == identify_one(
            m,
            cf_by_sha,
            other_mr,
            other_projects,
            cf_names,
        ),
{
}

/// Modrinth is the fallback: a jar CurseForge does not know but Modrinth
/// does is identified by Modrinth, with the project and version Modrinth
/// matched and the project's name and side (the file's name and both sides
/// when the project is not described); a jar neither knows stays unknown.
pub proof fn law_modrinth_fallback(
    m: LocalModView,
    cf_by_sha: Seq<(Seq<char>, (Seq<char>, ModVersionView))>,
    mr: Seq<(Seq<char>, (Seq<char>, ModVersionView))>,
    projects: Seq<(Seq<char>, (Seq<char>, Side))>,
    cf_names: Seq<(u32, Seq<char>)>,
)
    requires
        lookup(cf_by_sha, m.sha512) is None,
    ensures
        lookup(mr, m.sha512) is Some ==> identify_one(m, cf_by_sha, mr, projects, cf_names) is Some
            && identify_one(m, cf_by_sha, mr, projects, cf_names).unwrap().source == ModSource::Modrinth,
        lookup(mr, m.sha512) matches Some(hit) ==> {
            let p = identify_one(m, cf_by_sha, mr, projects, cf_names).unwrap();
            &&& p.local_mod == m
            &&& p.project_id == hit.0
            &&& p.current_version == hit.1
            &&& p.cf_mod_id is None
            &&& (lookup(projects, hit.0) matches Some(ns) ==> p.project_name == ns.0 && p.side == ns.1)
            &&& (lookup(projects, hit.0) is None ==> p.project_name == hit.1.filename && p.side == Side::Both)
        },
        lookup(mr, m.sha512) is None ==> identify_one(m, cf_by_sha, mr, projects, cf_names) is None,
{
}

/// The jars a service knows, in jar order.
pub open spec fn identified_jars(
    mods: Seq<LocalModView>,
    cf_by_sha: Seq<(Seq<char>, (Seq<char>, ModVersionView))>,
    mr: Seq<(Seq<char>, (Seq<char>, ModVersionView))>,
    projects: Seq<(Seq<char>, (Seq<char>, Side))>,
    cf_names: Seq<(u32, Seq<char>)>,
) -> Seq<LocalModView> {
    mods.filter(|m: LocalModView| identify_one(m, cf_by_sha, mr, projects, cf_names) is Some)
}

/// The jars no service knows, in jar order.
pub open spec fn unidentified_jars(
    mods: Seq<LocalModView>,
    cf_by_sha: Seq<(Seq<char>, (Seq<char>, ModVersionView))>,
    mr: Seq<(Seq<char>, (Seq<char>, ModVersionView))>,
    projects: Seq<(Seq<char>, (Seq<char>, Side))>,
    cf_names: Seq<(u32, Seq<char>)>,
) -> Seq<LocalModView> {
    mods.filter(|m: LocalModView| identify_one(m, cf_by_sha, mr, projects, cf_names) is None)
}

/// The jars of identified mods.
pub open spec fn pending_jars(s: Seq<PendingView>) -> Seq<LocalModView> {
    s.map_values(|p: PendingView| p.local_mod)
}

/// Every jar ends up exactly once, identified or unknown: the identified
/// mods hold the jars a service knows and the unknown list the others, each
/// in jar order, and together they are the input jars, each as often as it
/// occurs.
pub proof fn law_every_jar_accounted(
    mods: Seq<LocalModView>,
    cf_by_sha: Seq<(Seq<char>, (Seq<char>, ModVersionView))>,
    mr: Seq<(Seq<char>, (Seq<char>, ModVersionView))>,
    projects: Seq<(Seq<char>, (Seq<char>, Side))>,
    cf_names: Seq<(u32, Seq<char>)>,
)
    ensures
        pending_of(mods, cf_by_sha, mr, projects, cf_names).len() + unknown_of(mods, cf_by_sha, mr, projects, cf_names).len() == mods.len(),
        pending_jars(pending_of(mods, cf_by_sha, mr, projects, cf_names)) == identified_jars(mods, cf_by_sha, mr, projects, cf_names),
        unknown_of(mods, cf_by_sha, mr, projects, cf_names) == unidentified_jars(mods, cf_by_sha, mr, projects, cf_names),
        pending_of(mods, cf_by_sha, mr, projects, cf_names) == identified_jars(mods, cf_by_sha, mr, projects, cf_names).map_values(
            |j: LocalModView| identify_one(j, cf_by_sha, mr, projects, cf_names).unwrap(),
        ),
        pending_jars(pending_of(mods, cf_by_sha, mr, projects, cf_names)).to_multiset().add(
            unknown_of(mods, cf_by_sha, mr, projects, cf_names).to_multiset(),
        ) == mods.to_multiset(),
    decreases mods.len(),
{
    broadcast use vstd::seq_lib::group_to_multiset_ensures;
    reveal_with_fuel(Seq::<_>::filter, 1);
    let p = pending_of(mods, cf_by_sha, mr, projects, cf_names);
    let u = unknown_of(mods, cf_by_sha, mr, projects, cf_names);
    if mods.len() == 0 {
        assert(pending_jars(p) =~= Seq::<LocalModView>::empty());
        assert(pending_jars(p).to_multiset() =~= vstd::multiset::Multiset::empty());
        assert(u.to_multiset() =~= vstd::multiset::Multiset::empty());
        assert(mods.to_multiset() =~= vstd::multiset::Multiset::empty());
    } else {
        let rest = mods.drop_last();
        law_every_jar_accounted(rest, cf_by_sha, mr, projects, cf_names);
        let rp = pending_of(rest, cf_by_sha, mr, projects, cf_names);
        let ru = unknown_of(rest, cf_by_sha, mr, projects, cf_names);
        let m = mods.last();
        assert(mods =~= rest.push(m));
        assert(mods.to_multiset() =~= rest.to_multiset().insert(m));
        match identify_one(m, cf_by_sha, mr, projects, cf_names) {
            Some(q) => {
                assert(pending_jars(p) =~= pending_jars(rp).push(m));
                assert(identified_jars(mods, cf_by_sha, mr, projects, cf_names) =~= identified_jars(rest, cf_by_sha, mr, projects, cf_names).push(m));
                assert(p =~= identified_jars(mods, cf_by_sha, mr, projects, cf_names).map_values(
                    |j: LocalModView| identify_one(j, cf_by_sha, mr, projects, cf_names).unwrap(),
                ));
                assert(pending_jars(p).to_multiset() =~= pending_jars(rp).to_multiset().insert(m));
            },
            None => {
                assert(u =~= ru.push(m));
                assert(identified_jars(mods, cf_by_sha, mr, projects, cf_names) =~= identified_jars(rest, cf_by_sha, mr, projects, cf_names));
                assert(u.to_multiset() =~= ru.to_multiset().insert(m));
            },
        }
    }
}

/// Views of pending mods.
pub open spec fn pendings_view(s: Seq<PendingMod>) -> Seq<PendingView> {
    s.map_values(|p: PendingMod| p@)
}

/// Views of unknown mods.
pub open spec fn unknowns_view(s: Seq<UnknownMod>) -> Seq<LocalModView> {
    s.map_values(|u: UnknownMod| u.local_mod@)
}

/// Identifies one jar from the services' answers.
fn identify_mod(
    m: &LocalMod,
    cf_by_sha: &Vec<(String, (String, ModVersion))>,
    mr_results: &Vec<(String, (String, ModVersion))>,
    projects: &Vec<(String, (String, Side))>,
    cf_names: &Vec<(u32, String)>,
) -> (r: Option<PendingMod>)
    ensures
        match r {
            Some(p) => identify_one(m@, text_matches(cf_by_sha@), text_matches(mr_results@), project_entries(projects@), mod_names(cf_names@)) == Some(p@),
            None => identify_one(m@, text_matches(cf_by_sha@), text_matches(mr_results@), project_entries(projects@), mod_names(cf_names@)) is None,
        },
{
    let ghost cv = text_matches(cf_by_sha@);
    let ghost mv = text_matches(mr_results@);
    let ghost pv = project_entries(projects@);
    let ghost nv = mod_names(cf_names@);
    assert(keys_of(cv) =~= cf_by_sha@.map_values(|e: (String, (String, ModVersion))| e.0@));
    assert(keys_of(mv) =~= mr_results@.map_values(|e: (String, (String, ModVersion))| e.0@));
    assert(keys_of(pv) =~= projects@.map_values(|e: (String, (String, Side))| e.0@));
    assert(keys_of(nv) =~= cf_names@.map_values(|e: (u32, String)| e.0));
    match last_index_text(cf_by_sha, &m.sha512) {
        Some(c) => {
            proof {
                lemma_last_index_of(keys_of(cv), m.sha512@);
            }
            let hit = &cf_by_sha[c].1;
            let id: u32 = match parse_unsigned(hit.0.as_str(), 0xffff_ffff) {
                Some(v) => v as u32,
                None => 0,
            };
            let name = match last_index_u32(cf_names, id) {
                Some(n) => {
                    proof {
                        lemma_last_index_of(keys_of(nv), id);
                    }
                    cf_names[n].1.clone()
                },
                None => hit.1.filename.clone(),
            };
            Some(
                PendingMod {
                    local_mod: m.clone(),
                    project_id: hit.0.clone(),
                    project_name: name,
                    current_version: hit.1.clone(),
                    source: ModSource::CurseForge,
                    side: Side::Both,
                    cf_mod_id: Some(id),
                },
            )
        },
        None => match last_index_text(mr_results, &m.sha512) {
            Some(c) => {
                proof {
                    lemma_last_index_of(keys_of(mv), m.sha512@);
                }
                let hit = &mr_results[c].1;
                let (name, side) = match last_index_text(projects, &hit.0) {
                    Some(n) => {
                        proof {
                            lemma_last_index_of(keys_of(pv), hit.0@);
                        }
                        (projects[n].1.0.clone(), projects[n].1.1)
                    },
                    None => (hit.1.filename.clone(), Side::Both),
                };
                Some(
                    PendingMod {
                        local_mod: m.clone(),
                        project_id: hit.0.clone(),
                        project_name: name,
                        current_version: hit.1.clone(),
                        source: ModSource::Modrinth,
                        side: side,
                        cf_mod_id: None,
                    },
                )
            },
            None => None,
        },
    }
}

/// Splits the jars into those a service knows (with project, name, side and
/// installed version) and those none knows, each in jar order.
pub fn classify_mods(
    local_mods: &Vec<LocalMod>,
    cf_by_sha: &Vec<(String, (String, ModVersion))>,
    mr_results: &Vec<(String, (String, ModVersion))>,
    projects: &Vec<(String, (String, Side))>,
    cf_names: &Vec<(u32, String)>,
) -> (r: (Vec<PendingMod>, Vec<UnknownMod>))
    ensures
        pendings_view(r.0@) == pending_of(locals_view(local_mods@), text_matches(cf_by_sha@), text_matches(mr_results@), project_entries(projects@), mod_names(cf_names@)),
        unknowns_view(r.1@) == unknown_of(locals_view(local_mods@), text_matches(cf_by_sha@), text_matches(mr_results@), project_entries(projects@), mod_names(cf_names@)),
{
    let ghost lv = locals_view(local_mods@);
    let ghost cv = text_matches(cf_by_sha@);
    let ghost mv = text_matches(mr_results@);
    let ghost pv = project_entries(projects@);
    let ghost nv = mod_names(cf_names@);
    let mut pending: Vec<PendingMod> = Vec::new();
    let mut unknown: Vec<UnknownMod> = Vec::new();
    let mut i: usize = 0;
    while i < local_mods.len()
        invariant
            lv == locals_view(local_mods@),
            cv == text_matches(cf_by_sha@),
            mv == text_matches(mr_results@),
            pv == project_entries(projects@),
            nv == mod_names(cf_names@),
            i <= local_mods@.len(),
            pendings_view(pending@) == pending_of(lv.take(i as int), cv, mv, pv, nv),
            unknowns_view(unknown@) == unknown_of(lv.take(i as int), cv, mv, pv, nv),
        decreases local_mods@.len() - i,
    {
        assert(lv.take(i + 1).drop_last() =~= lv.take(i as int));
        assert(lv.take(i + 1).last() == local_mods@[i as int]@);
        let ghost bp = pending@;
        let ghost bu = unknown@;
        match identify_mod(&local_mods[i], cf_by_sha, mr_results, projects, cf_names) {
            Some(p) => {
                pending.push(p);
                assert(pendings_view(pending@) =~= pendings_view(bp).push(p@));
            },
            None => {
                unknown.push(UnknownMod { local_mod: local_mods[i].clone() });
                assert(unknowns_view(unknown@) =~= unknowns_view(bu).push(local_mods@[i as int]@));
            },
        }
        i = i + 1;
    }
    assert(lv.take(local_mods@.len() as int) =~= lv);
    (pending, unknown)
}

/// Which service to ask for the newest compatible version of a jar.
#[derive(Debug, Clone, Copy, PartialEq, Eq, Structural)]
pub enum LatestQuery {
    /// Ask CurseForge for the files of this mod id.
    CurseForge { mod_id: u32 },
    /// Ask Modrinth for the versions of the jar's project id.
    Modrinth,
    /// Ask nobody: the newest version stays unknown.
    NoQuery,
}

/// The query for a jar: its own service; CurseForge only with an API key
/// and a mod id.
pub open spec fn spec_latest_query(p: PendingView, has_api_key: bool) -> LatestQuery {
    match p.source {
        ModSource::CurseForge => match p.cf_mod_id {
            Some(id) => if has_api_key {
                LatestQuery::CurseForge { mod_id: id }
            } else {
                LatestQuery::NoQuery
            },
            None => LatestQuery::NoQuery,
        },
        ModSource::Modrinth => LatestQuery::Modrinth,
    }
}

impl PendingMod {
    /// Which newest-version query this jar needs.
    pub fn latest_query(&self, has_api_key: bool) -> (q: LatestQuery)
        ensures
            q == spec_latest_query(self@, has_api_key),
    {
        match self.source {
            ModSource::CurseForge => match self.cf_mod_id {
                Some(id) => if has_api_key {
                    LatestQuery::CurseForge { mod_id: id }
                } else {
                    LatestQuery::NoQuery
                },
                None => LatestQuery::NoQuery,
            },
            ModSource::Modrinth => LatestQuery::Modrinth,
        }
    }

    /// The identified mod, with the newest version that the query gave
    /// (`None` when it gave nothing or failed).
    pub fn into_mod_info(self, latest_version: Option<ModVersion>) -> (m: ModInfo)
        ensures
            m@ == (ModInfoView {
                project_id: self@.project_id,
                project_name: self@.project_name,
                current_version: self@.current_version,
                latest_version: opt_version_view(latest_version),
                local_mod: self@.local_mod,
                source: self@.source,
                side: self@.side,
            }),
    {
        ModInfo {
            project_id: self.project_id,
            project_name: self.project_name,
            current_version: self.current_version,
            latest_version: latest_version,
            local_mod: self.local_mod,
            source: self.source,
            side: self.side,
        }
    }
}

/// Sort key of an identified mod: its name in lower case.
pub open spec fn info_keys(s: Seq<ModInfoView>) -> Seq<Seq<char>> {
    s.map_values(|m: ModInfoView| spec_lowercase(m.project_name))
}

/// Identified and unknown jars of one mods folder.
#[derive(Debug)]
pub struct IdentifyResult {
    pub known: Vec<ModInfo>,
    pub unknown: Vec<UnknownMod>,
}

/// A copy of a list of identified mods.
pub fn clone_infos(v: &Vec<ModInfo>) -> (res: Vec<ModInfo>)
    ensures
        infos_view(res@) == infos_view(v@),
{
    let mut res: Vec<ModInfo> = Vec::new();
    let mut i: usize = 0;
    while i < v.len()
        invariant
            i <= v@.len(),
            res@.len() == i,
            forall|k: int| 0 <= k < i ==> #[trigger] res@[k]@ == v@[k]@,
        decreases v@.len() - i,
    {
        res.push(v[i].clone());
        i = i + 1;
    }
    assert(infos_view(res@) =~= infos_view(v@));
    res
}

impl Clone for IdentifyResult {
    fn clone(&self) -> (res: Self)
        ensures
            infos_view(res.known@) == infos_view(self.known@),
            unknowns_view(res.unknown@) == unknowns_view(self.unknown@),
    {
        let mut unknown: Vec<UnknownMod> = Vec::new();
        let mut i: usize = 0;
        while i < self.unknown.len()
            invariant
                i <= self.unknown@.len(),
                unknown@.len() == i,
                forall|k: int| 0 <= k < i ==> #[trigger] unknown@[k].local_mod@ == self.unknown@[k].local_mod@,
            decreases self.unknown@.len() - i,
        {
            unknown.push(self.unknown[i].clone());
            i = i + 1;
        }
        assert(unknowns_view(unknown@) =~= unknowns_view(self.unknown@));
        IdentifyResult { known: clone_infos(&self.known), unknown: unknown }
    }
}

/// The identification result: the identified mods stably sorted by
/// lower-case name, the unknown jars as they are.
pub fn assemble_result(known: Vec<ModInfo>, unknown: Vec<UnknownMod>) -> (r: IdentifyResult)
    ensures
        is_stable_sort_of(infos_view(known@), info_keys(infos_view(known@)), infos_view(r.known@)),
        unknowns_view(r.unknown@) == unknowns_view(unknown@),
{
    let ghost kv = infos_view(known@);
    let mut keys: Vec<Vec<char>> = Vec::new();
    let mut i: usize = 0;
    while i < known.len()
        invariant
            kv == infos_view(known@),
            i <= known@.len(),
            keys@.len() == i,
            forall|k: int| 0 <= k < i ==> #[trigger] keys@[k]@ == spec_lowercase(kv[k].project_name),
        decreases known@.len() - i,
    {
        let lower = to_lowercase(known[i].project_name.as_str());
        keys.push(chars_of(lower.as_str()));
        i = i + 1;
    }
    assert(keys@.map_values(|k: Vec<char>| k@) =~= info_keys(kv));
    let order = stable_order(&keys);
    let mut sorted: Vec<ModInfo> = Vec::new();
    let mut k: usize = 0;
    while k < order.len()
        invariant
            kv == infos_view(known@),
            order@.len() == known@.len(),
            forall|a: int| 0 <= a < order@.len() ==> order@[a] < known@.len(),
            k <= order@.len(),
            sorted@.len() == k,
            forall|a: int| 0 <= a < k ==> #[trigger] sorted@[a]@ == kv[order@[a] as int],
        decreases order@.len() - k,
    {
        sorted.push(known[order[k]].clone());
        k = k + 1;
    }
    let ghost sv = infos_view(sorted@);
    assert forall|a: int| 0 <= a < sv.len() implies #[trigger] sv[a] == kv[order@[a] as int] by {
        assert(sv[a] == sorted@[a]@);
    }
    IdentifyResult { known: sorted, unknown: unknown }
}

} // verus!
