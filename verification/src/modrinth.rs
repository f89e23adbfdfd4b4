//! Modrinth answers: which file of a version is the one to use, a
//! project's side, the lookup tables that identification reads, the request
//! URLs, and the rate-limit retry rule shared with CurseForge.

use crate::models::{strings_view, clone_strings, ModSource, ModVersion, ModVersionView, Side};
use crate::sync::texts;
use crate::text::{decimal, law_decimal_parses_back, parse_unsigned, spec_parse_unsigned, text_equal};
use crate::updater::{project_entries, text_matches};
use vstd::prelude::*;

verus! {

/// A file of a Modrinth version: the hash algorithms it is listed under,
/// its download URL and its file name.
#[derive(Debug)]
pub struct MrVersionFile {
    pub hash_algorithms: Vec<String>,
    pub url: String,
    pub filename: String,
}

/// A Modrinth version of a project.
#[derive(Debug)]
pub struct MrVersion {
    pub id: String,
    pub version_number: String,
    pub files: Vec<MrVersionFile>,
    pub game_versions: Vec<String>,
    pub loaders: Vec<String>,
}

/// A Modrinth version together with its project, as the hash lookup answers it.
#[derive(Debug)]
pub struct MrVersionFull {
    pub project_id: String,
    pub version: MrVersion,
}

/// A Modrinth project: id, title and where it runs.
#[derive(Debug)]
pub struct MrProject {
    pub id: String,
    pub title: String,
    pub client_side: String,
    pub server_side: String,
}

/// A project's side: client only when the server side is unsupported,
/// else server only when the client side is unsupported, else both.
pub open spec fn spec_parse_side(client_side: Seq<char>, server_side: Seq<char>) -> Side {
    if server_side == "unsupported"@ {
        Side::ClientOnly
    } else if client_side == "unsupported"@ {
        Side::ServerOnly
    } else {
        Side::Both
    }
}

/// Only an "unsupported" side makes a mod exclusive: client-only exactly
/// when the server side is unsupported; server-only exactly when the client
/// side is unsupported and the server side is not; for both sides whenever
/// neither is unsupported (e.g. "optional" or "required").
pub proof fn law_parse_side(client_side: Seq<char>, server_side: Seq<char>)
    ensures
        (spec_parse_side(client_side, server_side) == Side::ClientOnly) <==> server_side == "unsupported"@,
        (spec_parse_side(client_side, server_side) == Side::ServerOnly) <==> (client_side == "unsupported"@
            && server_side != "unsupported"@),
        (spec_parse_side(client_side, server_side) == Side::Both) <==> (client_side != "unsupported"@
            && server_side != "unsupported"@),
{
}

/// The side of a project from its client and server support.
pub fn parse_side(client_side: &str, server_side: &str) -> (s: Side)
    ensures
        s == spec_parse_side(client_side@, server_side@),
{
    if text_equal(server_side, "unsupported") {
        Side::ClientOnly
    } else if text_equal(client_side, "unsupported") {
        Side::ServerOnly
    } else {
        Side::Both
    }
}

/// The file is listed with a SHA-512 hash.
pub open spec fn has_sha512(f: MrVersionFile) -> bool {
    texts(f.hash_algorithms@).contains("sha512"@)
}

/// Index of the first file listed with a SHA-512 hash, or -1.
pub open spec fn first_sha512_file(files: Seq<MrVersionFile>) -> int
    decreases files.len(),
{
    if files.len() == 0 {
        -1
    } else if has_sha512(files[0]) {
        0
    } else {
        let r = first_sha512_file(files.drop_first());
        if r < 0 {
            -1
        } else {
            r + 1
        }
    }
}

/// The mod version of a Modrinth version: its first file with a SHA-512
/// hash gives file name and URL; none when no file has one.
pub open spec fn spec_parse_version(v: MrVersion) -> Option<ModVersionView> {
    let k = first_sha512_file(v.files@);
    if k < 0 {
        None
    } else {
        Some(
            ModVersionView {
                version_id: v.id@,
                version_number: v.version_number@,
                filename: v.files@[k].filename@,
                download_url: v.files@[k].url@,
                game_versions: strings_view(v.game_versions@),
                loaders: strings_view(v.loaders@),
                source: ModSource::Modrinth,
            },
        )
    }
}

proof fn lemma_first_sha512_file(files: Seq<MrVersionFile>)
    ensures
        -1 <= first_sha512_file(files) < files.len(),
        first_sha512_file(files) == -1 <==> forall|k: int| 0 <= k < files.len() ==> !has_sha512(#[trigger] files[k]),
        first_sha512_file(files) >= 0 ==> has_sha512(files[first_sha512_file(files)]),
        forall|j: int| 0 <= j < first_sha512_file(files) ==> !has_sha512(#[trigger] files[j]),
    decreases files.len(),
{
    if files.len() > 0 && !has_sha512(files[0]) {
        let rest = files.drop_first();
        lemma_first_sha512_file(rest);
        assert forall|k: int| 0 < k < files.len() implies files[k] == #[trigger] rest[k - 1] by {}
        if first_sha512_file(rest) == -1 {
            assert forall|k: int| 0 <= k < files.len() implies !has_sha512(#[trigger] files[k]) by {
                if k > 0 {
                    assert(files[k] == rest[k - 1]);
                }
            }
        } else {
            assert forall|j: int| 0 <= j < first_sha512_file(files) implies !has_sha512(#[trigger] files[j]) by {
                if j > 0 {
                    assert(files[j] == rest[j - 1]);
                }
            }
        }
        if forall|k: int| 0 <= k < files.len() ==> !has_sha512(#[trigger] files[k]) {
            assert forall|k: int| 0 <= k < rest.len() implies !has_sha512(#[trigger] rest[k]) by {
                assert(rest[k] == files[k + 1]);
            }
        }
    }
}

/// A Modrinth version gives a mod version exactly when one of its files is
/// listed with a SHA-512 hash; the file used is the first such file, and
/// the version keeps Modrinth's id and number.
pub proof fn law_parse_version(v: MrVersion)
    ensures
        spec_parse_version(v) is None <==> forall|k: int|
            0 <= k < v.files@.len() ==> !has_sha512(#[trigger] v.files@[k]),
        spec_parse_version(v) matches Some(mv) ==> exists|k: int|
            0 <= k < v.files@.len() && has_sha512(#[trigger] v.files@[k]) && (forall|j: int|
                0 <= j < k ==> !has_sha512(#[trigger] v.files@[j])) && mv.filename == v.files@[k].filename@
                && mv.download_url == v.files@[k].url@,
        spec_parse_version(v) matches Some(mv) ==> mv.version_id == v.id@ && mv.version_number
            == v.version_number@ && mv.source == ModSource::Modrinth,
{
    lemma_first_sha512_file(v.files@);
    let k = first_sha512_file(v.files@);
    if k >= 0 {
        assert(has_sha512(v.files@[k]));
    }
}

fn lists_sha512(f: &MrVersionFile) -> (b: bool)
    ensures
        b == has_sha512(*f),
{
    proof {
        reveal_strlit("sha512");
    }
    let mut i: usize = 0;
    while i < f.hash_algorithms.len()
        invariant
            i <= f.hash_algorithms@.len(),
            forall|k: int| 0 <= k < i ==> f.hash_algorithms@[k]@ != "sha512"@,
        decreases f.hash_algorithms@.len() - i,
    {
        if text_equal(f.hash_algorithms[i].as_str(), "sha512") {
            assert(texts(f.hash_algorithms@)[i as int] == "sha512"@);
            return true;
        }
        i = i + 1;
    }
    assert(!texts(f.hash_algorithms@).contains("sha512"@)) by {
        if texts(f.hash_algorithms@).contains("sha512"@) {
            let k = choose|k: int|
                0 <= k < texts(f.hash_algorithms@).len() && texts(f.hash_algorithms@)[k]
                    == "sha512"@;
            assert(f.hash_algorithms@[k]@ == "sha512"@);
        }
    }
    false
}

/// Converts a Modrinth version into a mod version, if one of its files has a SHA-512 hash.
pub fn parse_version(v: &MrVersion) -> (r: Option<ModVersion>)
    ensures
        match r {
            Some(mv) => spec_parse_version(*v) == Some(mv@),
            None => spec_parse_version(*v) is None,
        },
{
    let mut k: usize = 0;
    assert(v.files@.skip(0) =~= v.files@);
    while k < v.files.len()
        invariant
            k <= v.files@.len(),
            forall|j: int| 0 <= j < k ==> !has_sha512(#[trigger] v.files@[j]),
            first_sha512_file(v.files@) == if first_sha512_file(v.files@.skip(k as int)) < 0 {
                -1
            } else {
                first_sha512_file(v.files@.skip(k as int)) + k
            },
        decreases v.files@.len() - k,
    {
        assert(v.files@.skip(k as int)[0] == v.files@[k as int]);
        if lists_sha512(&v.files[k]) {
            let f = &v.files[k];
            return Some(
                ModVersion {
                    version_id: v.id.clone(),
                    version_number: v.version_number.clone(),
                    filename: f.filename.clone(),
                    download_url: f.url.clone(),
                    game_versions: clone_strings(&v.game_versions),
                    loaders: clone_strings(&v.loaders),
                    source: ModSource::Modrinth,
                },
            );
        }
        assert(v.files@.skip(k as int).drop_first() =~= v.files@.skip(k + 1));
        k = k + 1;
    }
    None
}

/// The hash lookup table: for each answered hash whose version has a file
/// with a SHA-512 hash, the hash and (project id, version), in answer order.
pub open spec fn spec_versions_by_hash(data: Seq<(String, MrVersionFull)>) -> Seq<(Seq<char>, (Seq<char>, ModVersionView))>
    decreases data.len(),
{
    if data.len() == 0 {
        seq![]
    } else {
        let rest = spec_versions_by_hash(data.drop_last());
        let e = data.last();
        match spec_parse_version(e.1.version) {
            Some(mv) => rest.push((e.0@, (e.1.project_id@, mv))),
            None => rest,
        }
    }
}

/// Turns Modrinth's answer to a hash lookup into the table identification reads.
pub fn versions_by_hash(data: &Vec<(String, MrVersionFull)>) -> (table: Vec<(String, (String, ModVersion))>)
    ensures
        text_matches(table@) == spec_versions_by_hash(data@),
{
    let mut table: Vec<(String, (String, ModVersion))> = Vec::new();
    let mut i: usize = 0;
    while i < data.len()
        invariant
            i <= data@.len(),
            text_matches(table@) == spec_versions_by_hash(data@.take(i as int)),
        decreases data@.len() - i,
    {
        assert(data@.take(i + 1).drop_last() =~= data@.take(i as int));
        assert(data@.take(i + 1).last() == data@[i as int]);
        let e = &data[i];
        let ghost before = table@;
        match parse_version(&e.1.version) {
            Some(mv) => {
                table.push((e.0.clone(), (e.1.project_id.clone(), mv)));
                assert(text_matches(table@) =~= text_matches(before).push((e.0@, (e.1.project_id@, mv@))));
            },
            None => {},
        }
        i = i + 1;
    }
    assert(data@.take(data@.len() as int) =~= data@);
    table
}

/// The project table: each project's id with its title and side, in answer order.
pub open spec fn spec_projects_by_id(projects: Seq<MrProject>) -> Seq<(Seq<char>, (Seq<char>, Side))> {
    projects.map_values(
        |p: MrProject| (p.id@, (p.title@, spec_parse_side(p.client_side@, p.server_side@))),
    )
}

/// Turns Modrinth's project answer into the table identification reads.
pub fn projects_by_id(projects: &Vec<MrProject>) -> (table: Vec<(String, (String, Side))>)
    ensures
        project_entries(table@) == spec_projects_by_id(projects@),
{
    let mut table: Vec<(String, (String, Side))> = Vec::new();
    let mut i: usize = 0;
    while i < projects.len()
        invariant
            i <= projects@.len(),
            table@.len() == i,
            forall|k: int| 0 <= k < i ==> #[trigger] project_entries(table@)[k] == spec_projects_by_id(projects@)[k],
        decreases projects@.len() - i,
    {
        let p = &projects[i];
        let side = parse_side(p.client_side.as_str(), p.server_side.as_str());
        let ghost before = table@;
        table.push((p.id.clone(), (p.title.clone(), side)));
        assert(project_entries(table@) =~= project_entries(before).push(spec_projects_by_id(projects@)[i as int]));
        i = i + 1;
    }
    assert(project_entries(table@) =~= spec_projects_by_id(projects@));
    table
}

/// The newest compatible version: Modrinth lists newest first, so the first
/// version, if it has a SHA-512 file.
pub open spec fn spec_latest_version(versions: Seq<MrVersion>) -> Option<ModVersionView> {
    if versions.len() == 0 {
        None
    } else {
        spec_parse_version(versions[0])
    }
}

/// Modrinth lists the newest compatible version first: the answer's first
/// version alone decides, whatever follows it, and an empty answer gives none.
pub proof fn law_latest_is_first(first: MrVersion, rest: Seq<MrVersion>)
    ensures
        spec_latest_version(seq![first] + rest) == spec_parse_version(first),
        spec_latest_version(Seq::<MrVersion>::empty()) is None,
{
    assert((seq![first] + rest)[0] == first);
}

/// The newest compatible version among Modrinth's answer.
pub fn latest_version(versions: &Vec<MrVersion>) -> (r: Option<ModVersion>)
    ensures
        match r {
            Some(mv) => spec_latest_version(versions@) == Some(mv@),
            None => spec_latest_version(versions@) is None,
        },
{
    if versions.len() == 0 {
        None
    } else {
        parse_version(&versions[0])
    }
}

/// Base of the Modrinth API.
pub open spec fn modrinth_base() -> Seq<char> {
    "https://api.modrinth.com/v2"@
}

/// URL of the hash lookup.
pub fn version_files_url() -> (u: String)
    ensures
        u@ == modrinth_base() + "/version_files"@,
{
    let mut u = String::from_str("https://api.modrinth.com/v2");
    u.append("/version_files");
    u
}

/// URL of the newest versions of a project for a game version and loader.
pub open spec fn spec_latest_version_url(project_id: Seq<char>, mc_version: Seq<char>, loader: Seq<char>) -> Seq<char> {
    modrinth_base() + "/project/"@ + project_id + "/version?game_versions=[\""@ + mc_version
        + "\"]&loaders=[\""@ + loader + "\"]"@
}

/// URL of the versions of a project compatible with a game version and loader.
pub fn latest_version_url(project_id: &str, mc_version: &str, loader: &str) -> (u: String)
    ensures
        u@ == spec_latest_version_url(project_id@, mc_version@, loader@),
{
    let mut u = String::from_str("https://api.modrinth.com/v2");
    u.append("/project/");
    u.append(project_id);
    u.append("/version?game_versions=[\"");
    u.append(mc_version);
    u.append("\"]&loaders=[\"");
    u.append(loader);
    u.append("\"]");
    u
}

/// The JSON text of a list of strings (an array of escaped strings).
pub uninterp spec fn spec_json_strings(items: Seq<Seq<char>>) -> Seq<char>;

/// `serde_json::to_string` on a list of strings. Trusted: the text is the
/// named JSON encoding of the list, a function of the list alone. The call
/// succeeds: the crate fails only where a `Serialize` impl decides to or a
/// map has non-string keys, and strings and vectors do neither (the bytes go
/// to a `Vec`, which accepts every write). Its error is mapped to `Err(())`.
#[verifier::external_body]
fn json_strings(items: &Vec<String>) -> (r: Result<String, ()>)
    ensures
        r is Ok,
        r matches Ok(text) ==> text@ == spec_json_strings(texts(items@)),
{
    serde_json::to_string(items).map_err(|_| ())
}

/// URL of the project lookup for the given ids.
pub open spec fn spec_projects_url(ids: Seq<Seq<char>>) -> Seq<char> {
    modrinth_base() + "/projects?ids="@ + spec_json_strings(ids)
}

/// URL of the project lookup for the given ids; the ids always encode, so
/// the result is always `Ok`.
pub fn projects_url(project_ids: &Vec<String>) -> (r: Result<String, ()>)
    ensures
        r is Ok,
        r matches Ok(u) ==> u@ == spec_projects_url(texts(project_ids@)),
{
    let ids = json_strings(project_ids)?;
    let mut u = String::from_str("https://api.modrinth.com/v2");
    u.append("/projects?ids=");
    u.append(ids.as_str());
    Ok(u)
}

/// HTTP status of a rate-limited answer.
pub const TOO_MANY_REQUESTS: u16 = 429;

/// Seconds to wait before asking again: for status 429 the `Retry-After`
/// seconds, or 1 when the header is absent or not a number; for any other
/// status none (the answer stands).
pub open spec fn spec_retry_delay(status: u16, retry_after: Option<Seq<char>>) -> Option<u64> {
    if status == TOO_MANY_REQUESTS {
        match retry_after {
            Some(h) => match spec_parse_unsigned(h, u64::MAX as nat) {
                Some(v) => Some(v as u64),
                None => Some(1),
            },
            None => Some(1),
        }
    } else {
        None
    }
}

/// Only a rate-limited answer (429) is retried; it waits the seconds that
/// `Retry-After` gives as a decimal number, and 1 second without a usable header.
pub proof fn law_retry_delay(status: u16, retry_after: Option<Seq<char>>, n: u64)
    ensures
        spec_retry_delay(status, retry_after) is Some <==> status == 429,
        spec_retry_delay(429, Some(decimal(n as nat))) == Some(n),
        spec_retry_delay(429, None) == Some(1u64),
{
    law_decimal_parses_back(n as nat, u64::MAX as nat);
}

/// Whether to retry a request, and after how many seconds.
pub fn retry_delay(status: u16, retry_after: Option<&str>) -> (r: Option<u64>)
    ensures
        r == spec_retry_delay(
            status,
            match retry_after {
                Some(h) => Some(h@),
                None => None,
            },
        ),
{
    if status != TOO_MANY_REQUESTS {
        return None;
    }
    match retry_after {
        Some(h) => match parse_unsigned(h, u64::MAX) {
            Some(v) => Some(v),
            None => Some(1),
        },
        None => Some(1),
    }
}

} // verus!
