//! Shared data model: configuration, local files, mod versions, identified
//! mods and client/server discrepancies, each with its mathematical view.

use vstd::prelude::*;

verus! {

/// The text views of a vector of strings.
pub open spec fn strings_view(v: Seq<String>) -> Seq<Seq<char>> {
    v.map_values(|s: String| s@)
}

/// A clone of a vector of strings, element by element.
pub fn clone_strings(v: &Vec<String>) -> (res: Vec<String>)
    ensures
        strings_view(res@) == strings_view(v@),
{
    let mut res: Vec<String> = Vec::new();
    let mut i: usize = 0;
    while i < v.len()
        invariant
            i <= v@.len(),
            res@.len() == i,
            forall|j: int| 0 <= j < i ==> res@[j]@ == v@[j]@,
        decreases v@.len() - i,
    {
        res.push(v[i].clone());
        i = i + 1;
    }
    assert(strings_view(res@) =~= strings_view(v@));
    res
}

/// Settings of the local Minecraft instance.
#[derive(Debug)]
pub struct LocalConfig {
    pub mods_folder: String,
    pub minecraft_version: String,
    pub loader: String,
}

/// Mathematical view of a [`LocalConfig`].
pub struct LocalConfigView {
    pub mods_folder: Seq<char>,
    pub minecraft_version: Seq<char>,
    pub loader: Seq<char>,
}

impl View for LocalConfig {
    type V = LocalConfigView;

    open spec fn view(&self) -> LocalConfigView {
        LocalConfigView {
            mods_folder: self.mods_folder@,
            minecraft_version: self.minecraft_version@,
            loader: self.loader@,
        }
    }
}

impl Clone for LocalConfig {
    fn clone(&self) -> (res: Self)
        ensures
            res@ == self@,
    {
        LocalConfig {
            mods_folder: self.mods_folder.clone(),
            minecraft_version: self.minecraft_version.clone(),
            loader: self.loader.clone(),
        }
    }
}

/// A remote server reachable over SFTP.
#[derive(Debug)]
pub struct ServerConfig {
    pub name: String,
    pub host: String,
    pub port: u16,
    pub username: String,
    pub password: String,
    pub remote_mods_folder: String,
}

/// Mathematical view of a [`ServerConfig`].
pub struct ServerConfigView {
    pub name: Seq<char>,
    pub host: Seq<char>,
    pub port: u16,
    pub username: Seq<char>,
    pub password: Seq<char>,
    pub remote_mods_folder: Seq<char>,
}

impl View for ServerConfig {
    type V = ServerConfigView;

    open spec fn view(&self) -> ServerConfigView {
        ServerConfigView {
            name: self.name@,
            host: self.host@,
            port: self.port,
            username: self.username@,
            password: self.password@,
            remote_mods_folder: self.remote_mods_folder@,
        }
    }
}

impl Clone for ServerConfig {
    fn clone(&self) -> (res: Self)
        ensures
            res@ == self@,
    {
        ServerConfig {
            name: self.name.clone(),
            host: self.host.clone(),
            port: self.port,
            username: self.username.clone(),
            password: self.password.clone(),
            remote_mods_folder: self.remote_mods_folder.clone(),
        }
    }
}

/// CurseForge access; without it only Modrinth is asked.
#[derive(Debug)]
pub struct CurseForgeConfig {
    pub api_key: String,
}

impl Clone for CurseForgeConfig {
    fn clone(&self) -> (res: Self)
        ensures
            res.api_key@ == self.api_key@,
    {
        CurseForgeConfig { api_key: self.api_key.clone() }
    }
}

/// The whole configuration file.
#[derive(Debug)]
pub struct AppConfig {
    pub local: LocalConfig,
    pub curseforge: Option<CurseForgeConfig>,
    pub servers: Vec<ServerConfig>,
}

/// Mathematical view of an [`AppConfig`].
pub struct AppConfigView {
    pub local: LocalConfigView,
    pub curseforge: Option<Seq<char>>,
    pub servers: Seq<ServerConfigView>,
}

impl View for AppConfig {
    type V = AppConfigView;

    open spec fn view(&self) -> AppConfigView {
        AppConfigView {
            local: self.local@,
            curseforge: match self.curseforge {
                Some(c) => Some(c.api_key@),
                None => None,
            },
            servers: self.servers@.map_values(|s: ServerConfig| s@),
        }
    }
}

impl Clone for AppConfig {
    fn clone(&self) -> (res: Self)
        ensures
            res@ == self@,
    {
        let mut servers: Vec<ServerConfig> = Vec::new();
        let mut i: usize = 0;
        while i < self.servers.len()
            invariant
                i <= self.servers@.len(),
                servers@.len() == i,
                forall|k: int| 0 <= k < i ==> #[trigger] servers@[k]@ == self.servers@[k]@,
            decreases self.servers@.len() - i,
        {
            servers.push(self.servers[i].clone());
            i = i + 1;
        }
        let res = AppConfig {
            local: self.local.clone(),
            curseforge: match &self.curseforge {
                Some(c) => Some(c.clone()),
                None => None,
            },
            servers: servers,
        };
        assert(res@.servers =~= self@.servers);
        res
    }
}

/// A mod jar found in a mods folder, with its two fingerprints.
#[derive(Debug)]
pub struct LocalMod {
    pub filename: String,
    pub filepath: String,
    pub sha512: String,
    pub murmur2: Option<u32>,
}

/// Mathematical view of a [`LocalMod`].
pub struct LocalModView {
    pub filename: Seq<char>,
    pub filepath: Seq<char>,
    pub sha512: Seq<char>,
    pub murmur2: Option<u32>,
}

impl View for LocalMod {
    type V = LocalModView;

    open spec fn view(&self) -> LocalModView {
        LocalModView {
            filename: self.filename@,
            filepath: self.filepath@,
            sha512: self.sha512@,
            murmur2: self.murmur2,
        }
    }
}

impl Clone for LocalMod {
    fn clone(&self) -> (res: Self)
        ensures
            res@ == self@,
    {
        LocalMod {
            filename: self.filename.clone(),
            filepath: self.filepath.clone(),
            sha512: self.sha512.clone(),
            murmur2: self.murmur2,
        }
    }
}

/// Where a mod was identified.
#[derive(Debug, Clone, Copy, PartialEq, Eq, Structural)]
pub enum ModSource {
    Modrinth,
    CurseForge,
}

/// Text of a [`ModSource`] label.
pub open spec fn spec_source_label(s: ModSource) -> Seq<char> {
    match s {
        ModSource::Modrinth => "Modrinth"@,
        ModSource::CurseForge => "CurseForge"@,
    }
}

impl ModSource {
    pub fn label(&self) -> (l: &'static str)
        ensures
            l@ == spec_source_label(*self),
    {
        match self {
            ModSource::Modrinth => "Modrinth",
            ModSource::CurseForge => "CurseForge",
        }
    }
}

/// On which side of the game a mod is needed.
#[derive(Debug, Clone, Copy, PartialEq, Eq, Structural)]
pub enum Side {
    Both,
    ClientOnly,
    ServerOnly,
}

/// Text of a [`Side`] label.
pub open spec fn spec_side_label(s: Side) -> Seq<char> {
    match s {
        Side::Both => "both"@,
        Side::ClientOnly => "client"@,
        Side::ServerOnly => "server"@,
    }
}

impl Side {
    pub fn label(&self) -> (l: &'static str)
        ensures
            l@ == spec_side_label(*self),
    {
        match self {
            Side::Both => "both",
            Side::ClientOnly => "client",
            Side::ServerOnly => "server",
        }
    }
}

/// One downloadable version of a mod.
#[derive(Debug)]
pub struct ModVersion {
    pub version_id: String,
    pub version_number: String,
    pub filename: String,
    pub download_url: String,
    pub game_versions: Vec<String>,
    pub loaders: Vec<String>,
    pub source: ModSource,
}

/// Mathematical view of a [`ModVersion`].
pub struct ModVersionView {
    pub version_id: Seq<char>,
    pub version_number: Seq<char>,
    pub filename: Seq<char>,
    pub download_url: Seq<char>,
    pub game_versions: Seq<Seq<char>>,
    pub loaders: Seq<Seq<char>>,
    pub source: ModSource,
}

impl View for ModVersion {
    type V = ModVersionView;

    open spec fn view(&self) -> ModVersionView {
        ModVersionView {
            version_id: self.version_id@,
            version_number: self.version_number@,
            filename: self.filename@,
            download_url: self.download_url@,
            game_versions: strings_view(self.game_versions@),
            loaders: strings_view(self.loaders@),
            source: self.source,
        }
    }
}

impl Clone for ModVersion {
    fn clone(&self) -> (res: Self)
        ensures
            res@ == self@,
    {
        ModVersion {
            version_id: self.version_id.clone(),
            version_number: self.version_number.clone(),
            filename: self.filename.clone(),
            download_url: self.download_url.clone(),
            game_versions: clone_strings(&self.game_versions),
            loaders: clone_strings(&self.loaders),
            source: self.source,
        }
    }
}

/// View of an optional version.
pub open spec fn opt_version_view(v: Option<ModVersion>) -> Option<ModVersionView> {
    match v {
        Some(x) => Some(x@),
        None => None,
    }
}

/// Clone of an optional version.
pub fn clone_opt_version(v: &Option<ModVersion>) -> (res: Option<ModVersion>)
    ensures
        opt_version_view(res) == opt_version_view(*v),
{
    match v {
        Some(x) => Some(x.clone()),
        None => None,
    }
}

/// A mod that one of the services recognised, with its newest compatible version.
#[derive(Debug)]
pub struct ModInfo {
    pub project_id: String,
    pub project_name: String,
    pub current_version: ModVersion,
    pub latest_version: Option<ModVersion>,
    pub local_mod: LocalMod,
    pub source: ModSource,
    pub side: Side,
}

/// Mathematical view of a [`ModInfo`].
pub struct ModInfoView {
    pub project_id: Seq<char>,
    pub project_name: Seq<char>,
    pub current_version: ModVersionView,
    pub latest_version: Option<ModVersionView>,
    pub local_mod: LocalModView,
    pub source: ModSource,
    pub side: Side,
}

impl View for ModInfo {
    type V = ModInfoView;

    open spec fn view(&self) -> ModInfoView {
        ModInfoView {
            project_id: self.project_id@,
            project_name: self.project_name@,
            current_version: self.current_version@,
            latest_version: opt_version_view(self.latest_version),
            local_mod: self.local_mod@,
            source: self.source,
            side: self.side,
        }
    }
}

impl Clone for ModInfo {
    fn clone(&self) -> (res: Self)
        ensures
            res@ == self@,
    {
        ModInfo {
            project_id: self.project_id.clone(),
            project_name: self.project_name.clone(),
            current_version: self.current_version.clone(),
            latest_version: clone_opt_version(&self.latest_version),
            local_mod: self.local_mod.clone(),
            source: self.source,
            side: self.side,
        }
    }
}

/// Whether a newer version than the installed one is known.
pub open spec fn spec_has_update(m: ModInfoView) -> bool {
    match m.latest_version {
        Some(latest) => latest.version_id != m.current_version.version_id,
        None => false,
    }
}

/// A mod has an update exactly when its newest compatible version is known
/// and is another version than the installed one; a mod already on its
/// newest version, or with none known, has none.
pub proof fn law_has_update(m: ModInfoView)
    ensures
        spec_has_update(m) <==> (m.latest_version is Some && m.latest_version.unwrap().version_id
            != m.current_version.version_id),
        m.latest_version matches Some(v) && v.version_id == m.current_version.version_id ==> !spec_has_update(m),
        m.latest_version is None ==> !spec_has_update(m),
{
}

impl ModInfo {
    pub fn has_update(&self) -> (b: bool)
        ensures
            b == spec_has_update(self@),
    {
        match &self.latest_version {
            Some(latest) => latest.version_id != self.current_version.version_id,
            None => false,
        }
    }
}

/// A jar that neither service recognised.
#[derive(Debug)]
pub struct UnknownMod {
    pub local_mod: LocalMod,
}

impl Clone for UnknownMod {
    fn clone(&self) -> (res: Self)
        ensures
            res.local_mod@ == self.local_mod@,
    {
        UnknownMod { local_mod: self.local_mod.clone() }
    }
}

/// How a destination differs from its source for one project.
#[derive(Debug, Clone, Copy, PartialEq, Eq, Structural)]
pub enum DiscrepancyKind {
    Mismatch,
    ClientOnly,
    ServerOnly,
}

/// One difference between a source mod set and a destination server.
#[derive(Debug)]
pub struct DiscrepancyRecord {
    pub project_id: String,
    pub project_name: String,
    pub kind: DiscrepancyKind,
    pub client_mod: Option<ModInfo>,
    pub server_mod: Option<ModInfo>,
}

/// View of an optional identified mod.
pub open spec fn opt_info_view(m: Option<ModInfo>) -> Option<ModInfoView> {
    match m {
        Some(x) => Some(x@),
        None => None,
    }
}

/// Clone of an optional identified mod.
pub fn clone_opt_info(m: &Option<ModInfo>) -> (res: Option<ModInfo>)
    ensures
        opt_info_view(res) == opt_info_view(*m),
{
    match m {
        Some(x) => Some(x.clone()),
        None => None,
    }
}

/// Mathematical view of a [`DiscrepancyRecord`].
pub struct DiscrepancyView {
    pub project_id: Seq<char>,
    pub project_name: Seq<char>,
    pub kind: DiscrepancyKind,
    pub client_mod: Option<ModInfoView>,
    pub server_mod: Option<ModInfoView>,
}

impl View for DiscrepancyRecord {
    type V = DiscrepancyView;

    open spec fn view(&self) -> DiscrepancyView {
        DiscrepancyView {
            project_id: self.project_id@,
            project_name: self.project_name@,
            kind: self.kind,
            client_mod: opt_info_view(self.client_mod),
            server_mod: opt_info_view(self.server_mod),
        }
    }
}

impl Clone for DiscrepancyRecord {
    fn clone(&self) -> (res: Self)
        ensures
            res@ == self@,
    {
        DiscrepancyRecord {
            project_id: self.project_id.clone(),
            project_name: self.project_name.clone(),
            kind: self.kind,
            client_mod: clone_opt_info(&self.client_mod),
            server_mod: clone_opt_info(&self.server_mod),
        }
    }
}

/// Views of a sequence of identified mods.
pub open spec fn infos_view(s: Seq<ModInfo>) -> Seq<ModInfoView> {
    s.map_values(|m: ModInfo| m@)
}

/// Views of a sequence of discrepancy records.
pub open spec fn records_view(s: Seq<DiscrepancyRecord>) -> Seq<DiscrepancyView> {
    s.map_values(|r: DiscrepancyRecord| r@)
}

} // verus!
