//! The application's state outside the window: configuration defaults,
//! server labels, the log, the scan results and selections, and how each
//! finished background job changes them.

use crate::models::{
    infos_view, records_view, spec_has_update, AppConfig, AppConfigView, DiscrepancyRecord,
    DiscrepancyView, LocalConfig, LocalModView, ModInfo, ModInfoView, ServerConfig,
};
use crate::models::{CurseForgeConfig, DiscrepancyKind};
use crate::state::AppState;
use crate::text::{decimal, decimal_text};
use crate::updater::{unknowns_view, IdentifyResult};
use vstd::prelude::*;

verus! {

/// The configuration shown before any has been saved: no mods folder,
/// Minecraft 1.21.1 with NeoForge, no CurseForge key, no servers.
pub fn default_config() -> (c: AppConfig)
    ensures
        c@.local.mods_folder == Seq::<char>::empty(),
        c@.local.minecraft_version == "1.21.1"@,
        c@.local.loader == "neoforge"@,
        c@.curseforge is None,
        c@.servers.len() == 0,
{
    let c = AppConfig {
        local: LocalConfig {
            mods_folder: String::new(),
            minecraft_version: String::from_str("1.21.1"),
            loader: String::from_str("neoforge"),
        },
        curseforge: None,
        servers: Vec::new(),
    };
    assert(c@.servers =~= Seq::empty());
    c
}

/// Label of server `idx`: its name, or "Server n" (counting from 1) when it has none.
pub open spec fn spec_server_label(name: Seq<char>, idx: nat) -> Seq<char> {
    if name.len() == 0 {
        "Server "@ + decimal(idx + 1)
    } else {
        name
    }
}

/// The label under which a server is shown.
pub fn server_label(name: &str, idx: usize) -> (l: String)
    requires
        idx < usize::MAX,
    ensures
        l@ == spec_server_label(name@, idx as nat),
{
    if name.unicode_len() == 0 {
        let mut l = String::from_str("Server ");
        let n = decimal_text((idx + 1) as u64);
        l.append(n.as_str());
        l
    } else {
        String::from_str(name)
    }
}

/// A new server entry in the settings: named after its position, port 22,
/// mods in "/mods", everything else empty.
pub fn new_server(existing: usize) -> (s: ServerConfig)
    requires
        existing < usize::MAX,
    ensures
        s@.name == "Server "@ + decimal(existing as nat + 1),
        s@.host == Seq::<char>::empty(),
        s@.port == 22,
        s@.username == Seq::<char>::empty(),
        s@.password == Seq::<char>::empty(),
        s@.remote_mods_folder == "/mods"@,
{
    let mut name = String::from_str("Server ");
    let n = decimal_text((existing + 1) as u64);
    name.append(n.as_str());
    ServerConfig {
        name: name,
        host: String::new(),
        port: 22,
        username: String::new(),
        password: String::new(),
        remote_mods_folder: String::from_str("/mods"),
    }
}

/// Longest the log grows.
pub const LOG_LIMIT: usize = 200;

/// The log after appending a line: the oldest line goes once it is over the limit.
pub open spec fn spec_push_log(log: Seq<Seq<char>>, line: Seq<char>) -> Seq<Seq<char>> {
    let l = log.push(line);
    if l.len() > LOG_LIMIT {
        l.drop_first()
    } else {
        l
    }
}

/// The log never grows past its limit, and its newest line is the one added.
pub proof fn law_log_bounded(log: Seq<Seq<char>>, line: Seq<char>)
    requires
        log.len() <= LOG_LIMIT,
    ensures
        spec_push_log(log, line).len() <= LOG_LIMIT,
        spec_push_log(log, line).last() == line,
{
}

/// Text views of the log.
pub open spec fn lines(v: Seq<String>) -> Seq<Seq<char>> {
    v.map_values(|s: String| s@)
}

/// Appends a line to the log.
pub fn push_log(log: &mut Vec<String>, line: String)
    ensures
        lines(final(log)@) == spec_push_log(lines(old(log)@), line@),
{
    let ghost before = lines(log@);
    log.push(line);
    assert(lines(log@) =~= before.push(line@));
    if log.len() > LOG_LIMIT {
        log.remove(0);
        assert(lines(log@) =~= before.push(line@).drop_first());
    }
}

/// View of an identification result: identified mods and unknown jars.
pub struct ResultView {
    pub known: Seq<ModInfoView>,
    pub unknown: Seq<LocalModView>,
}

/// View of an identification result.
pub open spec fn result_view(r: IdentifyResult) -> ResultView {
    ResultView { known: infos_view(r.known@), unknown: unknowns_view(r.unknown@) }
}

/// View of an optional identification result.
pub open spec fn opt_result_view(r: Option<IdentifyResult>) -> Option<ResultView> {
    match r {
        Some(x) => Some(result_view(x)),
        None => None,
    }
}

/// What a finished background job reports.
#[derive(Debug)]
pub enum Msg {
    /// The client scan: identification result, or an error message.
    Client(Result<IdentifyResult, String>),
    /// The scan of the server at the index in the first field: its result
    /// and its discrepancies with the client, or an error.
    Server(usize, Result<(IdentifyResult, Vec<DiscrepancyRecord>), String>),
    /// A sync or update job: a success message or an error message.
    Done(Result<String, String>),
}

/// The tab of one server.
#[derive(Debug)]
pub struct ServerPanel {
    pub result: Option<IdentifyResult>,
    pub discrepancies: Vec<DiscrepancyRecord>,
    pub disc_sel: Vec<bool>,
    pub upd_sel: Vec<bool>,
}

/// View of a server tab.
pub struct PanelView {
    pub result: Option<ResultView>,
    pub discrepancies: Seq<DiscrepancyView>,
    pub disc_sel: Seq<bool>,
    pub upd_sel: Seq<bool>,
}

impl View for ServerPanel {
    type V = PanelView;

    open spec fn view(&self) -> PanelView {
        PanelView {
            result: opt_result_view(self.result),
            discrepancies: records_view(self.discrepancies@),
            disc_sel: self.disc_sel@,
            upd_sel: self.upd_sel@,
        }
    }
}

impl ServerPanel {
    /// A tab with no scan yet.
    pub fn new() -> (p: Self)
        ensures
            p@.result is None,
            p@.discrepancies.len() == 0,
            p@.disc_sel.len() == 0,
            p@.upd_sel.len() == 0,
    {
        ServerPanel { result: None, discrepancies: Vec::new(), disc_sel: Vec::new(), upd_sel: Vec::new() }
    }
}

/// Scan results, selections and log of the application.
#[derive(Debug)]
pub struct AppModel {
    pub busy: bool,
    pub log: Vec<String>,
    pub client_result: Option<IdentifyResult>,
    pub client_sel: Vec<bool>,
    pub servers: Vec<ServerPanel>,
    pub s2s_disc: Vec<DiscrepancyRecord>,
    pub s2s_sel: Vec<bool>,
}

/// View of the application's state.
pub struct ModelView {
    pub busy: bool,
    pub log: Seq<Seq<char>>,
    pub client_result: Option<ResultView>,
    pub client_sel: Seq<bool>,
    pub servers: Seq<PanelView>,
    pub s2s_disc: Seq<DiscrepancyView>,
    pub s2s_sel: Seq<bool>,
}

impl View for AppModel {
    type V = ModelView;

    open spec fn view(&self) -> ModelView {
        ModelView {
            busy: self.busy,
            log: lines(self.log@),
            client_result: opt_result_view(self.client_result),
            client_sel: self.client_sel@,
            servers: self.servers@.map_values(|p: ServerPanel| p@),
            s2s_disc: records_view(self.s2s_disc@),
            s2s_sel: self.s2s_sel@,
        }
    }
}

/// View of a job report.
pub enum MsgView {
    Client(Result<ResultView, Seq<char>>),
    Server(usize, Result<(ResultView, Seq<DiscrepancyView>), Seq<char>>),
    Done(Result<Seq<char>, Seq<char>>),
}

/// View of a job report.
pub open spec fn msg_view(m: Msg) -> MsgView {
    match m {
        Msg::Client(r) => MsgView::Client(
            match r {
                Ok(x) => Ok(result_view(x)),
                Err(e) => Err(e@),
            },
        ),
        Msg::Server(i, r) => MsgView::Server(
            i,
            match r {
                Ok(x) => Ok((result_view(x.0), records_view(x.1@))),
                Err(e) => Err(e@),
            },
        ),
        Msg::Done(r) => MsgView::Done(
            match r {
                Ok(s) => Ok(s@),
                Err(e) => Err(e@),
            },
        ),
    }
}

/// Which of the mods have an update, mod by mod.
pub open spec fn update_flags(known: Seq<ModInfoView>) -> Seq<bool> {
    known.map_values(|m: ModInfoView| spec_has_update(m))
}

/// How many of the mods have an update.
pub open spec fn update_count(known: Seq<ModInfoView>) -> nat {
    known.filter(|m: ModInfoView| spec_has_update(m)).len()
}

/// Log line of a finished client scan.
pub open spec fn client_done_line(r: ResultView) -> Seq<char> {
    "Client scan done: "@ + decimal(r.known.len()) + " identified, "@ + decimal(r.unknown.len())
        + " unknown, "@ + decimal(update_count(r.known)) + " update(s)."@
}

/// Log line of a finished server scan.
pub open spec fn server_done_line(r: ResultView, discrepancies: nat) -> Seq<char> {
    "Server scan done: "@ + decimal(r.known.len()) + " identified, "@ + decimal(
        update_count(r.known),
    ) + " update(s), "@ + decimal(discrepancies) + " discrepanc(ies)."@
}

/// Log line of an error.
pub open spec fn error_line(e: Seq<char>) -> Seq<char> {
    "ERROR: "@ + e
}

/// The state after a job report: not busy; a client result selects every
/// mod with an update and logs a summary; a server result goes to its tab,
/// selects its updates and all its discrepancies, logs a summary and drops
/// the server-to-server comparison; an error or a message is logged.
pub open spec fn spec_apply_msg(m: ModelView, msg: MsgView) -> ModelView {
    let m = ModelView { busy: false, ..m };
    match msg {
        MsgView::Client(Ok(r)) => ModelView {
            client_sel: update_flags(r.known),
            log: spec_push_log(m.log, client_done_line(r)),
            client_result: Some(r),
            ..m
        },
        MsgView::Client(Err(e)) => ModelView { log: spec_push_log(m.log, error_line(e)), ..m },
        MsgView::Server(idx, Ok((r, disc))) => ModelView {
            servers: m.servers.update(
                idx as int,
                PanelView {
                    result: Some(r),
                    discrepancies: disc,
                    disc_sel: Seq::new(disc.len(), |i: int| true),
                    upd_sel: update_flags(r.known),
                },
            ),
            log: spec_push_log(m.log, server_done_line(r, disc.len())),
            s2s_disc: seq![],
            s2s_sel: seq![],
            ..m
        },
        MsgView::Server(_, Err(e)) => ModelView { log: spec_push_log(m.log, error_line(e)), ..m },
        MsgView::Done(Ok(s)) => ModelView { log: spec_push_log(m.log, s), ..m },
        MsgView::Done(Err(e)) => ModelView { log: spec_push_log(m.log, error_line(e)), ..m },
    }
}

/// After any report the application is idle and the log has one more line
/// at its end (the oldest dropped past the limit); a client scan preselects
/// exactly its mods with an update; a server scan changes only its own tab,
/// where every discrepancy and exactly the mods with an update are selected;
/// scan results and selections are untouched by errors and job messages.
pub proof fn law_apply_msg(m: ModelView, msg: MsgView, i: int, j: int)
    requires
        m.log.len() <= LOG_LIMIT,
        msg_fits(m, msg),
    ensures
        !spec_apply_msg(m, msg).busy,
        spec_apply_msg(m, msg).log.len() <= LOG_LIMIT,
        spec_apply_msg(m, msg).log.len() == if m.log.len() == LOG_LIMIT { m.log.len() } else { m.log.len() + 1 },
        msg matches MsgView::Client(Ok(r)) ==> spec_apply_msg(m, msg).client_sel.len() == r.known.len() && (0 <= i
            < r.known.len() ==> spec_apply_msg(m, msg).client_sel[i] == spec_has_update(r.known[i])),
        msg matches MsgView::Server(idx, Ok((r, disc))) ==> {
            let p = spec_apply_msg(m, msg).servers[idx as int];
            &&& spec_apply_msg(m, msg).servers.len() == m.servers.len()
            &&& p.result == Some(r)
            &&& p.discrepancies == disc
            &&& p.disc_sel.len() == disc.len()
            &&& (0 <= j < disc.len() ==> p.disc_sel[j])
            &&& p.upd_sel.len() == r.known.len()
            &&& (0 <= i < r.known.len() ==> p.upd_sel[i] == spec_has_update(r.known[i]))
            &&& (0 <= j < m.servers.len() && j != idx ==> spec_apply_msg(m, msg).servers[j] == m.servers[j])
        },
        (msg is Done || msg matches MsgView::Client(Err(_)) || msg matches MsgView::Server(_, Err(_))) ==> {
            &&& spec_apply_msg(m, msg).client_result == m.client_result
            &&& spec_apply_msg(m, msg).client_sel == m.client_sel
            &&& spec_apply_msg(m, msg).servers == m.servers
            &&& spec_apply_msg(m, msg).s2s_disc == m.s2s_disc
            &&& spec_apply_msg(m, msg).s2s_sel == m.s2s_sel
        },
{
}

/// The report is for a server tab that exists.
pub open spec fn msg_fits(m: ModelView, msg: MsgView) -> bool {
    match msg {
        MsgView::Server(idx, Ok(_)) => idx < m.servers.len(),
        _ => true,
    }
}

/// Update flags of a list of mods, and how many are set.
fn flags_and_count(known: &Vec<ModInfo>) -> (r: (Vec<bool>, usize))
    ensures
        r.0@ == update_flags(infos_view(known@)),
        r.1 as nat == update_count(infos_view(known@)),
{
    let ghost kv = infos_view(known@);
    let ghost pred = |m: ModInfoView| spec_has_update(m);
    let mut flags: Vec<bool> = Vec::new();
    let mut count: usize = 0;
    let mut i: usize = 0;
    while i < known.len()
        invariant
            kv == infos_view(known@),
            pred == (|m: ModInfoView| spec_has_update(m)),
            i <= known@.len(),
            flags@.len() == i,
            forall|k: int| 0 <= k < i ==> #[trigger] flags@[k] == spec_has_update(kv[k]),
            count as nat == kv.take(i as int).filter(pred).len(),
            count <= i,
        decreases known@.len() - i,
    {
        proof {
            reveal_with_fuel(Seq::<_>::filter, 1);
            assert(kv.take(i + 1).drop_last() =~= kv.take(i as int));
            assert(kv.take(i + 1).last() == known@[i as int]@);
        }
        let u = known[i].has_update();
        flags.push(u);
        if u {
            count = count + 1;
        }
        i = i + 1;
    }
    assert(kv.take(known@.len() as int) =~= kv);
    assert(flags@ =~= update_flags(kv));
    (flags, count)
}

fn client_line(r: &IdentifyResult, updates: usize) -> (l: String)
    requires
        updates as nat == update_count(infos_view(r.known@)),
    ensures
        l@ == client_done_line(result_view(*r)),
{
    let mut l = String::from_str("Client scan done: ");
    let a = decimal_text(r.known.len() as u64);
    l.append(a.as_str());
    l.append(" identified, ");
    let b = decimal_text(r.unknown.len() as u64);
    l.append(b.as_str());
    l.append(" unknown, ");
    let c = decimal_text(updates as u64);
    l.append(c.as_str());
    l.append(" update(s).");
    l
}

fn server_line(r: &IdentifyResult, updates: usize, discrepancies: usize) -> (l: String)
    requires
        updates as nat == update_count(infos_view(r.known@)),
    ensures
        l@ == server_done_line(result_view(*r), discrepancies as nat),
{
    let mut l = String::from_str("Server scan done: ");
    let a = decimal_text(r.known.len() as u64);
    l.append(a.as_str());
    l.append(" identified, ");
    let b = decimal_text(updates as u64);
    l.append(b.as_str());
    l.append(" update(s), ");
    let c = decimal_text(discrepancies as u64);
    l.append(c.as_str());
    l.append(" discrepanc(ies).");
    l
}

fn error_text(e: &String) -> (l: String)
    ensures
        l@ == error_line(e@),
{
    let mut l = String::from_str("ERROR: ");
    l.append(e.as_str());
    l
}

/// View of a server tab with no scan yet.
pub open spec fn empty_panel() -> PanelView {
    PanelView { result: None, discrepancies: seq![], disc_sel: seq![], upd_sel: seq![] }
}

impl AppModel {
    /// The state at start: idle, nothing scanned, one empty tab per server.
    pub fn new(n_servers: usize) -> (m: Self)
        ensures
            !m@.busy,
            m@.log.len() == 0,
            m@.client_result is None,
            m@.client_sel.len() == 0,
            m@.servers.len() == n_servers,
            forall|i: int| 0 <= i < n_servers ==> #[trigger] m@.servers[i].result is None,
            m@.s2s_disc.len() == 0,
            m@.s2s_sel.len() == 0,
    {
        let mut servers: Vec<ServerPanel> = Vec::new();
        let mut i: usize = 0;
        while i < n_servers
            invariant
                i <= n_servers,
                servers@.len() == i,
                forall|k: int| 0 <= k < i ==> #[trigger] servers@[k]@.result is None,
            decreases n_servers - i,
        {
            servers.push(ServerPanel::new());
            i = i + 1;
        }
        let m = AppModel {
            busy: false,
            log: Vec::new(),
            client_result: None,
            client_sel: Vec::new(),
            servers: servers,
            s2s_disc: Vec::new(),
            s2s_sel: Vec::new(),
        };
        assert(m@.log =~= Seq::empty());
        m
    }

    /// Appends a line to the log.
    pub fn push_log(&mut self, line: String)
        ensures
            final(self)@ == (ModelView { log: spec_push_log(old(self)@.log, line@), ..old(self)@ }),
    {
        push_log(&mut self.log, line);
    }

    /// After the server list changed: one empty tab per server and no
    /// server-to-server comparison; the client scan, selections and log stay.
    pub fn reset_servers(&mut self, n_servers: usize)
        ensures
            final(self)@ == (ModelView {
                servers: Seq::new(n_servers as nat, |i: int| empty_panel()),
                s2s_disc: seq![],
                s2s_sel: seq![],
                ..old(self)@
            }),
    {
        let mut servers: Vec<ServerPanel> = Vec::new();
        let mut i: usize = 0;
        while i < n_servers
            invariant
                i <= n_servers,
                servers@.len() == i,
                forall|k: int| 0 <= k < i ==> #[trigger] servers@[k]@ == empty_panel(),
            decreases n_servers - i,
        {
            let p = ServerPanel::new();
            assert(p@.discrepancies =~= seq![]);
            assert(p@.disc_sel =~= seq![]);
            assert(p@.upd_sel =~= seq![]);
            assert(p@ == empty_panel());
            servers.push(p);
            i = i + 1;
        }
        self.servers = servers;
        self.s2s_disc = Vec::new();
        self.s2s_sel = Vec::new();
        assert(self.servers@.map_values(|p: ServerPanel| p@) =~= Seq::new(n_servers as nat, |i: int| empty_panel()));
        assert(records_view(self.s2s_disc@) =~= seq![]);
        assert(self.s2s_sel@ =~= seq![]);
    }

    /// Keeps a server-to-server comparison, every record selected.
    pub fn set_s2s_comparison(&mut self, disc: Vec<DiscrepancyRecord>)
        ensures
            final(self)@ == (ModelView {
                s2s_disc: records_view(disc@),
                s2s_sel: Seq::new(disc@.len(), |i: int| true),
                ..old(self)@
            }),
    {
        let mut all: Vec<bool> = Vec::new();
        let mut i: usize = 0;
        while i < disc.len()
            invariant
                i <= disc@.len(),
                all@.len() == i,
                forall|k: int| 0 <= k < i ==> all@[k],
            decreases disc@.len() - i,
        {
            all.push(true);
            i = i + 1;
        }
        assert(all@ =~= Seq::new(disc@.len(), |i: int| true));
        self.s2s_disc = disc;
        self.s2s_sel = all;
    }

    /// Takes in the report of a finished job.
    pub fn apply_msg(&mut self, msg: Msg)
        requires
            msg_fits(old(self)@, msg_view(msg)),
        ensures
            final(self)@ == spec_apply_msg(old(self)@, msg_view(msg)),
    {
        self.busy = false;
        match msg {
            Msg::Client(Ok(res)) => {
                let (flags, count) = flags_and_count(&res.known);
                let line = client_line(&res, count);
                self.client_sel = flags;
                push_log(&mut self.log, line);
                self.client_result = Some(res);
            },
            Msg::Client(Err(e)) => {
                push_log(&mut self.log, error_text(&e));
            },
            Msg::Server(idx, Ok((res, disc))) => {
                let (flags, count) = flags_and_count(&res.known);
                let line = server_line(&res, count, disc.len());
                let mut all: Vec<bool> = Vec::new();
                let mut i: usize = 0;
                while i < disc.len()
                    invariant
                        i <= disc@.len(),
                        all@.len() == i,
                        forall|k: int| 0 <= k < i ==> all@[k],
                    decreases disc@.len() - i,
                {
                    all.push(true);
                    i = i + 1;
                }
                assert(all@ =~= Seq::new(disc@.len(), |i: int| true));
                push_log(&mut self.log, line);
                let ghost old_servers = self.servers@;
                let panel = ServerPanel { result: Some(res), discrepancies: disc, disc_sel: all, upd_sel: flags };
                self.servers.set(idx, panel);
                assert(self.servers@.map_values(|p: ServerPanel| p@) =~= old_servers.map_values(|p: ServerPanel| p@).update(idx as int, panel@));
                self.s2s_disc = Vec::new();
                self.s2s_sel = Vec::new();
                assert(records_view(self.s2s_disc@) =~= seq![]);
                assert(self.s2s_sel@ =~= seq![]);
            },
            Msg::Server(_, Err(e)) => {
                push_log(&mut self.log, error_text(&e));
            },
            Msg::Done(Ok(s)) => {
                push_log(&mut self.log, s);
            },
            Msg::Done(Err(e)) => {
                push_log(&mut self.log, error_text(&e));
            },
        }
    }
}

/// Indices of the mods that have an update, ascending.
pub open spec fn spec_updatable(known: Seq<ModInfoView>, n: nat) -> Seq<usize>
    decreases n,
{
    if n == 0 {
        seq![]
    } else {
        let rest = spec_updatable(known, (n - 1) as nat);
        if spec_has_update(known[n - 1]) {
            rest.push((n - 1) as usize)
        } else {
            rest
        }
    }
}

/// The indices of the mods that have an update.
pub fn updatable_indices(known: &Vec<ModInfo>) -> (idx: Vec<usize>)
    ensures
        idx@ == spec_updatable(infos_view(known@), known@.len()),
        forall|k: int| 0 <= k < idx@.len() ==> idx@[k] < known@.len(),
{
    let ghost kv = infos_view(known@);
    let mut idx: Vec<usize> = Vec::new();
    let mut i: usize = 0;
    while i < known.len()
        invariant
            kv == infos_view(known@),
            i <= known@.len(),
            idx@ == spec_updatable(kv, i as nat),
            forall|k: int| 0 <= k < idx@.len() ==> idx@[k] < i,
        decreases known@.len() - i,
    {
        assert(kv[i as int] == known@[i as int]@);
        if known[i].has_update() {
            idx.push(i);
        }
        i = i + 1;
    }
    idx
}

/// The mods to update: those with an update that are selected and not blacklisted, in order.
pub open spec fn spec_selected_updates(
    known: Seq<ModInfoView>,
    sel: Seq<bool>,
    blacklist: Map<Seq<char>, Seq<char>>,
    n: nat,
) -> Seq<ModInfoView>
    decreases n,
{
    if n == 0 {
        seq![]
    } else {
        let rest = spec_selected_updates(known, sel, blacklist, (n - 1) as nat);
        let m = known[n - 1];
        if spec_has_update(m) && sel[n - 1] && !blacklist.contains_key(m.project_id) {
            rest.push(m)
        } else {
            rest
        }
    }
}

/// The mods to update are exactly the selected mods with an update whose
/// project is not blacklisted.
pub proof fn law_selected_updates(
    known: Seq<ModInfoView>,
    sel: Seq<bool>,
    blacklist: Map<Seq<char>, Seq<char>>,
    n: nat,
    x: ModInfoView,
)
    requires
        n <= known.len(),
        n <= sel.len(),
    ensures
        spec_selected_updates(known, sel, blacklist, n).contains(x) <==> exists|i: int|
            0 <= i < n && #[trigger] known[i] == x && spec_has_update(x) && sel[i] && !blacklist.contains_key(
                x.project_id,
            ),
    decreases n,
{
    if n > 0 {
        law_selected_updates(known, sel, blacklist, (n - 1) as nat, x);
        let rest = spec_selected_updates(known, sel, blacklist, (n - 1) as nat);
        let all = spec_selected_updates(known, sel, blacklist, n);
        let m = known[n - 1];
        if spec_has_update(m) && sel[n - 1] && !blacklist.contains_key(m.project_id) {
            assert(all == rest.push(m));
            if all.contains(x) && x != m {
                let t = choose|t: int| 0 <= t < all.len() && all[t] == x;
                assert(rest[t] == x);
            }
            if rest.contains(x) {
                let t = choose|t: int| 0 <= t < rest.len() && rest[t] == x;
                assert(all[t] == x);
            }
            if x == m {
                assert(all[all.len() - 1] == x);
            }
        } else {
            assert(all == rest);
        }
    }
}

/// The discrepancies to resolve are exactly the selected ones whose project
/// is not blacklisted.
pub proof fn law_selected_records(
    disc: Seq<DiscrepancyView>,
    sel: Seq<bool>,
    blacklist: Map<Seq<char>, Seq<char>>,
    n: nat,
    x: DiscrepancyView,
)
    requires
        n <= disc.len(),
        n <= sel.len(),
    ensures
        spec_selected_records(disc, sel, blacklist, n).contains(x) <==> exists|i: int|
            0 <= i < n && #[trigger] disc[i] == x && sel[i] && !blacklist.contains_key(x.project_id),
    decreases n,
{
    if n > 0 {
        law_selected_records(disc, sel, blacklist, (n - 1) as nat, x);
        let rest = spec_selected_records(disc, sel, blacklist, (n - 1) as nat);
        let all = spec_selected_records(disc, sel, blacklist, n);
        let r = disc[n - 1];
        if sel[n - 1] && !blacklist.contains_key(r.project_id) {
            assert(all == rest.push(r));
            if all.contains(x) && x != r {
                let t = choose|t: int| 0 <= t < all.len() && all[t] == x;
                assert(rest[t] == x);
            }
            if rest.contains(x) {
                let t = choose|t: int| 0 <= t < rest.len() && rest[t] == x;
                assert(all[t] == x);
            }
            if x == r {
                assert(all[all.len() - 1] == x);
            }
        } else {
            assert(all == rest);
        }
    }
}

/// The selected, not blacklisted mods with an update.
pub fn selected_updates(known: &Vec<ModInfo>, sel: &Vec<bool>, state: &AppState) -> (chosen: Vec<ModInfo>)
    requires
        forall|i: int| 0 <= i < known@.len() && spec_has_update(#[trigger] known@[i]@) ==> i < sel@.len(),
    ensures
        infos_view(chosen@) == spec_selected_updates(infos_view(known@), sel@, state@, known@.len()),
{
    let ghost kv = infos_view(known@);
    let mut chosen: Vec<ModInfo> = Vec::new();
    let mut i: usize = 0;
    while i < known.len()
        invariant
            kv == infos_view(known@),
            forall|i: int| 0 <= i < known@.len() && spec_has_update(#[trigger] known@[i]@) ==> i < sel@.len(),
            i <= known@.len(),
            infos_view(chosen@) == spec_selected_updates(kv, sel@, state@, i as nat),
        decreases known@.len() - i,
    {
        let m = &known[i];
        assert(kv[i as int] == m@);
        let ghost before = chosen@;
        if m.has_update() && sel[i] && !state.is_blacklisted(m.project_id.as_str()) {
            chosen.push(m.clone());
            assert(infos_view(chosen@) =~= infos_view(before).push(m@));
        }
        i = i + 1;
    }
    chosen
}

/// The discrepancies to resolve: those selected and not blacklisted, in order.
pub open spec fn spec_selected_records(
    disc: Seq<DiscrepancyView>,
    sel: Seq<bool>,
    blacklist: Map<Seq<char>, Seq<char>>,
    n: nat,
) -> Seq<DiscrepancyView>
    decreases n,
{
    if n == 0 {
        seq![]
    } else {
        let rest = spec_selected_records(disc, sel, blacklist, (n - 1) as nat);
        let r = disc[n - 1];
        if sel[n - 1] && !blacklist.contains_key(r.project_id) {
            rest.push(r)
        } else {
            rest
        }
    }
}

/// The selected, not blacklisted discrepancies.
pub fn selected_records(disc: &Vec<DiscrepancyRecord>, sel: &Vec<bool>, state: &AppState) -> (chosen: Vec<DiscrepancyRecord>)
    requires
        disc@.len() <= sel@.len(),
    ensures
        records_view(chosen@) == spec_selected_records(records_view(disc@), sel@, state@, disc@.len()),
{
    let ghost dv = records_view(disc@);
    let mut chosen: Vec<DiscrepancyRecord> = Vec::new();
    let mut i: usize = 0;
    while i < disc.len()
        invariant
            dv == records_view(disc@),
            disc@.len() <= sel@.len(),
            i <= disc@.len(),
            records_view(chosen@) == spec_selected_records(dv, sel@, state@, i as nat),
        decreases disc@.len() - i,
    {
        let r = &disc[i];
        assert(dv[i as int] == r@);
        let ghost before = chosen@;
        if sel[i] && !state.is_blacklisted(r.project_id.as_str()) {
            chosen.push(r.clone());
            assert(records_view(chosen@) =~= records_view(before).push(r@));
        }
        i = i + 1;
    }
    chosen
}

/// Indices of the records of one kind, ascending.
pub open spec fn spec_kind_indices(disc: Seq<DiscrepancyView>, kind: DiscrepancyKind, n: nat) -> Seq<usize>
    decreases n,
{
    if n == 0 {
        seq![]
    } else {
        let rest = spec_kind_indices(disc, kind, (n - 1) as nat);
        if disc[n - 1].kind == kind {
            rest.push((n - 1) as usize)
        } else {
            rest
        }
    }
}

/// The indices of the records of one kind (one group of the discrepancy list).
pub fn kind_indices(disc: &Vec<DiscrepancyRecord>, kind: DiscrepancyKind) -> (idx: Vec<usize>)
    ensures
        idx@ == spec_kind_indices(records_view(disc@), kind, disc@.len()),
        forall|k: int| 0 <= k < idx@.len() ==> idx@[k] < disc@.len(),
{
    let ghost dv = records_view(disc@);
    let mut idx: Vec<usize> = Vec::new();
    let mut i: usize = 0;
    while i < disc.len()
        invariant
            dv == records_view(disc@),
            i <= disc@.len(),
            idx@ == spec_kind_indices(dv, kind, i as nat),
            forall|k: int| 0 <= k < idx@.len() ==> idx@[k] < i,
        decreases disc@.len() - i,
    {
        assert(dv[i as int] == disc@[i as int]@);
        if disc[i].kind == kind {
            idx.push(i);
        }
        i = i + 1;
    }
    idx
}

/// Clears the selection of every record of a blacklisted project.
pub fn unselect_blacklisted(disc: &Vec<DiscrepancyRecord>, sel: &mut Vec<bool>, state: &AppState)
    requires
        disc@.len() <= old(sel)@.len(),
    ensures
        final(sel)@.len() == old(sel)@.len(),
        forall|i: int|
            0 <= i < old(sel)@.len() ==> #[trigger] final(sel)@[i] == if i < disc@.len()
                && state@.contains_key(disc@[i].project_id@) {
                false
            } else {
                old(sel)@[i]
            },
{
    let ghost orig = sel@;
    let mut i: usize = 0;
    while i < disc.len()
        invariant
            disc@.len() <= orig.len(),
            sel@.len() == orig.len(),
            i <= disc@.len(),
            forall|k: int|
                0 <= k < orig.len() ==> #[trigger] sel@[k] == if k < i && state@.contains_key(
                    disc@[k].project_id@,
                ) {
                    false
                } else {
                    orig[k]
                },
        decreases disc@.len() - i,
    {
        if state.is_blacklisted(disc[i].project_id.as_str()) {
            sel.set(i, false);
        }
        i = i + 1;
    }
}

/// Of the given record indices, those whose project is not blacklisted, in order.
pub fn selectable_indices(disc: &Vec<DiscrepancyRecord>, idxs: &Vec<usize>, state: &AppState) -> (r: Vec<usize>)
    requires
        forall|k: int| 0 <= k < idxs@.len() ==> idxs@[k] < disc@.len(),
    ensures
        r@ == idxs@.filter(|i: usize| !state@.contains_key(disc@[i as int].project_id@)),
{
    let ghost pred = |i: usize| !state@.contains_key(disc@[i as int].project_id@);
    let mut r: Vec<usize> = Vec::new();
    let mut k: usize = 0;
    while k < idxs.len()
        invariant
            forall|k: int| 0 <= k < idxs@.len() ==> idxs@[k] < disc@.len(),
            pred == (|i: usize| !state@.contains_key(disc@[i as int].project_id@)),
            k <= idxs@.len(),
            r@ == idxs@.take(k as int).filter(pred),
        decreases idxs@.len() - k,
    {
        proof {
            reveal_with_fuel(Seq::<_>::filter, 1);
            assert(idxs@.take(k + 1).drop_last() =~= idxs@.take(k as int));
        }
        let i = idxs[k];
        if !state.is_blacklisted(disc[i].project_id.as_str()) {
            r.push(i);
        }
        k = k + 1;
    }
    assert(idxs@.take(idxs@.len() as int) =~= idxs@);
    r
}

/// Whether a group's "select all" box is ticked: the group has a
/// selectable row and every one of them is selected.
pub fn all_selected(sel: &Vec<bool>, idxs: &Vec<usize>) -> (b: bool)
    requires
        forall|k: int| 0 <= k < idxs@.len() ==> idxs@[k] < sel@.len(),
    ensures
        b == (idxs@.len() > 0 && forall|k: int| 0 <= k < idxs@.len() ==> sel@[#[trigger] idxs@[k] as int]),
{
    if idxs.len() == 0 {
        return false;
    }
    let mut k: usize = 0;
    while k < idxs.len()
        invariant
            forall|k: int| 0 <= k < idxs@.len() ==> idxs@[k] < sel@.len(),
            k <= idxs@.len(),
            forall|j: int| 0 <= j < k ==> sel@[#[trigger] idxs@[j] as int],
        decreases idxs@.len() - k,
    {
        if !sel[idxs[k]] {
            return false;
        }
        k = k + 1;
    }
    true
}

/// Row `i` is one of the listed indices.
pub open spec fn listed(idxs: Seq<usize>, i: int) -> bool {
    exists|k: int| 0 <= k < idxs.len() && idxs[k] as int == i
}

/// Ticks or clears the given rows at once (a group's "select all").
pub fn set_selection(sel: &mut Vec<bool>, idxs: &Vec<usize>, value: bool)
    requires
        forall|k: int| 0 <= k < idxs@.len() ==> idxs@[k] < old(sel)@.len(),
    ensures
        final(sel)@.len() == old(sel)@.len(),
        forall|i: int|
            0 <= i < old(sel)@.len() ==> #[trigger] final(sel)@[i] == if listed(idxs@, i) {
                value
            } else {
                old(sel)@[i]
            },
{
    let ghost orig = sel@;
    let mut k: usize = 0;
    while k < idxs.len()
        invariant
            forall|k: int| 0 <= k < idxs@.len() ==> idxs@[k] < orig.len(),
            sel@.len() == orig.len(),
            k <= idxs@.len(),
            forall|i: int|
                0 <= i < orig.len() ==> #[trigger] sel@[i] == if listed(idxs@.take(k as int), i) {
                    value
                } else {
                    orig[i]
                },
        decreases idxs@.len() - k,
    {
        let i = idxs[k];
        let ghost before = sel@;
        sel.set(i, value);
        proof {
            let tk = idxs@.take(k as int);
            let tk1 = idxs@.take(k + 1);
            assert(tk1 =~= tk.push(i));
            assert forall|j: int| 0 <= j < orig.len() implies #[trigger] sel@[j] == if listed(tk1, j) {
                value
            } else {
                orig[j]
            } by {
                if j == i as int {
                    assert(tk1[k as int] == i);
                } else {
                    assert(sel@[j] == before[j]);
                    if listed(tk1, j) {
                        let t = choose|t: int| 0 <= t < tk1.len() && #[trigger] tk1[t] as int == j;
                        assert(tk1[k as int] == i);
                        assert(t < k);
                        assert(tk[t] as int == j);
                    }
                    if listed(tk, j) {
                        let t = choose|t: int| 0 <= t < tk.len() && #[trigger] tk[t] as int == j;
                        assert(tk1[t] as int == j);
                    }
                }
            }
        }
        k = k + 1;
    }
    assert(idxs@.take(idxs@.len() as int) =~= idxs@);
}

/// The server-to-server choice after the server list changed: a source
/// past the end becomes the first server, a destination past the end the last.
pub fn clamp_server_pair(src: usize, dst: usize, n: usize) -> (r: (usize, usize))
    requires
        n >= 1,
    ensures
        r.0 == if src >= n { 0 } else { src },
        r.1 == if dst >= n { (n - 1) as usize } else { dst },
{
    let s = if src >= n { 0 } else { src };
    let d = if dst >= n { n - 1 } else { dst };
    (s, d)
}

/// A character with the Unicode White_Space property (`char::is_whitespace`).
pub open spec fn is_unicode_whitespace(c: char) -> bool {
    let n = c as u32;
    ||| 0x9 <= n <= 0xd
    ||| n == 0x20
    ||| n == 0x85
    ||| n == 0xa0
    ||| n == 0x1680
    ||| 0x2000 <= n <= 0x200a
    ||| n == 0x2028
    ||| n == 0x2029
    ||| n == 0x202f
    ||| n == 0x205f
    ||| n == 0x3000
}

/// The text without its leading whitespace.
pub open spec fn trim_start(s: Seq<char>) -> Seq<char>
    decreases s.len(),
{
    if s.len() > 0 && is_unicode_whitespace(s[0]) {
        trim_start(s.drop_first())
    } else {
        s
    }
}

/// The text without its trailing whitespace.
pub open spec fn trim_end(s: Seq<char>) -> Seq<char>
    decreases s.len(),
{
    if s.len() > 0 && is_unicode_whitespace(s.last()) {
        trim_end(s.drop_last())
    } else {
        s
    }
}

/// The text with leading and trailing Unicode whitespace removed.
pub open spec fn spec_trim(s: Seq<char>) -> Seq<char> {
    trim_end(trim_start(s))
}

/// `str::trim`. Trusted: as its documentation says, the result is the text
/// without leading and trailing characters of the Unicode White_Space property.
#[verifier::external_body]
fn trim(s: &str) -> (r: &str)
    ensures
        r@ == spec_trim(s@),
{
    s.trim()
}

/// The CurseForge setting from the key typed in the settings: none when
/// the key is blank, else the key without surrounding whitespace.
pub fn curseforge_setting(key_draft: &str) -> (c: Option<CurseForgeConfig>)
    ensures
        match c {
            Some(cfg) => spec_trim(key_draft@).len() > 0 && cfg.api_key@ == spec_trim(key_draft@),
            None => spec_trim(key_draft@).len() == 0,
        },
{
    let t = trim(key_draft);
    if t.unicode_len() == 0 {
        None
    } else {
        Some(CurseForgeConfig { api_key: String::from_str(t) })
    }
}

} // verus!
