//! Hosting of service extensions: the backend declaration of a manifest, the
//! checks made before a backend is started, the addresses it is bound to and
//! probed at, and the registry of running backends. Spawning processes,
//! binding sockets and probing ports are done by the host.
use vstd::prelude::*;
use crate::text::{i64_to_decimal, owned, str_eq};

verus! {

/// Runtime engine of a backend (`backend.engine` in the manifest).
#[derive(Clone, Debug)]
pub struct EngineSpec {
    /// engine type; only `node` is supported
    pub engine_type: String,
    /// lowest acceptable major version, e.g. `18`
    pub min_version: Option<String>,
}

/// Backend declaration of a service extension (`backend` in the manifest).
#[derive(Clone, Debug)]
pub struct BackendSpec {
    /// entry script, relative to the extension directory
    pub entry: String,
    pub engine: Option<EngineSpec>,
    /// working directory, relative to the extension directory
    pub cwd: Option<String>,
    /// fixed port; a free port is picked when absent
    pub port: Option<u16>,
    /// listen host; loopback when absent
    pub host: Option<String>,
    /// health-check path
    pub health: Option<String>,
}

/// Loopback listen host used when the manifest names none.
pub const DEFAULT_LISTEN_HOST: &'static str = "127.0.0.1";

/// The listen host of a backend: the declared host, or loopback.
pub open spec fn spec_listen_host(host: Option<String>) -> Seq<char> {
    match host {
        Some(h) => h@,
        None => DEFAULT_LISTEN_HOST@,
    }
}

/// Hosts that only the local machine can reach.
pub open spec fn is_loopback(h: Seq<char>) -> bool {
    h == "127.0.0.1"@ || h == "localhost"@ || h == "::1"@
}

impl BackendSpec {
    /// Host the backend listens on.
    pub fn listen_host(&self) -> (r: String)
        ensures
            r@ == spec_listen_host(self.host),
    {
        match &self.host {
            Some(h) => h.clone(),
            None => owned(DEFAULT_LISTEN_HOST),
        }
    }

    /// Whether the backend listens beyond the local machine (needs the
    /// `network` permission).
    pub fn is_external(&self) -> (r: bool)
        ensures
            r == !is_loopback(spec_listen_host(self.host)),
    {
        let h = self.listen_host();
        let s = h.as_str();
        !(str_eq(s, "127.0.0.1") || str_eq(s, "localhost") || str_eq(s, "::1"))
    }
}

/// Address probed for readiness: a wildcard host is probed on loopback, any
/// other host on itself (the backend listens only there).
pub open spec fn spec_probe_host(host: Seq<char>) -> Seq<char> {
    if host == "0.0.0.0"@ || host == "::"@ {
        "127.0.0.1"@
    } else {
        host
    }
}

pub fn probe_host(host: &str) -> (r: String)
    ensures
        r@ == spec_probe_host(host@),
{
    if str_eq(host, "0.0.0.0") || str_eq(host, "::") {
        owned("127.0.0.1")
    } else {
        owned(host)
    }
}

/// `host:port` to bind: the fixed port, or `0` to let the system pick one.
pub fn bind_addr(host: &str, fixed: Option<u16>) -> (r: String)
    ensures
        r@ == host@ + ":"@ + crate::text::decimal(
            match fixed {
                Some(p) => p as int,
                None => 0,
            },
        ),
{
    let p: u16 = match fixed {
        Some(p) => p,
        None => 0,
    };
    let mut s = owned(host);
    s.append(":");
    let d = i64_to_decimal(p as i64);
    s.append(d.as_str());
    s
}

/// Firewall rule name of an extension (no port in it, so that a restart on
/// another port replaces the rule and a stop can delete it by name).
pub fn firewall_rule_name(ext_id: &str) -> (r: String)
    ensures
        r@ == "x-hub extension "@ + ext_id@,
{
    let mut s = owned("x-hub extension ");
    s.append(ext_id);
    s
}

pub open spec fn views(v: Seq<String>) -> Seq<Seq<char>> {
    v.map_values(|s: String| s@)
}

fn push_owned(v: &mut Vec<String>, s: String)
    ensures
        views(final(v)@) == views(old(v)@).push(s@),
{
    let ghost before = v@;
    v.push(s);
    assert(views(v@) =~= views(before).push(s@));
}

/// Arguments of `netsh` that delete the firewall rule of an extension.
pub fn firewall_delete_args(ext_id: &str) -> (r: Vec<String>)
    ensures
        views(r@) == seq!["advfirewall"@, "firewall"@, "delete"@, "rule"@, "name="@ + "x-hub extension "@ + ext_id@],
{
    let mut v: Vec<String> = Vec::new();
    assert(views(v@) =~= Seq::<Seq<char>>::empty());
    push_owned(&mut v, owned("advfirewall"));
    push_owned(&mut v, owned("firewall"));
    push_owned(&mut v, owned("delete"));
    push_owned(&mut v, owned("rule"));
    let mut name = owned("name=");
    name.append(firewall_rule_name(ext_id).as_str());
    assert(name@ =~= "name="@ + "x-hub extension "@ + ext_id@);
    push_owned(&mut v, name);
    assert(views(v@) =~= seq!["advfirewall"@, "firewall"@, "delete"@, "rule"@, "name="@ + "x-hub extension "@ + ext_id@]);
    v
}

/// Arguments of `netsh` that allow inbound TCP on `port` for `program`
/// under the firewall rule of an extension (private networks only).
pub fn firewall_add_args(ext_id: &str, port: u16, program: &str) -> (r: Vec<String>)
    ensures
        views(r@) == seq![
            "advfirewall"@,
            "firewall"@,
            "add"@,
            "rule"@,
            "name="@ + "x-hub extension "@ + ext_id@,
            "dir=in"@,
            "action=allow"@,
            "protocol=TCP"@,
            "localport="@ + crate::text::decimal(port as int),
            "program="@ + program@,
            "profile=private"@,
        ],
{
    let mut v: Vec<String> = Vec::new();
    assert(views(v@) =~= Seq::<Seq<char>>::empty());
    push_owned(&mut v, owned("advfirewall"));
    push_owned(&mut v, owned("firewall"));
    push_owned(&mut v, owned("add"));
    push_owned(&mut v, owned("rule"));
    let mut name = owned("name=");
    name.append(firewall_rule_name(ext_id).as_str());
    assert(name@ =~= "name="@ + "x-hub extension "@ + ext_id@);
    push_owned(&mut v, name);
    push_owned(&mut v, owned("dir=in"));
    push_owned(&mut v, owned("action=allow"));
    push_owned(&mut v, owned("protocol=TCP"));
    let mut lp = owned("localport=");
    let d = i64_to_decimal(port as i64);
    lp.append(d.as_str());
    push_owned(&mut v, lp);
    let mut pr = owned("program=");
    pr.append(program);
    push_owned(&mut v, pr);
    push_owned(&mut v, owned("profile=private"));
    assert(views(v@) =~= seq![
        "advfirewall"@,
        "firewall"@,
        "add"@,
        "rule"@,
        "name="@ + "x-hub extension "@ + ext_id@,
        "dir=in"@,
        "action=allow"@,
        "protocol=TCP"@,
        "localport="@ + crate::text::decimal(port as int),
        "program="@ + program@,
        "profile=private"@,
    ]);
    v
}

// ---------------------------------------------------------------------------
// Checks before a start

pub open spec fn msg_no_backend(ext_id: Seq<char>) -> Seq<char> {
    "扩展 "@ + ext_id + " 未声明 backend（非 service 扩展）"@
}

pub open spec fn msg_bad_engine(engine: Seq<char>) -> Seq<char> {
    "不支持的运行时引擎类型: "@ + engine
}

pub open spec fn msg_missing_entry(entry: Seq<char>) -> Seq<char> {
    "后端入口不存在: "@ + entry
}

pub open spec fn msg_network_undeclared(ext_id: Seq<char>, host: Seq<char>) -> Seq<char> {
    "PERMISSION_DENIED: 扩展 "@ + ext_id + " 对外监听（host="@ + host + "）需要声明 network 权限"@
}

pub open spec fn msg_network_revoked(ext_id: Seq<char>) -> Seq<char> {
    "PERMISSION_DENIED: 扩展 "@ + ext_id + " 的 network 权限已被用户关闭，无法对外监听"@
}

/// The engine type a backend asks for (`node` when it names none).
pub open spec fn spec_engine_type(b: BackendSpec) -> Seq<char> {
    match b.engine {
        Some(e) => e.engine_type@,
        None => "node"@,
    }
}

pub open spec fn spec_min_version(b: BackendSpec) -> Option<Seq<char>> {
    match b.engine {
        Some(e) => match e.min_version {
            Some(v) => Some(v@),
            None => None,
        },
        None => None,
    }
}

/// First check of a start: the extension declares a backend whose engine is
/// `node`. Gives the minimum engine version to resolve a runtime for.
pub fn check_backend(ext_id: &str, backend: Option<&BackendSpec>) -> (r: Result<
    Option<String>,
    String,
>)
    ensures
        backend is None ==> (r matches Err(m) && m@ == msg_no_backend(ext_id@)),
        backend is Some ==> (spec_engine_type(*backend.unwrap()) != "node"@ <==> r is Err),
        backend is Some && spec_engine_type(*backend.unwrap()) != "node"@ ==> (r matches Err(m)
            && m@ == msg_bad_engine(spec_engine_type(*backend.unwrap()))),
        backend is Some && r is Ok ==> (match r.unwrap() {
            Some(v) => spec_min_version(*backend.unwrap()) == Some(v@),
            None => spec_min_version(*backend.unwrap()) is None,
        }),
{
    let b = match backend {
        None => {
            let mut m = owned("扩展 ");
            m.append(ext_id);
            m.append(" 未声明 backend（非 service 扩展）");
            return Err(m);
        },
        Some(b) => b,
    };
    let engine_type: String = match &b.engine {
        Some(e) => e.engine_type.clone(),
        None => owned("node"),
    };
    if !str_eq(engine_type.as_str(), "node") {
        let mut m = owned("不支持的运行时引擎类型: ");
        m.append(engine_type.as_str());
        return Err(m);
    }
    match &b.engine {
        Some(e) => match &e.min_version {
            Some(v) => Ok(Some(v.clone())),
            None => Ok(None),
        },
        None => Ok(None),
    }
}

/// Error for an entry script that is not a file.
pub fn missing_entry_message(entry: &str) -> (r: String)
    ensures
        r@ == msg_missing_entry(entry@),
{
    let mut m = owned("后端入口不存在: ");
    m.append(entry);
    m
}

/// Whether the permission list holds `name`.
pub open spec fn declares(perms: Seq<String>, name: Seq<char>) -> bool {
    exists|i: int| 0 <= i < perms.len() && #[trigger] perms[i]@ == name
}

fn has_permission(perms: &Vec<String>, name: &str) -> (r: bool)
    ensures
        r == declares(perms@, name@),
{
    let mut i: usize = 0;
    while i < perms.len()
        invariant
            i <= perms@.len(),
            forall|j: int| 0 <= j < i ==> perms@[j]@ != name@,
        decreases perms@.len() - i,
    {
        if str_eq(perms[i].as_str(), name) {
            return true;
        }
        i = i + 1;
    }
    false
}

/// Second check of a start: where the backend listens, and whether it may.
/// Loopback is open to every service extension; listening beyond it needs
/// the `network` permission declared and not revoked by the user. Gives the
/// listen host and whether it is external.
pub fn check_listen(
    ext_id: &str,
    backend: &BackendSpec,
    permissions: &Vec<String>,
    network_granted: bool,
) -> (r: Result<(String, bool), String>)
    ensures
        ({
            let host = spec_listen_host(backend.host);
            let external = !is_loopback(host);
            &&& external && !declares(permissions@, "network"@) ==> (r matches Err(m) && m@
                == msg_network_undeclared(ext_id@, host))
            &&& external && declares(permissions@, "network"@) && !network_granted ==> (r matches Err(
                m,
            ) && m@ == msg_network_revoked(ext_id@))
            &&& (!external || (declares(permissions@, "network"@) && network_granted)) ==> (r matches Ok(
                v,
            ) && v.0@ == host && v.1 == external)
        }),
{
    let host = backend.listen_host();
    let external = backend.is_external();
    if external {
        if !has_permission(permissions, "network") {
            let mut m = owned("PERMISSION_DENIED: 扩展 ");
            m.append(ext_id);
            m.append(" 对外监听（host=");
            m.append(host.as_str());
            m.append("）需要声明 network 权限");
            return Err(m);
        }
        if !network_granted {
            let mut m = owned("PERMISSION_DENIED: 扩展 ");
            m.append(ext_id);
            m.append(" 的 network 权限已被用户关闭，无法对外监听");
            return Err(m);
        }
    }
    Ok((host, external))
}

// ---------------------------------------------------------------------------
// Registry of running backends

/// One running backend: its extension, its port, and whether it answered.
#[derive(Clone, Debug)]
pub struct ServiceEntry {
    pub ext_id: String,
    pub port: u16,
    pub ready: bool,
}

/// The registry as a map from extension id to (port, ready); a later entry
/// for the same id wins.
pub open spec fn table_map(s: Seq<ServiceEntry>) -> Map<Seq<char>, (u16, bool)>
    decreases s.len(),
{
    if s.len() == 0 {
        Map::empty()
    } else {
        table_map(s.drop_last()).insert(s.last().ext_id@, (s.last().port, s.last().ready))
    }
}

/// Running service backends by extension id (the process handles are kept
/// beside it by the host).
pub struct ServiceTable {
    entries: Vec<ServiceEntry>,
}

impl View for ServiceTable {
    type V = Map<Seq<char>, (u16, bool)>;

    closed spec fn view(&self) -> Map<Seq<char>, (u16, bool)> {
        table_map(self.entries@)
    }
}

proof fn lemma_table_map_skip_absent(s: Seq<ServiceEntry>, j: int, k: Seq<char>)
    requires
        0 <= j <= s.len(),
        forall|i: int| j <= i < s.len() ==> #[trigger] s[i].ext_id@ != k,
    ensures
        table_map(s).dom().contains(k) == table_map(s.take(j)).dom().contains(k),
        table_map(s).dom().contains(k) ==> table_map(s)[k] == table_map(s.take(j))[k],
    decreases s.len(),
{
    if j < s.len() {
        assert(s.drop_last().take(j) =~= s.take(j));
        lemma_table_map_skip_absent(s.drop_last(), j, k);
    } else {
        assert(s.take(j) =~= s);
    }
}

impl ServiceTable {
    pub fn new() -> (t: Self)
        ensures
            t@ == Map::<Seq<char>, (u16, bool)>::empty(),
    {
        ServiceTable { entries: Vec::new() }
    }

    fn find_last(&self, ext_id: &str) -> (r: Option<usize>)
        ensures
            r is None <==> !self@.dom().contains(ext_id@),
            r matches Some(i) ==> i < self.entries@.len() && self@[ext_id@] == (
                self.entries@[i as int].port,
                self.entries@[i as int].ready,
            ),
    {
        let mut j: usize = self.entries.len();
        while j > 0
            invariant
                j <= self.entries@.len(),
                forall|i: int| j <= i < self.entries@.len() ==> #[trigger] self.entries@[i].ext_id@
                    != ext_id@,
            decreases j,
        {
            if str_eq(self.entries[j - 1].ext_id.as_str(), ext_id) {
                proof {
                    let s = self.entries@;
                    lemma_table_map_skip_absent(s, j as int, ext_id@);
                    assert(s.take(j as int).drop_last() =~= s.take(j - 1));
                }
                return Some(j - 1);
            }
            j = j - 1;
        }
        proof {
            lemma_table_map_skip_absent(self.entries@, 0, ext_id@);
            assert(self.entries@.take(0).len() == 0);
        }
        None
    }

    /// Port of a started backend (`None` when it is not running).
    pub fn port_of(&self, ext_id: &str) -> (r: Option<u16>)
        ensures
            r == (if self@.dom().contains(ext_id@) {
                Some(self@[ext_id@].0)
            } else {
                None
            }),
    {
        match self.find_last(ext_id) {
            Some(i) => Some(self.entries[i].port),
            None => None,
        }
    }

    /// Whether a backend answered its readiness probe (`false` when it is
    /// not running).
    pub fn ready_of(&self, ext_id: &str) -> (r: bool)
        ensures
            r == (self@.dom().contains(ext_id@) && self@[ext_id@].1),
    {
        match self.find_last(ext_id) {
            Some(i) => self.entries[i].ready,
            None => false,
        }
    }

    fn push_entry(&mut self, ext_id: &str, port: u16, ready: bool)
        ensures
            final(self)@ == old(self)@.insert(ext_id@, (port, ready)),
    {
        let e = ServiceEntry { ext_id: owned(ext_id), port, ready };
        let ghost before = self.entries@;
        self.entries.push(e);
        assert(self.entries@.drop_last() =~= before);
    }

    /// Records a started backend, not yet ready (replacing an earlier record
    /// of the same extension).
    pub fn register(&mut self, ext_id: &str, port: u16)
        ensures
            final(self)@ == old(self)@.insert(ext_id@, (port, false)),
    {
        let ghost m = self@;
        self.remove(ext_id);
        self.push_entry(ext_id, port, false);
        assert(self@ =~= m.insert(ext_id@, (port, false)));
    }

    /// Records the outcome of the readiness probe of a running backend; a
    /// backend that was stopped meanwhile stays absent.
    pub fn set_ready(&mut self, ext_id: &str, ready: bool)
        ensures
            final(self)@ == (if old(self)@.dom().contains(ext_id@) {
                old(self)@.insert(ext_id@, (old(self)@[ext_id@].0, ready))
            } else {
                old(self)@
            }),
    {
        let ghost m = self@;
        if let Some(port) = self.remove(ext_id) {
            self.push_entry(ext_id, port, ready);
            assert(self@ =~= m.insert(ext_id@, (m[ext_id@].0, ready)));
        } else {
            assert(self@ =~= m);
        }
    }

    /// Forgets a backend (on stop); gives its port when it was running.
    pub fn remove(&mut self, ext_id: &str) -> (r: Option<u16>)
        ensures
            r == (if old(self)@.dom().contains(ext_id@) {
                Some(old(self)@[ext_id@].0)
            } else {
                None
            }),
            final(self)@ == old(self)@.remove(ext_id@),
    {
        let r = self.port_of(ext_id);
        let ghost s = self.entries@;
        let mut kept: Vec<ServiceEntry> = Vec::new();
        let mut i: usize = 0;
        while i < self.entries.len()
            invariant
                i <= s.len(),
                self.entries@ == s,
                table_map(kept@) == table_map(s.take(i as int)).remove(ext_id@),
            decreases s.len() - i,
        {
            let e = &self.entries[i];
            assert(s.take(i + 1).drop_last() =~= s.take(i as int));
            if !str_eq(e.ext_id.as_str(), ext_id) {
                let ghost before = kept@;
                kept.push(ServiceEntry { ext_id: owned(e.ext_id.as_str()), port: e.port, ready: e.ready });
                assert(kept@.drop_last() =~= before);
                assert(table_map(kept@) =~= table_map(s.take(i + 1)).remove(ext_id@));
            } else {
                assert(table_map(kept@) =~= table_map(s.take(i + 1)).remove(ext_id@));
            }
            i = i + 1;
        }
        assert(s.take(s.len() as int) =~= s);
        self.entries = kept;
        r
    }

    /// Ids of all running backends (to stop them all on exit).
    pub fn ids(&self) -> (r: Vec<String>)
        ensures
            forall|i: int| 0 <= i < r@.len() ==> self@.dom().contains(#[trigger] r@[i]@),
            forall|k: Seq<char>| self@.dom().contains(k) ==> exists|i: int|
                0 <= i < r@.len() && #[trigger] r@[i]@ == k,
    {
        let mut r: Vec<String> = Vec::new();
        let mut i: usize = 0;
        while i < self.entries.len()
            invariant
                i <= self.entries@.len(),
                r@.len() == i,
                forall|j: int| 0 <= j < i ==> #[trigger] r@[j]@ == self.entries@[j].ext_id@,
            decreases self.entries@.len() - i,
        {
            r.push(owned(self.entries[i].ext_id.as_str()));
            i = i + 1;
        }
        proof {
            lemma_table_map_dom(self.entries@);
            assert forall|k: Seq<char>| self@.dom().contains(k) implies exists|i: int|
                0 <= i < r@.len() && #[trigger] r@[i]@ == k by {
                let i = choose|i: int| 0 <= i < self.entries@.len() && #[trigger] self.entries@[i].ext_id@ == k;
                assert(r@[i]@ == k);
            }
        }
        r
    }
}

proof fn lemma_table_map_dom(s: Seq<ServiceEntry>)
    ensures
        forall|k: Seq<char>| table_map(s).dom().contains(k) <==> exists|i: int|
            0 <= i < s.len() && #[trigger] s[i].ext_id@ == k,
    decreases s.len(),
{
    if s.len() > 0 {
        lemma_table_map_dom(s.drop_last());
        assert forall|k: Seq<char>| table_map(s).dom().contains(k) implies exists|i: int|
            0 <= i < s.len() && #[trigger] s[i].ext_id@ == k by {
            if k != s.last().ext_id@ {
                assert(table_map(s.drop_last()).dom().contains(k));
                let i = choose|i: int| 0 <= i < s.drop_last().len() && #[trigger] s.drop_last()[i].ext_id@ == k;
                assert(s[i].ext_id@ == k);
            } else {
                assert(s[s.len() - 1].ext_id@ == k);
            }
        }
        assert forall|k: Seq<char>| (exists|i: int| 0 <= i < s.len() && #[trigger] s[i].ext_id@ == k) implies table_map(s).dom().contains(k) by {
            let i = choose|i: int| 0 <= i < s.len() && #[trigger] s[i].ext_id@ == k;
            if i < s.len() - 1 {
                assert(s.drop_last()[i].ext_id@ == k);
                assert(table_map(s.drop_last()).dom().contains(k));
            }
        }
    }
}

/// What starting a backend does: reuse the one already running, or launch one.
#[derive(Clone, Copy, Debug, PartialEq, Eq, Structural)]
pub enum StartDecision {
    /// a backend of the extension runs on this port; nothing is read or spawned
    Reuse(u16),
    /// no backend of the extension runs: read its manifest and launch it
    Launch,
}

pub open spec fn spec_start_decision(m: Map<Seq<char>, (u16, bool)>, ext_id: Seq<char>) -> StartDecision {
    if m.dom().contains(ext_id) {
        StartDecision::Reuse(m[ext_id].0)
    } else {
        StartDecision::Launch
    }
}

impl ServiceTable {
    /// Decides a start of `ext_id`: the running backend's port, if any.
    pub fn start_decision(&self, ext_id: &str) -> (r: StartDecision)
        ensures
            r == spec_start_decision(self@, ext_id@),
    {
        match self.port_of(ext_id) {
            Some(p) => StartDecision::Reuse(p),
            None => StartDecision::Launch,
        }
    }
}

/// Starting a backend twice reuses the first one: once a start has
/// registered `port` for `k`, every further start of `k` decides to reuse
/// `port`, whether or not the probe has answered since, and deciding leaves
/// the registry as it was.
pub proof fn law_repeated_start_reuses_port(m: Map<Seq<char>, (u16, bool)>, k: Seq<char>, port: u16, ready: bool)
    ensures
        spec_start_decision(m.insert(k, (port, false)), k) == StartDecision::Reuse(port),
        spec_start_decision(m.insert(k, (port, false)).insert(k, (port, ready)), k) == StartDecision::Reuse(port),
        spec_start_decision(m.insert(k, (port, false)).remove(k), k) == StartDecision::Launch,
{
}

/// A backend read back after its start gives the port it was started on and
/// is not ready yet; recording a probe result changes only its readiness;
/// after a stop it is gone. Other backends are untouched by all three.
pub proof fn law_registry_read_after_write(
    m: Map<Seq<char>, (u16, bool)>,
    k: Seq<char>,
    other: Seq<char>,
    port: u16,
    ready: bool,
)
    requires
        other != k,
    ensures
        ({
            let started = m.insert(k, (port, false));
            &&& started.dom().contains(k) && started[k] == (port, false)
            &&& started.insert(k, (started[k].0, ready))[k] == (port, ready)
            &&& !started.remove(k).dom().contains(k)
            &&& started.dom().contains(other) == m.dom().contains(other)
            &&& started.remove(k).dom().contains(other) == m.dom().contains(other)
            &&& m.dom().contains(other) ==> started[other] == m[other] && started.remove(k)[other] == m[other]
        }),
{
}

} // verus!
