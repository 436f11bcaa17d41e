//! The registry: the catalog of every enabled server's tools, rebuilt by a
//! refresh that the caller drives one exchange at a time, and the routing of
//! calls back to the owning server.

use vstd::prelude::*;
use crate::catalog::{
    BackendTool, CatalogEntry, EntryView, RefreshWarning, Route, WarningView, backend_tool,
    backend_tools, catalog_names, collisions, entry_for, entry_views, find_entry,
    lemma_merged_first_wins, merge_tools, merged, names_distinct, warning_views,
};
use crate::client::{ClientError, FailureHint, McpClient, failure_hint, hint_of};
use crate::config::{McpConfig, McpServerConfig, server_index, lemma_server_index};
use crate::dispatch::{dispatched_tools, dispatched_tools_of, dispatches_through_run, has_run_dispatch};
use crate::json::{Json, JsonValue};
use crate::naming::{split_name, split_tool_name};
use crate::protocol::{Operation, Session, ToolSchema, ToolView, tool_views};

verus! {

/// What the exchanges with one enabled server gave a refresh.
pub enum Fetch {
    /// Its tools could not be listed.
    Failed(FailureHint),
    /// It listed these tools, and does not dispatch through `run`.
    Direct(Seq<ToolView>),
    /// It dispatches through `run`; this is the result of its `list_tools`
    /// call, or nothing when that call failed.
    Dispatched(Option<JsonValue>),
}

/// The tools that one server adds to the catalog.
pub open spec fn contributed(f: Fetch) -> Seq<ToolView> {
    match f {
        Fetch::Direct(ts) => ts,
        Fetch::Dispatched(Some(v)) => dispatched_tools(v),
        _ => Seq::empty(),
    }
}

/// How the tools that one server adds are reached.
pub open spec fn route_of(f: Fetch) -> Route {
    match f {
        Fetch::Dispatched(_) => Route::ThroughRun,
        _ => Route::Direct,
    }
}

/// The warnings that one server leaves, given the catalog before it.
pub open spec fn fetch_warnings(cat: Seq<EntryView>, server: Seq<char>, f: Fetch) -> Seq<
    WarningView,
> {
    match f {
        Fetch::Failed(h) => seq![WarningView::Unreachable(server, h)],
        Fetch::Dispatched(None) => seq![WarningView::DispatchFailed(server)],
        _ => collisions(cat, server, contributed(f), route_of(f)),
    }
}

pub open spec fn enabled_count(servers: Seq<McpServerConfig>) -> nat
    decreases servers.len(),
{
    if servers.len() == 0 {
        0
    } else if servers.last().enabled {
        enabled_count(servers.drop_last()) + 1
    } else {
        enabled_count(servers.drop_last())
    }
}

/// The catalog that a refresh builds: the enabled servers in configuration
/// order, each with what its exchanges gave (`fetches` holds one record per
/// enabled server), merged first-wins. Disabled servers add nothing.
pub open spec fn rebuilt(servers: Seq<McpServerConfig>, fetches: Seq<Fetch>) -> Seq<EntryView>
    decreases servers.len(),
{
    if servers.len() == 0 {
        Seq::empty()
    } else if !servers.last().enabled {
        rebuilt(servers.drop_last(), fetches)
    } else {
        merged(
            rebuilt(servers.drop_last(), fetches.drop_last()),
            servers.last().name@,
            contributed(fetches.last()),
            route_of(fetches.last()),
        )
    }
}

/// The warnings that a refresh leaves, in order.
pub open spec fn rebuilt_warnings(servers: Seq<McpServerConfig>, fetches: Seq<Fetch>) -> Seq<
    WarningView,
>
    decreases servers.len(),
{
    if servers.len() == 0 {
        Seq::empty()
    } else if !servers.last().enabled {
        rebuilt_warnings(servers.drop_last(), fetches)
    } else {
        rebuilt_warnings(servers.drop_last(), fetches.drop_last()) + fetch_warnings(
            rebuilt(servers.drop_last(), fetches.drop_last()),
            servers.last().name@,
            fetches.last(),
        )
    }
}

/// The first enabled server at or after `from`; the number of servers when
/// there is none.
pub open spec fn next_enabled(servers: Seq<McpServerConfig>, from: int) -> int
    decreases servers.len() - from,
{
    if from < 0 || from >= servers.len() {
        servers.len() as int
    } else if servers[from].enabled {
        from
    } else {
        next_enabled(servers, from + 1)
    }
}

proof fn lemma_step_disabled(servers: Seq<McpServerConfig>, fetches: Seq<Fetch>, c: int)
    requires
        0 <= c < servers.len(),
        !servers[c].enabled,
    ensures
        rebuilt(servers.take(c + 1), fetches) == rebuilt(servers.take(c), fetches),
        rebuilt_warnings(servers.take(c + 1), fetches) == rebuilt_warnings(servers.take(c), fetches),
        enabled_count(servers.take(c + 1)) == enabled_count(servers.take(c)),
{
    assert(servers.take(c + 1).drop_last() =~= servers.take(c));
}

proof fn lemma_step_enabled(servers: Seq<McpServerConfig>, fetches: Seq<Fetch>, f: Fetch, c: int)
    requires
        0 <= c < servers.len(),
        servers[c].enabled,
    ensures
        rebuilt(servers.take(c + 1), fetches.push(f)) == merged(
            rebuilt(servers.take(c), fetches),
            servers[c].name@,
            contributed(f),
            route_of(f),
        ),
        rebuilt_warnings(servers.take(c + 1), fetches.push(f)) == rebuilt_warnings(
            servers.take(c),
            fetches,
        ) + fetch_warnings(rebuilt(servers.take(c), fetches), servers[c].name@, f),
        enabled_count(servers.take(c + 1)) == enabled_count(servers.take(c)) + 1,
{
    assert(servers.take(c + 1).drop_last() =~= servers.take(c));
    assert(fetches.push(f).drop_last() =~= fetches);
}

proof fn lemma_merged_none(cat: Seq<EntryView>, server: Seq<char>, route: Route)
    ensures
        merged(cat, server, Seq::empty(), route) == cat,
        collisions(cat, server, Seq::empty(), route) == Seq::<WarningView>::empty(),
{
}

/// Whatever the servers gave, a rebuilt catalog holds no name twice, so it has
/// exactly as many entries as there are distinct namespaced names in it.
pub proof fn lemma_rebuilt_distinct(servers: Seq<McpServerConfig>, fetches: Seq<Fetch>)
    ensures
        names_distinct(rebuilt(servers, fetches)),
        rebuilt(servers, fetches).len() == catalog_names(rebuilt(servers, fetches)).len(),
    decreases servers.len(),
{
    if servers.len() == 0 {
        lemma_merged_first_wins(Seq::empty(), Seq::empty(), Seq::empty(), Route::Direct);
    } else if !servers.last().enabled {
        lemma_rebuilt_distinct(servers.drop_last(), fetches);
    } else {
        lemma_rebuilt_distinct(servers.drop_last(), fetches.drop_last());
        lemma_merged_first_wins(
            rebuilt(servers.drop_last(), fetches.drop_last()),
            servers.last().name@,
            contributed(fetches.last()),
            route_of(fetches.last()),
        );
    }
}

/// A disabled server adds nothing to the catalog, wherever it stands and
/// whatever it would advertise.
pub proof fn lemma_disabled_adds_nothing(
    before: Seq<McpServerConfig>,
    server: McpServerConfig,
    after: Seq<McpServerConfig>,
    fetches: Seq<Fetch>,
)
    requires
        !server.enabled,
    ensures
        rebuilt(before + seq![server] + after, fetches) == rebuilt(before + after, fetches),
        enabled_count(before + seq![server] + after) == enabled_count(before + after),
    decreases after.len(),
{
    let with = before + seq![server] + after;
    let without = before + after;
    if after.len() == 0 {
        assert(with.drop_last() =~= before);
        assert(without =~= before);
    } else {
        assert(with.drop_last() =~= before + seq![server] + after.drop_last());
        assert(without.drop_last() =~= before + after.drop_last());
        assert(with.last() == after.last());
        assert(without.last() == after.last());
        lemma_disabled_adds_nothing(before, server, after.drop_last(), fetches);
        lemma_disabled_adds_nothing(before, server, after.drop_last(), fetches.drop_last());
    }
}

proof fn lemma_namespaced_distinct(server: Seq<char>, a: Seq<char>, b: Seq<char>)
    requires
        a != b,
    ensures
        crate::naming::namespaced(server, a) != crate::naming::namespaced(server, b),
{
    let n = server.len() as int + 1;
    assert(crate::naming::namespaced(server, a).skip(n) =~= a);
    assert(crate::naming::namespaced(server, b).skip(n) =~= b);
}

/// Three enabled servers, of which the first cannot be started and the second
/// fails during the handshake, while the third lists two tools of different
/// names: the catalog holds exactly the third server's two tools.
pub proof fn lemma_partial_failure_isolated(
    servers: Seq<McpServerConfig>,
    spawn_failure: FailureHint,
    handshake_failure: FailureHint,
    first: ToolView,
    second: ToolView,
)
    requires
        servers.len() == 3,
        servers[0].enabled,
        servers[1].enabled,
        servers[2].enabled,
        first.name != second.name,
    ensures
        rebuilt(
            servers,
            seq![
                Fetch::Failed(spawn_failure),
                Fetch::Failed(handshake_failure),
                Fetch::Direct(seq![first, second]),
            ],
        ) == seq![
            entry_for(servers[2].name@, first, Route::Direct),
            entry_for(servers[2].name@, second, Route::Direct),
        ],
{
    let fetches = seq![
        Fetch::Failed(spawn_failure),
        Fetch::Failed(handshake_failure),
        Fetch::Direct(seq![first, second]),
    ];
    let s = servers[2].name@;
    let one_server = servers.drop_last().drop_last();
    let one_fetch = fetches.drop_last().drop_last();
    assert(one_server.drop_last() =~= Seq::<McpServerConfig>::empty());
    assert(one_server.last() == servers[0]);
    assert(one_fetch.last() == Fetch::Failed(spawn_failure));
    assert(contributed(one_fetch.last()) == Seq::<ToolView>::empty());
    assert(rebuilt(one_server.drop_last(), one_fetch.drop_last()) == Seq::<EntryView>::empty());
    assert(rebuilt(one_server, one_fetch) == Seq::<EntryView>::empty());
    let two_servers = servers.drop_last();
    let two_fetches = fetches.drop_last();
    assert(two_servers.drop_last() == one_server);
    assert(two_fetches.drop_last() == one_fetch);
    assert(two_servers.last() == servers[1]);
    assert(two_fetches.last() == Fetch::Failed(handshake_failure));
    assert(rebuilt(two_servers, two_fetches) == Seq::<EntryView>::empty());
    assert(fetches.last() == Fetch::Direct(seq![first, second]));
    let tools = seq![first, second];
    assert(tools.drop_last() =~= seq![first]);
    assert(seq![first].drop_last() =~= Seq::<ToolView>::empty());
    assert(seq![first].last() == first);
    assert(tools.last() == second);
    let one = merged(Seq::<EntryView>::empty(), s, seq![first], Route::Direct);
    assert(merged(Seq::<EntryView>::empty(), s, Seq::<ToolView>::empty(), Route::Direct) == Seq::<
        EntryView,
    >::empty());
    assert(one =~= seq![entry_for(s, first, Route::Direct)]);
    lemma_namespaced_distinct(s, first.name, second.name);
    assert(!crate::catalog::has_entry(one, crate::naming::namespaced(s, second.name)));
}

/// How far a refresh has come.
pub enum RefreshPhase {
    /// No refresh under way.
    Idle,
    /// The tools of the server at the cursor are being listed.
    Listing,
    /// The `list_tools` call of the server at the cursor is under way.
    Fetching,
}

/// The exchange that a refresh needs next.
pub enum RefreshAction {
    /// List the tools of the server at this position; report with
    /// [`McpToolRegistry::tools_listed`].
    ListTools(usize),
    /// Call the tool `list_tools` with `{}` on the server at this position;
    /// report with [`McpToolRegistry::dispatch_listed`].
    CallListTools(usize),
    /// The refresh is complete.
    Finished,
}

/// Why a call could not be routed to a server.
pub enum RegistryError {
    /// The name has no separator between server and tool.
    InvalidToolName(String),
    ServerNotFound(String),
    ServerDisabled(String),
}

/// A routed call: the exchange to run against the server at `server`.
pub struct ToolCall {
    pub server: usize,
    pub session: Session,
}

/// The merged, namespaced catalog of the configured servers' tools.
pub struct McpToolRegistry {
    tools: Vec<CatalogEntry>,
    config: McpConfig,
    client: McpClient,
    cursor: usize,
    phase: RefreshPhase,
    fetches: Ghost<Seq<Fetch>>,
    warnings: Vec<RefreshWarning>,
}

impl McpToolRegistry {
    pub closed spec fn catalog(&self) -> Seq<EntryView> {
        entry_views(self.tools@)
    }

    pub closed spec fn servers(&self) -> Seq<McpServerConfig> {
        self.config.servers@
    }

    /// The position of the server that the refresh is at.
    pub closed spec fn cursor(&self) -> int {
        self.cursor as int
    }

    pub closed spec fn phase(&self) -> RefreshPhase {
        self.phase
    }

    /// One record per enabled server that the current refresh has passed.
    pub closed spec fn fetches(&self) -> Seq<Fetch> {
        self.fetches@
    }

    pub closed spec fn warnings(&self) -> Seq<WarningView> {
        warning_views(self.warnings@)
    }

    /// The catalog and the warnings are what the refresh has built from the
    /// servers before the cursor.
    closed spec fn built_to_cursor(&self) -> bool {
        &&& self.cursor <= self.config.servers.len()
        &&& self.fetches@.len() == enabled_count(self.config.servers@.take(self.cursor as int))
        &&& entry_views(self.tools@) == rebuilt(
            self.config.servers@.take(self.cursor as int),
            self.fetches@,
        )
        &&& warning_views(self.warnings@) == rebuilt_warnings(
            self.config.servers@.take(self.cursor as int),
            self.fetches@,
        )
    }

    /// Besides, a refresh under way stands at an enabled server.
    pub closed spec fn wf(&self) -> bool {
        &&& self.built_to_cursor()
        &&& !(self.phase is Idle) ==> self.cursor < self.config.servers.len()
            && self.config.servers@[self.cursor as int].enabled
    }

    /// `action` is what the refresh needs at this point.
    pub open spec fn asks(&self, action: RefreshAction) -> bool {
        match action {
            RefreshAction::ListTools(i) => {
                &&& self.phase() is Listing
                &&& i == self.cursor() < self.servers().len()
                &&& self.servers()[i as int].enabled
            },
            RefreshAction::CallListTools(i) => {
                &&& self.phase() is Fetching
                &&& i == self.cursor() < self.servers().len()
                &&& self.servers()[i as int].enabled
            },
            RefreshAction::Finished => self.phase() is Idle && self.cursor() == self.servers().len(),
        }
    }

    /// A registry over `config` with an empty catalog; a refresh fills it.
    pub fn new(config: McpConfig) -> (r: McpToolRegistry)
        ensures
            r.wf(),
            r.servers() == config.servers@,
            r.catalog() == Seq::<EntryView>::empty(),
            r.phase() is Idle,
    {
        let r = McpToolRegistry {
            tools: Vec::new(),
            config,
            client: McpClient::new(),
            cursor: 0,
            phase: RefreshPhase::Idle,
            fetches: Ghost(Seq::empty()),
            warnings: Vec::new(),
        };
        proof {
            assert(r.config.servers@.take(0) =~= Seq::<McpServerConfig>::empty());
            assert(entry_views(r.tools@) =~= Seq::<EntryView>::empty());
            assert(warning_views(r.warnings@) =~= Seq::<WarningView>::empty());
        }
        r
    }

    /// The configured servers.
    pub fn config(&self) -> (r: &McpConfig)
        ensures
            r.servers@ == self.servers(),
    {
        &self.config
    }

    /// Moves the cursor to the next enabled server at or after it, and asks for
    /// its tools; finishes when there is none.
    fn advance(&mut self) -> (action: RefreshAction)
        requires
            old(self).built_to_cursor(),
        ensures
            final(self).wf(),
            final(self).asks(action),
            final(self).cursor() == next_enabled(old(self).servers(), old(self).cursor()),
            final(self).servers() == old(self).servers(),
            final(self).catalog() == old(self).catalog(),
            final(self).fetches() == old(self).fetches(),
            final(self).warnings() == old(self).warnings(),
    {
        let ghost start = self.cursor as int;
        while self.cursor < self.config.servers.len() && !self.config.servers[self.cursor].enabled
            invariant
                start <= self.cursor <= self.config.servers.len(),
                self.config == old(self).config,
                self.tools == old(self).tools,
                self.warnings == old(self).warnings,
                self.fetches == old(self).fetches,
                next_enabled(self.config.servers@, start) == next_enabled(
                    self.config.servers@,
                    self.cursor as int,
                ),
                self.fetches@.len() == enabled_count(self.config.servers@.take(self.cursor as int)),
                entry_views(self.tools@) == rebuilt(
                    self.config.servers@.take(self.cursor as int),
                    self.fetches@,
                ),
                warning_views(self.warnings@) == rebuilt_warnings(
                    self.config.servers@.take(self.cursor as int),
                    self.fetches@,
                ),
            decreases self.config.servers.len() - self.cursor,
        {
            proof {
                lemma_step_disabled(self.config.servers@, self.fetches@, self.cursor as int);
            }
            self.cursor = self.cursor + 1;
        }
        if self.cursor < self.config.servers.len() {
            self.phase = RefreshPhase::Listing;
            RefreshAction::ListTools(self.cursor)
        } else {
            self.phase = RefreshPhase::Idle;
            RefreshAction::Finished
        }
    }

    /// Starts a refresh: the catalog and the warnings are cleared, and the
    /// first enabled server is asked for its tools.
    pub fn begin_refresh(&mut self) -> (action: RefreshAction)
        requires
            old(self).wf(),
        ensures
            final(self).wf(),
            final(self).asks(action),
            final(self).servers() == old(self).servers(),
            final(self).cursor() == next_enabled(old(self).servers(), 0),
            final(self).fetches() == Seq::<Fetch>::empty(),
            final(self).catalog() == Seq::<EntryView>::empty(),
            final(self).warnings() == Seq::<WarningView>::empty(),
    {
        self.tools = Vec::new();
        self.warnings = Vec::new();
        self.cursor = 0;
        self.fetches = Ghost(Seq::empty());
        proof {
            assert(self.config.servers@.take(0) =~= Seq::<McpServerConfig>::empty());
            assert(entry_views(self.tools@) =~= Seq::<EntryView>::empty());
            assert(warning_views(self.warnings@) =~= Seq::<WarningView>::empty());
        }
        self.advance()
    }

    /// Records what the server at the cursor gave, merges its tools, and moves on.
    fn record(&mut self, f: Ghost<Fetch>, tools: &Vec<ToolSchema>, route: Route) -> (action:
        RefreshAction)
        requires
            old(self).wf(),
            route == route_of(f@),
            !(old(self).phase is Idle),
            tool_views(tools@) == contributed(f@),
            f@ is Direct || f@ matches Fetch::Dispatched(Some(_)),
        ensures
            final(self).wf(),
            final(self).asks(action),
            final(self).servers() == old(self).servers(),
            final(self).cursor() == next_enabled(old(self).servers(), old(self).cursor() + 1),
            final(self).fetches() == old(self).fetches().push(f@),
            final(self).catalog() == merged(
                old(self).catalog(),
                old(self).servers()[old(self).cursor()].name@,
                contributed(f@),
                route_of(f@),
            ),
    {
        let ghost c = self.cursor as int;
        proof {
            lemma_step_enabled(self.config.servers@, self.fetches@, f@, c);
        }
        merge_tools(
            &mut self.tools,
            &mut self.warnings,
            self.config.servers[self.cursor].name.as_str(),
            tools,
            route,
        );
        self.fetches = Ghost(self.fetches@.push(f@));
        self.cursor = self.cursor + 1;
        self.advance()
    }

    /// Records that the server at the cursor failed with `warning`, and moves on.
    fn record_failure(&mut self, f: Ghost<Fetch>, warning: RefreshWarning) -> (action: RefreshAction)
        requires
            old(self).wf(),
            !(old(self).phase is Idle),
            f@ is Failed || f@ matches Fetch::Dispatched(None),
            seq![warning@] == fetch_warnings(
                old(self).catalog(),
                old(self).servers()[old(self).cursor()].name@,
                f@,
            ),
        ensures
            final(self).wf(),
            final(self).asks(action),
            final(self).servers() == old(self).servers(),
            final(self).cursor() == next_enabled(old(self).servers(), old(self).cursor() + 1),
            final(self).fetches() == old(self).fetches().push(f@),
            final(self).catalog() == old(self).catalog(),
    {
        let ghost c = self.cursor as int;
        proof {
            lemma_step_enabled(self.config.servers@, self.fetches@, f@, c);
            lemma_merged_none(entry_views(self.tools@), self.config.servers@[c].name@, route_of(f@));
        }
        let ghost before = self.warnings@;
        self.warnings.push(warning);
        proof {
            assert(warning_views(self.warnings@) =~= warning_views(before) + seq![warning@]);
        }
        self.fetches = Ghost(self.fetches@.push(f@));
        self.cursor = self.cursor + 1;
        self.advance()
    }

    /// Takes the outcome of listing the tools of the server at the cursor. A
    /// failure is noted and the refresh goes on with the next server; a server
    /// that dispatches through `run` is asked next for its `list_tools`;
    /// otherwise its tools are merged.
    pub fn tools_listed(&mut self, outcome: Result<Vec<ToolSchema>, ClientError>) -> (action:
        RefreshAction)
        requires
            old(self).wf(),
            old(self).phase() is Listing,
        ensures
            final(self).wf(),
            final(self).asks(action),
            final(self).servers() == old(self).servers(),
            match outcome {
                Err(e) => {
                    &&& final(self).fetches() == old(self).fetches().push(Fetch::Failed(hint_of(e)))
                    &&& final(self).cursor() == next_enabled(old(self).servers(), old(self).cursor() + 1)
                    &&& final(self).catalog() == old(self).catalog()
                },
                Ok(tools) => if dispatches_through_run(tool_views(tools@)) {
                    &&& final(self).phase() is Fetching
                    &&& final(self).cursor() == old(self).cursor()
                    &&& final(self).fetches() == old(self).fetches()
                    &&& final(self).catalog() == old(self).catalog()
                } else {
                    &&& final(self).fetches() == old(self).fetches().push(
                        Fetch::Direct(tool_views(tools@)),
                    )
                    &&& final(self).cursor() == next_enabled(old(self).servers(), old(self).cursor() + 1)
                    &&& final(self).catalog() == merged(
                        old(self).catalog(),
                        old(self).servers()[old(self).cursor()].name@,
                        tool_views(tools@),
                        Route::Direct,
                    )
                },
            },
    {
        match outcome {
            Err(e) => {
                let hint = failure_hint(&e);
                let warning = RefreshWarning::Unreachable {
                    server: self.config.servers[self.cursor].name.clone(),
                    hint,
                };
                self.record_failure(Ghost(Fetch::Failed(hint)), warning)
            },
            Ok(tools) => {
                if has_run_dispatch(&tools) {
                    self.phase = RefreshPhase::Fetching;
                    RefreshAction::CallListTools(self.cursor)
                } else {
                    self.record(Ghost(Fetch::Direct(tool_views(tools@))), &tools, Route::Direct)
                }
            },
        }
    }

    /// Takes the outcome of the `list_tools` call on the server at the cursor:
    /// the tools it describes are merged, a failure is noted, and the refresh
    /// goes on with the next server.
    pub fn dispatch_listed(&mut self, outcome: Result<Json, ClientError>) -> (action:
        RefreshAction)
        requires
            old(self).wf(),
            old(self).phase() is Fetching,
        ensures
            final(self).wf(),
            final(self).asks(action),
            final(self).servers() == old(self).servers(),
            final(self).cursor() == next_enabled(old(self).servers(), old(self).cursor() + 1),
            final(self).fetches() == old(self).fetches().push(
                Fetch::Dispatched(
                    match outcome {
                        Ok(result) => Some(result@),
                        Err(_) => None,
                    },
                ),
            ),
            final(self).catalog() == merged(
                old(self).catalog(),
                old(self).servers()[old(self).cursor()].name@,
                match outcome {
                    Ok(result) => dispatched_tools(result@),
                    Err(_) => Seq::empty(),
                },
                Route::ThroughRun,
            ),
    {
        match outcome {
            Err(_) => {
                proof {
                    lemma_merged_none(
                        entry_views(self.tools@),
                        self.config.servers@[self.cursor as int].name@,
                        Route::ThroughRun,
                    );
                }
                let warning = RefreshWarning::DispatchFailed {
                    server: self.config.servers[self.cursor].name.clone(),
                };
                self.record_failure(Ghost(Fetch::Dispatched(None)), warning)
            },
            Ok(result) => {
                let tools = dispatched_tools_of(&result);
                self.record(Ghost(Fetch::Dispatched(Some(result@))), &tools, Route::ThroughRun)
            },
        }
    }

    /// Routes a call of the namespaced tool `full_tool_name`: the name is split
    /// at its first separator into server and tool, and the call goes to the
    /// first configured server of that name, which must be enabled.
    pub fn call_tool(&self, full_tool_name: &str, params: Json) -> (r: Result<
        ToolCall,
        RegistryError,
    >)
        ensures
            match split_name(full_tool_name@) {
                None => r matches Err(RegistryError::InvalidToolName(n)) && n@ == full_tool_name@,
                Some((server, tool)) => match server_index(self.servers(), server) {
                    None => r matches Err(RegistryError::ServerNotFound(n)) && n@ == server,
                    Some(i) => if !self.servers()[i].enabled {
                        r matches Err(RegistryError::ServerDisabled(n)) && n@ == server
                    } else {
                        &&& r matches Ok(call)
                        &&& call.server == i
                        &&& call.session.wf()
                        &&& call.session.phase() is Fresh
                        &&& call.session.operation() matches Operation::CallTool { name, arguments }
                        &&& name@ == tool
                        &&& arguments == params
                    },
                },
            },
    {
        let (server, tool) = match split_tool_name(full_tool_name) {
            Some(parts) => parts,
            None => {
                return Err(RegistryError::InvalidToolName(full_tool_name.to_owned()));
            },
        };
        let i = match self.config.find_server(server.as_str()) {
            Some(i) => i,
            None => {
                return Err(RegistryError::ServerNotFound(server));
            },
        };
        proof {
            lemma_server_index(self.config.servers@, server@);
        }
        if !self.config.servers[i].enabled {
            return Err(RegistryError::ServerDisabled(server));
        }
        Ok(ToolCall { server: i, session: Session::call_tool(tool, params) })
    }

    /// The catalog as the model backend takes it.
    pub fn to_bedrock_tools(&self) -> (r: Vec<BackendTool>)
        ensures
            r@.map_values(|t: BackendTool| t@) == self.catalog().map_values(
                |e: EntryView| backend_tool(e),
            ),
    {
        backend_tools(&self.tools)
    }

    /// The entry of the namespaced tool `name`.
    pub fn get_tool(&self, name: &str) -> (r: Option<&CatalogEntry>)
        ensures
            match r {
                Some(e) => self.catalog().contains(e@) && e.name@ == name@,
                None => !crate::catalog::has_entry(self.catalog(), name@),
            },
    {
        match find_entry(&self.tools, name) {
            Some(i) => {
                proof {
                    assert(entry_views(self.tools@)[i as int] == self.tools@[i as int]@);
                }
                Some(&self.tools[i])
            },
            None => None,
        }
    }

    /// The namespaced names of the catalog, in catalog order.
    pub fn list_tools(&self) -> (r: Vec<String>)
        ensures
            r@.map_values(|n: String| n@) == self.catalog().map_values(|e: EntryView| e.name),
    {
        let mut out: Vec<String> = Vec::new();
        let mut i: usize = 0;
        while i < self.tools.len()
            invariant
                0 <= i <= self.tools.len(),
                out@.len() == i,
                forall|k: int| 0 <= k < i ==> #[trigger] out@[k]@ == self.tools@[k].name@,
            decreases self.tools.len() - i,
        {
            out.push(self.tools[i].name.clone());
            i = i + 1;
        }
        proof {
            assert(out@.map_values(|n: String| n@) =~= self.catalog().map_values(
                |e: EntryView| e.name,
            ));
        }
        out
    }

    /// Once a refresh has finished, the catalog and the warnings are those that
    /// the records of its exchanges give.
    pub proof fn lemma_finished(&self)
        requires
            self.wf(),
            self.asks(RefreshAction::Finished),
        ensures
            self.catalog() == rebuilt(self.servers(), self.fetches()),
            self.warnings() == rebuilt_warnings(self.servers(), self.fetches()),
            self.fetches().len() == enabled_count(self.servers()),
    {
        assert(self.config.servers@.take(self.cursor as int) =~= self.config.servers@);
    }

    /// The warnings of the last refresh, in order.
    pub fn refresh_warnings(&self) -> (r: &Vec<RefreshWarning>)
        ensures
            warning_views(r@) == self.warnings(),
    {
        &self.warnings
    }
}

} // verus!
