//! The merged catalog of namespaced tools, with the first-wins rule for names
//! that two tools share.

use vstd::prelude::*;
use crate::json::{Json, JsonValue, lookup, member, members_of, lemma_members_of, same_text, text};
use crate::naming::{namespaced, namespaced_name};
use crate::protocol::{ToolSchema, ToolView, tool_views};

verus! {

/// How a catalog tool is reached on its server.
#[derive(PartialEq, Eq, Structural, Clone, Copy, Debug)]
pub enum Route {
    /// The server advertises the tool itself.
    Direct,
    /// The server described the tool through its `list_tools` tool; it stands
    /// behind the server's `run` tool.
    ThroughRun,
}

/// One tool of the catalog, under its namespaced name.
pub struct CatalogEntry {
    pub name: String,
    pub server: String,
    pub tool: ToolSchema,
    pub route: Route,
}

/// The value of a [`CatalogEntry`].
pub struct EntryView {
    pub name: Seq<char>,
    pub server: Seq<char>,
    pub tool: ToolView,
    pub route: Route,
}

impl View for CatalogEntry {
    type V = EntryView;

    open spec fn view(&self) -> EntryView {
        EntryView { name: self.name@, server: self.server@, tool: self.tool@, route: self.route }
    }
}

pub open spec fn entry_views(es: Seq<CatalogEntry>) -> Seq<EntryView> {
    es.map_values(|e: CatalogEntry| e@)
}

/// The entry of `server`'s `tool`.
pub open spec fn entry_for(server: Seq<char>, tool: ToolView, route: Route) -> EntryView {
    EntryView { name: namespaced(server, tool.name), server, tool, route }
}

pub open spec fn has_entry(cat: Seq<EntryView>, name: Seq<char>) -> bool {
    exists|i: int| 0 <= i < cat.len() && #[trigger] cat[i].name == name
}

/// A note on something that a refresh passed over.
pub enum RefreshWarning {
    /// The server's tools could not be listed.
    Unreachable { server: String, hint: crate::client::FailureHint },
    /// The server's `list_tools` call failed.
    DispatchFailed { server: String },
    /// The tool `name` of `server` was dropped: an earlier server holds the name.
    Duplicate { name: String, server: String },
}

pub enum WarningView {
    Unreachable(Seq<char>, crate::client::FailureHint),
    DispatchFailed(Seq<char>),
    Duplicate(Seq<char>, Seq<char>),
}

impl View for RefreshWarning {
    type V = WarningView;

    open spec fn view(&self) -> WarningView {
        match self {
            RefreshWarning::Unreachable { server, hint } => WarningView::Unreachable(server@, *hint),
            RefreshWarning::DispatchFailed { server } => WarningView::DispatchFailed(server@),
            RefreshWarning::Duplicate { name, server } => WarningView::Duplicate(name@, server@),
        }
    }
}

pub open spec fn warning_views(ws: Seq<RefreshWarning>) -> Seq<WarningView> {
    ws.map_values(|w: RefreshWarning| w@)
}

/// The catalog after `server`'s tools are added in order; a tool whose
/// namespaced name is taken already is dropped (first wins).
pub open spec fn merged(
    cat: Seq<EntryView>,
    server: Seq<char>,
    tools: Seq<ToolView>,
    route: Route,
) -> Seq<EntryView>
    decreases tools.len(),
{
    if tools.len() == 0 {
        cat
    } else {
        let prev = merged(cat, server, tools.drop_last(), route);
        let e = entry_for(server, tools.last(), route);
        if has_entry(prev, e.name) {
            prev
        } else {
            prev.push(e)
        }
    }
}

/// The warnings for the tools that [`merged`] drops, in order.
pub open spec fn collisions(
    cat: Seq<EntryView>,
    server: Seq<char>,
    tools: Seq<ToolView>,
    route: Route,
) -> Seq<WarningView>
    decreases tools.len(),
{
    if tools.len() == 0 {
        Seq::empty()
    } else {
        let rest = collisions(cat, server, tools.drop_last(), route);
        let n = namespaced(server, tools.last().name);
        if has_entry(merged(cat, server, tools.drop_last(), route), n) {
            rest.push(WarningView::Duplicate(n, server))
        } else {
            rest
        }
    }
}

/// No two entries share a name.
pub open spec fn names_distinct(cat: Seq<EntryView>) -> bool {
    forall|i: int, j: int| 0 <= i < j < cat.len() ==> cat[i].name != cat[j].name
}

/// The names that the entries carry.
pub open spec fn catalog_names(cat: Seq<EntryView>) -> Set<Seq<char>> {
    Set::new(|n: Seq<char>| has_entry(cat, n))
}

/// The namespaced names of `server`'s tools.
pub open spec fn tool_names(server: Seq<char>, tools: Seq<ToolView>) -> Set<Seq<char>> {
    Set::new(
        |n: Seq<char>| exists|k: int| 0 <= k < tools.len() && namespaced(server, #[trigger] tools[k].name) == n,
    )
}

proof fn lemma_catalog_size(cat: Seq<EntryView>)
    requires
        names_distinct(cat),
    ensures
        cat.len() == catalog_names(cat).len(),
{
    let names = cat.map_values(|e: EntryView| e.name);
    assert(names.no_duplicates()) by {
        assert forall|i: int, j: int|
            0 <= i < names.len() && 0 <= j < names.len() && i != j implies names[i] != names[j] by {
            if i < j {
                assert(cat[i].name != cat[j].name);
            } else {
                assert(cat[j].name != cat[i].name);
            }
        }
    }
    names.unique_seq_to_set();
    assert(names.to_set() =~= catalog_names(cat)) by {
        assert forall|n: Seq<char>| names.to_set().contains(n) implies catalog_names(cat).contains(n) by {
            let k = choose|k: int| 0 <= k < names.len() && names[k] == n;
            assert(cat[k].name == n);
        }
        assert forall|n: Seq<char>| catalog_names(cat).contains(n) implies names.to_set().contains(n) by {
            let k = choose|k: int| 0 <= k < cat.len() && #[trigger] cat[k].name == n;
            assert(names[k] == n);
        }
    }
}

/// Merging a server's tools into a catalog keeps every entry that was there
/// (whichever server came first keeps a shared name), adds one entry for each
/// namespaced name not yet taken, and notes a duplicate for each tool whose
/// name was taken already. Names stay distinct, so the catalog has exactly as
/// many entries as there are distinct namespaced names.
pub proof fn lemma_merged_first_wins(
    cat: Seq<EntryView>,
    server: Seq<char>,
    tools: Seq<ToolView>,
    route: Route,
)
    requires
        names_distinct(cat),
    ensures
        merged(cat, server, tools, route).len() >= cat.len(),
        merged(cat, server, tools, route).take(cat.len() as int) == cat,
        names_distinct(merged(cat, server, tools, route)),
        catalog_names(merged(cat, server, tools, route)) == catalog_names(cat).union(
            tool_names(server, tools),
        ),
        merged(cat, server, tools, route).len() == catalog_names(merged(cat, server, tools, route)).len(),
        forall|k: int|
            0 <= k < tools.len() && has_entry(cat, namespaced(server, #[trigger] tools[k].name))
                ==> collisions(cat, server, tools, route).contains(
                WarningView::Duplicate(namespaced(server, tools[k].name), server),
            ),
    decreases tools.len(),
{
    let m = merged(cat, server, tools, route);
    if tools.len() == 0 {
        assert(cat.take(cat.len() as int) =~= cat);
        assert(catalog_names(cat).union(tool_names(server, tools)) =~= catalog_names(cat));
        lemma_catalog_size(cat);
    } else {
        let init = tools.drop_last();
        lemma_merged_first_wins(cat, server, init, route);
        let prev = merged(cat, server, init, route);
        let n = namespaced(server, tools.last().name);
        let e = entry_for(server, tools.last(), route);
        assert(forall|k: int| 0 <= k < init.len() ==> init[k] == tools[k]);
        if !has_entry(prev, n) {
            assert(m == prev.push(e));
            assert(m.take(cat.len() as int) =~= prev.take(cat.len() as int));
        }
        assert(catalog_names(m) =~= catalog_names(cat).union(tool_names(server, tools))) by {
            assert forall|x: Seq<char>| #[trigger] catalog_names(m).contains(x) implies catalog_names(
                cat,
            ).union(tool_names(server, tools)).contains(x) by {
                let i = choose|i: int| 0 <= i < m.len() && #[trigger] m[i].name == x;
                if i < prev.len() {
                    assert(prev[i] == m[i]);
                    assert(catalog_names(prev).contains(x));
                    if tool_names(server, init).contains(x) {
                        let k = choose|k: int|
                            0 <= k < init.len() && namespaced(server, #[trigger] init[k].name) == x;
                        assert(tools[k] == init[k]);
                    }
                } else {
                    assert(x == n);
                    assert(namespaced(server, tools[tools.len() - 1].name) == x);
                }
            }
            assert forall|x: Seq<char>|
                #[trigger] catalog_names(cat).union(tool_names(server, tools)).contains(
                    x,
                ) implies catalog_names(m).contains(x) by {
                let in_prev = catalog_names(prev).contains(x);
                if in_prev {
                    let i = choose|i: int| 0 <= i < prev.len() && #[trigger] prev[i].name == x;
                    assert(m[i] == prev[i]);
                } else if catalog_names(cat).contains(x) {
                } else {
                    let k = choose|k: int|
                        0 <= k < tools.len() && namespaced(server, #[trigger] tools[k].name) == x;
                    if k < init.len() {
                        assert(init[k] == tools[k]);
                        assert(tool_names(server, init).contains(x));
                    } else {
                        assert(x == n);
                        assert(m[m.len() - 1].name == x);
                    }
                }
            }
        }
        lemma_catalog_size(m);
        assert forall|k: int|
            0 <= k < tools.len() && has_entry(cat, namespaced(server, #[trigger] tools[k].name))
                implies collisions(cat, server, tools, route).contains(
            WarningView::Duplicate(namespaced(server, tools[k].name), server),
        ) by {
            let w = WarningView::Duplicate(namespaced(server, tools[k].name), server);
            let rest = collisions(cat, server, init, route);
            if k < init.len() {
                assert(init[k] == tools[k]);
                assert(rest.contains(w));
                let j = choose|j: int| 0 <= j < rest.len() && rest[j] == w;
                if has_entry(prev, n) {
                    assert(collisions(cat, server, tools, route)[j] == w);
                }
            } else {
                let i = choose|i: int| 0 <= i < cat.len() && #[trigger] cat[i].name == n;
                assert(prev.take(cat.len() as int)[i] == prev[i]);
                assert(prev[i].name == n);
                assert(collisions(cat, server, tools, route).last() == w);
            }
        }
    }
}

/// The position of the entry called `name`.
pub fn find_entry(catalog: &Vec<CatalogEntry>, name: &str) -> (r: Option<usize>)
    ensures
        match r {
            Some(i) => i < catalog@.len() && catalog@[i as int].name@ == name@,
            None => !has_entry(entry_views(catalog@), name@),
        },
{
    let ghost views = entry_views(catalog@);
    let mut i: usize = 0;
    while i < catalog.len()
        invariant
            0 <= i <= catalog.len(),
            views == entry_views(catalog@),
            forall|k: int| 0 <= k < i ==> #[trigger] views[k].name != name@,
        decreases catalog.len() - i,
    {
        if same_text(catalog[i].name.as_str(), name) {
            return Some(i);
        }
        assert(views[i as int].name == catalog@[i as int].name@);
        i = i + 1;
    }
    None
}

/// Adds `server`'s tools to the catalog in order, first wins; a dropped tool
/// leaves a warning.
pub fn merge_tools(
    catalog: &mut Vec<CatalogEntry>,
    warnings: &mut Vec<RefreshWarning>,
    server: &str,
    tools: &Vec<ToolSchema>,
    route: Route,
)
    ensures
        entry_views(final(catalog)@) == merged(
            entry_views(old(catalog)@),
            server@,
            tool_views(tools@),
            route,
        ),
        warning_views(final(warnings)@) == warning_views(old(warnings)@) + collisions(
            entry_views(old(catalog)@),
            server@,
            tool_views(tools@),
            route,
        ),
{
    let ghost cat0 = entry_views(catalog@);
    let ghost warn0 = warning_views(warnings@);
    let ghost ts = tool_views(tools@);
    let mut i: usize = 0;
    while i < tools.len()
        invariant
            0 <= i <= tools.len(),
            ts == tool_views(tools@),
            entry_views(catalog@) == merged(cat0, server@, ts.take(i as int), route),
            warning_views(warnings@) == warn0 + collisions(cat0, server@, ts.take(i as int), route),
        decreases tools.len() - i,
    {
        proof {
            assert(ts.take(i as int + 1).drop_last() =~= ts.take(i as int));
            assert(ts.take(i as int + 1).last() == tools@[i as int]@);
        }
        let name = namespaced_name(server, tools[i].name.as_str());
        match find_entry(catalog, name.as_str()) {
            Some(k) => {
                proof {
                    assert(entry_views(catalog@)[k as int].name == name@);
                }
                let ghost before = warnings@;
                warnings.push(RefreshWarning::Duplicate { name, server: server.to_owned() });
                proof {
                    assert(warning_views(warnings@) =~= warning_views(before).push(
                        warnings@.last()@,
                    ));
                }
            },
            None => {
                let ghost before = catalog@;
                catalog.push(
                    CatalogEntry { name, server: server.to_owned(), tool: tools[i].copy(), route },
                );
                proof {
                    assert(entry_views(catalog@) =~= entry_views(before).push(catalog@.last()@));
                }
            },
        }
        i = i + 1;
    }
    proof {
        assert(ts.take(tools.len() as int) =~= ts);
    }
}

/// The members of an object without those called `key`.
pub open spec fn without_key(members: Seq<(Seq<char>, JsonValue)>, key: Seq<char>) -> Seq<
    (Seq<char>, JsonValue),
>
    decreases members.len(),
{
    if members.len() == 0 {
        members
    } else {
        let rest = without_key(members.drop_last(), key);
        if members.last().0 == key {
            rest
        } else {
            rest.push(members.last())
        }
    }
}

/// A tool schema as the model backend takes it: an object gets `"type":
/// "object"` when it has no `type`, and loses its `$schema` members; any other
/// value stays as it is.
pub open spec fn sanitized(schema: JsonValue) -> JsonValue {
    match schema {
        JsonValue::Object(members) => {
            let kept = without_key(members, "$schema"@);
            if lookup(kept, "type"@) is None {
                JsonValue::Object(kept.push(("type"@, JsonValue::Str("object"@))))
            } else {
                JsonValue::Object(kept)
            }
        },
        _ => schema,
    }
}

/// The schema that the model backend takes for `schema`.
pub fn sanitize_schema(schema: &Json) -> (r: Json)
    ensures
        r@ == sanitized(schema@),
{
    match schema {
        Json::Object(members) => {
            proof {
                lemma_members_of(members@);
            }
            let ghost all = members_of(members@);
            let mut kept: Vec<(String, Json)> = Vec::new();
            let mut i: usize = 0;
            while i < members.len()
                invariant
                    0 <= i <= members.len(),
                    all == members_of(members@),
                    schema@ == JsonValue::Object(all),
                    all.len() == members.len(),
                    forall|k: int|
                        0 <= k < members.len() ==> #[trigger] all[k] == (
                            members@[k].0@,
                            members@[k].1@,
                        ),
                    members_of(kept@) == without_key(all.take(i as int), "$schema"@),
                decreases members.len() - i,
            {
                proof {
                    assert(all.take(i as int + 1).drop_last() =~= all.take(i as int));
                }
                if !same_text(members[i].0.as_str(), "$schema") {
                    let ghost before = kept@;
                    kept.push((members[i].0.clone(), members[i].1.copy()));
                    proof {
                        assert(kept@.drop_last() =~= before);
                    }
                }
                i = i + 1;
            }
            proof {
                assert(all.take(members.len() as int) =~= all);
            }
            let cleaned = Json::Object(kept);
            if cleaned.get("type").is_none() {
                match cleaned {
                    Json::Object(mut ms) => {
                        let ghost before = ms@;
                        ms.push(member("type", text("object")));
                        proof {
                            assert(ms@.drop_last() =~= before);
                        }
                        Json::Object(ms)
                    },
                    _ => cleaned,
                }
            } else {
                cleaned
            }
        },
        _ => schema.copy(),
    }
}

/// A tool as handed to the model backend.
pub struct BackendTool {
    pub name: String,
    pub description: String,
    pub input_schema: Json,
}

impl View for BackendTool {
    type V = ToolView;

    open spec fn view(&self) -> ToolView {
        ToolView {
            name: self.name@,
            description: self.description@,
            input_schema: self.input_schema@,
        }
    }
}

/// What the model backend is told of a catalog entry.
pub open spec fn backend_tool(e: EntryView) -> ToolView {
    ToolView {
        name: e.name,
        description: e.tool.description,
        input_schema: sanitized(e.tool.input_schema),
    }
}

/// The catalog as the model backend takes it, entry for entry.
pub fn backend_tools(catalog: &Vec<CatalogEntry>) -> (r: Vec<BackendTool>)
    ensures
        r@.map_values(|t: BackendTool| t@) == entry_views(catalog@).map_values(
            |e: EntryView| backend_tool(e),
        ),
{
    let mut out: Vec<BackendTool> = Vec::new();
    let mut i: usize = 0;
    while i < catalog.len()
        invariant
            0 <= i <= catalog.len(),
            out@.len() == i,
            forall|k: int|
                0 <= k < i ==> #[trigger] out@[k]@ == backend_tool(catalog@[k]@),
        decreases catalog.len() - i,
    {
        let e = &catalog[i];
        out.push(
            BackendTool {
                name: e.name.clone(),
                description: e.tool.description.clone(),
                input_schema: sanitize_schema(&e.tool.input_schema),
            },
        );
        i = i + 1;
    }
    proof {
        assert(out@.map_values(|t: BackendTool| t@) =~= entry_views(catalog@).map_values(
            |e: EntryView| backend_tool(e),
        ));
    }
    out
}

} // verus!
