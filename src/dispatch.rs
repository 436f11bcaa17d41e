//! Servers that expose their capabilities through a generic `run` tool and
//! describe them through a `list_tools` tool.

use vstd::prelude::*;
use crate::json::{
    Json, JsonValue, json_parse, lookup, member, members_of, text, values_of, lemma_members_of,
    lemma_values_of, same_text,
};
use crate::protocol::{ToolSchema, ToolView, tool_views};

verus! {

/// The server advertises both a `list_tools` and a `run` tool.
pub open spec fn dispatches_through_run(tools: Seq<ToolView>) -> bool {
    &&& exists|i: int| 0 <= i < tools.len() && #[trigger] tools[i].name == "list_tools"@
    &&& exists|i: int| 0 <= i < tools.len() && #[trigger] tools[i].name == "run"@
}

/// The input schema of a tool reached through `run`: an object that names the
/// tool in `tool` and carries its parameters in `params`.
pub open spec fn run_schema(name: Seq<char>) -> JsonValue {
    JsonValue::Object(
        seq![
            ("type"@, JsonValue::Str("object"@)),
            (
                "properties"@,
                JsonValue::Object(
                    seq![
                        (
                            "tool"@,
                            JsonValue::Object(
                                seq![
                                    ("type"@, JsonValue::Str("string"@)),
                                    ("const"@, JsonValue::Str(name)),
                                    ("description"@, JsonValue::Str("Tool name"@)),
                                ],
                            ),
                        ),
                        (
                            "params"@,
                            JsonValue::Object(
                                seq![
                                    ("type"@, JsonValue::Str("object"@)),
                                    ("description"@, JsonValue::Str("Tool parameters"@)),
                                ],
                            ),
                        ),
                    ],
                ),
            ),
            (
                "required"@,
                JsonValue::Array(seq![JsonValue::Str("tool"@), JsonValue::Str("params"@)]),
            ),
        ],
    )
}

/// The tool that one descriptor describes: it needs a string `name`; a missing
/// or non-string `description` reads as empty.
pub open spec fn described_tool(d: JsonValue) -> Option<ToolView> {
    match d.field("name"@) {
        Some(JsonValue::Str(n)) => Some(
            ToolView {
                name: n,
                description: match d.field("description"@) {
                    Some(JsonValue::Str(s)) => s,
                    _ => Seq::empty(),
                },
                input_schema: run_schema(n),
            },
        ),
        _ => None,
    }
}

/// The tools of a sequence of descriptors; descriptors without a name are passed over.
pub open spec fn described_tools(ds: Seq<JsonValue>) -> Seq<ToolView>
    decreases ds.len(),
{
    if ds.len() == 0 {
        Seq::empty()
    } else {
        let rest = described_tools(ds.drop_last());
        match described_tool(ds.last()) {
            Some(t) => rest.push(t),
            None => rest,
        }
    }
}

/// The tools that a document with a `tools` array of descriptors describes.
pub open spec fn document_tools(doc: JsonValue) -> Seq<ToolView> {
    match doc.field("tools"@) {
        Some(JsonValue::Array(ds)) => described_tools(ds),
        _ => Seq::empty(),
    }
}

/// The tools of one content block: its `text` must be JSON with a `tools` array.
pub open spec fn block_tools(block: JsonValue) -> Seq<ToolView> {
    match block.field("text"@) {
        Some(JsonValue::Str(t)) => match json_parse(t) {
            Some(doc) => document_tools(doc),
            None => Seq::empty(),
        },
        _ => Seq::empty(),
    }
}

pub open spec fn blocks_tools(blocks: Seq<JsonValue>) -> Seq<ToolView>
    decreases blocks.len(),
{
    if blocks.len() == 0 {
        Seq::empty()
    } else {
        blocks_tools(blocks.drop_last()) + block_tools(blocks.last())
    }
}

/// The tools that the result of a `list_tools` call describes, block after
/// block of its `content` array.
pub open spec fn dispatched_tools(result: JsonValue) -> Seq<ToolView> {
    match result.field("content"@) {
        Some(JsonValue::Array(blocks)) => blocks_tools(blocks),
        _ => Seq::empty(),
    }
}

/// The name of a descriptor that has a string `name`.
pub open spec fn descriptor_name(d: JsonValue) -> Seq<char> {
    d.field("name"@)->Some_0->Str_0
}

proof fn lemma_described_tools_named(ds: Seq<JsonValue>)
    requires
        forall|i: int| 0 <= i < ds.len() ==> #[trigger] ds[i].field("name"@) matches Some(
            JsonValue::Str(_),
        ),
    ensures
        described_tools(ds).len() == ds.len(),
        forall|i: int|
            0 <= i < ds.len() ==> #[trigger] described_tools(ds)[i] == described_tool(ds[i])->Some_0,
    decreases ds.len(),
{
    if ds.len() > 0 {
        let init = ds.drop_last();
        assert forall|i: int| 0 <= i < init.len() implies #[trigger] init[i].field("name"@) matches Some(
            JsonValue::Str(_),
        ) by {
            assert(init[i] == ds[i]);
        }
        lemma_described_tools_named(init);
        assert(ds.last() == ds[ds.len() - 1]);
    }
}

/// A server that advertises exactly `list_tools` and `run` dispatches through
/// `run`. When its `list_tools` result holds one content block whose text is
/// JSON with a `tools` array of named descriptors, it yields one tool per
/// descriptor, under the descriptor's name, each with a schema that requires
/// `tool` and `params`.
pub proof fn lemma_dispatch_expansion(
    listed: Seq<ToolView>,
    result: JsonValue,
    block: JsonValue,
    text: Seq<char>,
    doc: JsonValue,
    ds: Seq<JsonValue>,
)
    requires
        listed.len() == 2,
        listed[0].name == "list_tools"@,
        listed[1].name == "run"@,
        result.field("content"@) == Some(JsonValue::Array(seq![block])),
        block.field("text"@) == Some(JsonValue::Str(text)),
        json_parse(text) == Some(doc),
        doc.field("tools"@) == Some(JsonValue::Array(ds)),
        forall|i: int| 0 <= i < ds.len() ==> #[trigger] ds[i].field("name"@) matches Some(
            JsonValue::Str(_),
        ),
    ensures
        dispatches_through_run(listed),
        dispatched_tools(result).len() == ds.len(),
        forall|i: int|
            0 <= i < ds.len() ==> {
                &&& (#[trigger] dispatched_tools(result)[i]).name == descriptor_name(ds[i])
                &&& dispatched_tools(result)[i].input_schema == run_schema(descriptor_name(ds[i]))
            },
        forall|name: Seq<char>| #[trigger]
            run_schema(name).field("required"@) == Some(
                JsonValue::Array(seq![JsonValue::Str("tool"@), JsonValue::Str("params"@)]),
            ),
{
    assert(listed[0].name == "list_tools"@);
    assert(listed[1].name == "run"@);
    let blocks = seq![block];
    assert(blocks.drop_last() =~= Seq::<JsonValue>::empty());
    assert(blocks.last() == block);
    assert(blocks_tools(blocks.drop_last()) == Seq::<ToolView>::empty());
    assert(blocks_tools(blocks) =~= block_tools(block));
    lemma_described_tools_named(ds);
    assert forall|name: Seq<char>| #[trigger]
        run_schema(name).field("required"@) == Some(
            JsonValue::Array(seq![JsonValue::Str("tool"@), JsonValue::Str("params"@)]),
        ) by {
        reveal_strlit("type");
        reveal_strlit("properties");
        reveal_strlit("required");
        let ms = run_schema(name)->Object_0;
        assert("type"@.len() == 4);
        assert("properties"@.len() == 10);
        assert("required"@.len() == 8);
        assert(ms[0].0 != "required"@);
        assert(ms[1].0 != "required"@);
        assert(ms.drop_last().drop_last().drop_last() =~= Seq::<(Seq<char>, JsonValue)>::empty());
        assert(ms.drop_last().drop_last().last() == ms[0]);
        assert(ms.drop_last().last() == ms[1]);
        let m1 = ms.drop_last().drop_last();
        assert(m1.len() == 1);
        assert(lookup(m1.drop_last(), "required"@) is None);
        assert(m1.last().0 != "required"@);
        assert(lookup(m1, "required"@) is None);
        assert(lookup(ms.drop_last(), "required"@) is None);
    }
}

/// Some of the first `n` tools is called `name`.
pub open spec fn named_within(tools: Seq<ToolView>, n: int, name: Seq<char>) -> bool {
    exists|k: int| 0 <= k < n && #[trigger] tools[k].name == name
}

proof fn lemma_named_within_next(tools: Seq<ToolView>, n: int, name: Seq<char>)
    requires
        0 <= n < tools.len(),
    ensures
        named_within(tools, n + 1, name) == (named_within(tools, n, name) || tools[n].name
            == name),
{
    if named_within(tools, n + 1, name) && tools[n].name != name {
        let k = choose|k: int| 0 <= k < n + 1 && #[trigger] tools[k].name == name;
        assert(k < n);
    }
}

/// True when the server advertises both a `list_tools` and a `run` tool.
pub fn has_run_dispatch(tools: &Vec<ToolSchema>) -> (r: bool)
    ensures
        r == dispatches_through_run(tool_views(tools@)),
{
    let ghost views = tool_views(tools@);
    let mut lists = false;
    let mut runs = false;
    let mut i: usize = 0;
    while i < tools.len()
        invariant
            0 <= i <= tools.len(),
            views == tool_views(tools@),
            lists == named_within(views, i as int, "list_tools"@),
            runs == named_within(views, i as int, "run"@),
        decreases tools.len() - i,
    {
        proof {
            lemma_named_within_next(views, i as int, "list_tools"@);
            lemma_named_within_next(views, i as int, "run"@);
        }
        if same_text(tools[i].name.as_str(), "list_tools") {
            lists = true;
        }
        if same_text(tools[i].name.as_str(), "run") {
            runs = true;
        }
        i = i + 1;
    }
    lists && runs
}

/// The document of [`run_schema`] for the tool `name`.
pub fn run_schema_json(name: &str) -> (r: Json)
    ensures
        r@ == run_schema(name@),
{
    let ghost expected = run_schema(name@);
    let tool_members = vec![
        member("type", text("string")),
        member("const", text(name)),
        member("description", text("Tool name")),
    ];
    let params_members = vec![
        member("type", text("object")),
        member("description", text("Tool parameters")),
    ];
    proof {
        lemma_members_of(tool_members@);
        lemma_members_of(params_members@);
        assert(members_of(tool_members@) =~= expected->Object_0[1].1->Object_0[0].1->Object_0);
        assert(members_of(params_members@) =~= expected->Object_0[1].1->Object_0[1].1->Object_0);
    }
    let properties = vec![
        member("tool", Json::Object(tool_members)),
        member("params", Json::Object(params_members)),
    ];
    let required = vec![text("tool"), text("params")];
    proof {
        lemma_members_of(properties@);
        lemma_values_of(required@);
        assert(members_of(properties@) =~= expected->Object_0[1].1->Object_0);
        assert(values_of(required@) =~= expected->Object_0[2].1->Array_0);
    }
    let members = vec![
        member("type", text("object")),
        member("properties", Json::Object(properties)),
        member("required", Json::Array(required)),
    ];
    proof {
        lemma_members_of(members@);
        assert(members_of(members@) =~= expected->Object_0);
    }
    Json::Object(members)
}

/// Reads one descriptor of a `list_tools` result.
pub fn described_tool_of(d: &Json) -> (r: Option<ToolSchema>)
    ensures
        match r {
            Some(t) => described_tool(d@) == Some(t@),
            None => described_tool(d@) is None,
        },
{
    let name = match d.get("name") {
        Some(n) => match n.as_str() {
            Some(n) => n,
            None => {
                return None;
            },
        },
        None => {
            return None;
        },
    };
    let description = match d.get("description") {
        Some(x) => match x.as_str() {
            Some(x) => x.clone(),
            None => String::new(),
        },
        None => String::new(),
    };
    Some(
        ToolSchema {
            name: name.clone(),
            description,
            input_schema: run_schema_json(name.as_str()),
        },
    )
}

/// The tools that one content block describes.
fn block_tools_of(block: &Json) -> (r: Vec<ToolSchema>)
    ensures
        tool_views(r@) == block_tools(block@),
{
    let empty: Vec<ToolSchema> = Vec::new();
    proof {
        assert(tool_views(empty@) =~= Seq::<ToolView>::empty());
    }
    let t = match block.get("text") {
        Some(t) => match t.as_str() {
            Some(t) => t,
            None => {
                return empty;
            },
        },
        None => {
            return empty;
        },
    };
    match Json::from_text(t.as_str()) {
        Some(doc) => document_tools_of(&doc),
        None => empty,
    }
}

/// The tools that a parsed `list_tools` text describes.
pub fn document_tools_of(doc: &Json) -> (r: Vec<ToolSchema>)
    ensures
        tool_views(r@) == document_tools(doc@),
{
    let empty: Vec<ToolSchema> = Vec::new();
    proof {
        assert(tool_views(empty@) =~= Seq::<ToolView>::empty());
    }
    let ds = match doc.get("tools") {
        Some(x) => match x.as_array() {
            Some(ds) => ds,
            None => {
                return empty;
            },
        },
        None => {
            return empty;
        },
    };
    proof {
        lemma_values_of(ds@);
    }
    let ghost all = values_of(ds@);
    let mut out: Vec<ToolSchema> = Vec::new();
    let mut i: usize = 0;
    while i < ds.len()
        invariant
            0 <= i <= ds.len(),
            all == values_of(ds@),
            all.len() == ds.len(),
            forall|k: int| 0 <= k < ds.len() ==> #[trigger] all[k] == ds@[k]@,
            document_tools(doc@) == described_tools(all),
            tool_views(out@) == described_tools(all.take(i as int)),
        decreases ds.len() - i,
    {
        proof {
            assert(all.take(i as int + 1).drop_last() =~= all.take(i as int));
        }
        match described_tool_of(&ds[i]) {
            Some(tool) => {
                let ghost before = out@;
                out.push(tool);
                proof {
                    assert(tool_views(out@) =~= tool_views(before).push(tool@));
                }
            },
            None => {},
        }
        i = i + 1;
    }
    proof {
        assert(all.take(ds.len() as int) =~= all);
    }
    out
}

/// The tools that the result of a `list_tools` call describes.
pub fn dispatched_tools_of(result: &Json) -> (r: Vec<ToolSchema>)
    ensures
        tool_views(r@) == dispatched_tools(result@),
{
    let mut out: Vec<ToolSchema> = Vec::new();
    proof {
        assert(tool_views(out@) =~= Seq::<ToolView>::empty());
    }
    let blocks = match result.get("content") {
        Some(c) => match c.as_array() {
            Some(blocks) => blocks,
            None => {
                return out;
            },
        },
        None => {
            return out;
        },
    };
    proof {
        lemma_values_of(blocks@);
    }
    let ghost all = values_of(blocks@);
    let mut i: usize = 0;
    while i < blocks.len()
        invariant
            0 <= i <= blocks.len(),
            all == values_of(blocks@),
            all.len() == blocks.len(),
            forall|k: int| 0 <= k < blocks.len() ==> #[trigger] all[k] == blocks@[k]@,
            dispatched_tools(result@) == blocks_tools(all),
            tool_views(out@) == blocks_tools(all.take(i as int)),
        decreases blocks.len() - i,
    {
        proof {
            assert(all.take(i as int + 1).drop_last() =~= all.take(i as int));
        }
        let found = block_tools_of(&blocks[i]);
        let ghost before = out@;
        let mut j: usize = 0;
        while j < found.len()
            invariant
                0 <= j <= found.len(),
                tool_views(out@) == tool_views(before) + tool_views(found@.take(j as int)),
            decreases found.len() - j,
        {
            let ghost mid = out@;
            out.push(found[j].copy());
            proof {
                assert(tool_views(out@) =~= tool_views(mid).push(found@[j as int]@));
                assert(tool_views(found@.take(j as int + 1)) =~= tool_views(found@.take(j as int)).push(found@[j as int]@));
                assert(tool_views(out@) =~= tool_views(before) + tool_views(found@.take(j as int + 1)));
            }
            j = j + 1;
        }
        proof {
            assert(found@.take(found.len() as int) =~= found@);
        }
        i = i + 1;
    }
    proof {
        assert(all.take(blocks.len() as int) =~= all);
    }
    out
}

} // verus!
