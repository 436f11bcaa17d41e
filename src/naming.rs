//! Globally namespaced tool names: `{server}_{tool}`.

use vstd::prelude::*;

verus! {

/// The name under which a server's tool is known to callers.
pub open spec fn namespaced(server: Seq<char>, tool: Seq<char>) -> Seq<char> {
    server + seq!['_'] + tool
}

/// The position of the first separator in a name.
pub open spec fn separator_at(name: Seq<char>) -> Option<int>
    decreases name.len(),
{
    if name.len() == 0 {
        None
    } else {
        match separator_at(name.drop_last()) {
            Some(i) => Some(i),
            None => if name.last() == '_' {
                Some(name.len() - 1)
            } else {
                None
            },
        }
    }
}

/// A namespaced name split at its first separator into server and tool.
pub open spec fn split_name(name: Seq<char>) -> Option<(Seq<char>, Seq<char>)> {
    match separator_at(name) {
        Some(i) => Some((name.take(i), name.skip(i + 1))),
        None => None,
    }
}

proof fn lemma_separator_at_take(name: Seq<char>, i: int)
    requires
        0 <= i < name.len(),
    ensures
        separator_at(name.take(i + 1)) == match separator_at(name.take(i)) {
            Some(j) => Some(j),
            None => if name[i] == '_' {
                Some(i)
            } else {
                None
            },
        },
{
    assert(name.take(i + 1).drop_last() =~= name.take(i));
}

proof fn lemma_separator_at_prefix(name: Seq<char>, n: int)
    requires
        0 <= n <= name.len(),
        separator_at(name.take(n)) is Some,
    ensures
        separator_at(name) == separator_at(name.take(n)),
    decreases name.len() - n,
{
    if n < name.len() {
        lemma_separator_at_take(name, n);
        lemma_separator_at_prefix(name, n + 1);
    } else {
        assert(name.take(n) =~= name);
    }
}

proof fn lemma_separator_at_none(name: Seq<char>)
    requires
        forall|k: int| 0 <= k < name.len() ==> name[k] != '_',
    ensures
        separator_at(name) is None,
    decreases name.len(),
{
    if name.len() > 0 {
        lemma_separator_at_none(name.drop_last());
    }
}

/// Joining a server name that holds no separator with any tool name, and then
/// splitting at the first separator, gives back the server name and the tool
/// name.
pub proof fn lemma_split_namespaced(server: Seq<char>, tool: Seq<char>)
    requires
        forall|k: int| 0 <= k < server.len() ==> server[k] != '_',
    ensures
        split_name(namespaced(server, tool)) == Some((server, tool)),
{
    let full = namespaced(server, tool);
    let n = server.len() as int;
    assert(full.take(n) =~= server);
    lemma_separator_at_none(server);
    lemma_separator_at_take(full, n);
    lemma_separator_at_prefix(full, n + 1);
    assert(full.skip(n + 1) =~= tool);
}

/// The namespaced name of `tool` on `server`.
pub fn namespaced_name(server: &str, tool: &str) -> (r: String)
    ensures
        r@ == namespaced(server@, tool@),
{
    let mut r = server.to_owned();
    r.append("_");
    r.append(tool);
    proof {
        reveal_strlit("_");
    }
    r
}

/// Splits a namespaced name at its first separator into server and tool.
pub fn split_tool_name(name: &str) -> (r: Option<(String, String)>)
    ensures
        match r {
            Some((server, tool)) => split_name(name@) == Some((server@, tool@)),
            None => split_name(name@) is None,
        },
{
    let n = name.unicode_len();
    let mut i: usize = 0;
    while i < n
        invariant
            0 <= i <= n,
            n == name@.len(),
            separator_at(name@.take(i as int)) is None,
        decreases n - i,
    {
        proof {
            lemma_separator_at_take(name@, i as int);
        }
        if name.get_char(i) == '_' {
            proof {
                lemma_separator_at_prefix(name@, i as int + 1);
            }
            let server = name.substring_char(0, i).to_owned();
            let tool = name.substring_char(i + 1, n).to_owned();
            proof {
                assert(name@.subrange(0, i as int) =~= name@.take(i as int));
                assert(name@.subrange(i as int + 1, n as int) =~= name@.skip(i as int + 1));
            }
            return Some((server, tool));
        }
        i = i + 1;
    }
    proof {
        assert(name@.take(n as int) =~= name@);
    }
    None
}

} // verus!
