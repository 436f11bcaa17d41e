//! The configured tool servers.

use vstd::prelude::*;
use crate::json::same_text;

verus! {

/// One configured tool server.
pub struct McpServerConfig {
    /// The key under which the server is known; operator-chosen.
    pub name: String,
    /// The program to run.
    pub command: String,
    pub args: Vec<String>,
    pub description: Option<String>,
    /// Only enabled servers take part in the catalog and in calls.
    pub enabled: bool,
}

/// The ordered list of configured servers.
pub struct McpConfig {
    pub servers: Vec<McpServerConfig>,
}

/// Why a change to the configuration was refused.
pub enum ConfigError {
    /// A server of that name is configured already.
    AlreadyExists(String),
    /// No server of that name is configured.
    NotFound(String),
}

pub open spec fn has_server(servers: Seq<McpServerConfig>, name: Seq<char>) -> bool {
    exists|i: int| 0 <= i < servers.len() && #[trigger] servers[i].name@ == name
}

/// The position of the first server called `name`.
pub open spec fn server_index(servers: Seq<McpServerConfig>, name: Seq<char>) -> Option<int>
    decreases servers.len(),
{
    if servers.len() == 0 {
        None
    } else {
        match server_index(servers.drop_last(), name) {
            Some(i) => Some(i),
            None => if servers.last().name@ == name {
                Some(servers.len() - 1)
            } else {
                None
            },
        }
    }
}

/// The servers that are not called `name`, in their order.
pub open spec fn without_server(servers: Seq<McpServerConfig>, name: Seq<char>) -> Seq<
    McpServerConfig,
>
    decreases servers.len(),
{
    if servers.len() == 0 {
        servers
    } else {
        let rest = without_server(servers.drop_last(), name);
        if servers.last().name@ == name {
            rest
        } else {
            rest.push(servers.last())
        }
    }
}

pub proof fn lemma_server_index(servers: Seq<McpServerConfig>, name: Seq<char>)
    ensures
        match server_index(servers, name) {
            Some(i) => 0 <= i < servers.len() && servers[i].name@ == name && forall|k: int|
                0 <= k < i ==> #[trigger] servers[k].name@ != name,
            None => !has_server(servers, name),
        },
    decreases servers.len(),
{
    if servers.len() > 0 {
        let init = servers.drop_last();
        lemma_server_index(init, name);
        assert(forall|k: int| 0 <= k < init.len() ==> init[k] == servers[k]);
        if server_index(init, name) is None && servers.last().name@ != name {
            assert forall|k: int| 0 <= k < servers.len() implies #[trigger] servers[k].name@
                != name by {
                if k < init.len() {
                    assert(init[k] == servers[k]);
                }
            }
        }
    }
}

proof fn lemma_server_index_take(servers: Seq<McpServerConfig>, name: Seq<char>, i: int)
    requires
        0 <= i < servers.len(),
    ensures
        server_index(servers.take(i + 1), name) == match server_index(servers.take(i), name) {
            Some(j) => Some(j),
            None => if servers[i].name@ == name {
                Some(i)
            } else {
                None
            },
        },
{
    assert(servers.take(i + 1).drop_last() =~= servers.take(i));
}

proof fn lemma_server_index_prefix(servers: Seq<McpServerConfig>, name: Seq<char>, n: int)
    requires
        0 <= n <= servers.len(),
        server_index(servers.take(n), name) is Some,
    ensures
        server_index(servers, name) == server_index(servers.take(n), name),
    decreases servers.len() - n,
{
    if n < servers.len() {
        lemma_server_index_take(servers, name, n);
        lemma_server_index_prefix(servers, name, n + 1);
    } else {
        assert(servers.take(n) =~= servers);
    }
}

impl McpConfig {
    /// The position of the first server called `name`.
    pub fn find_server(&self, name: &str) -> (r: Option<usize>)
        ensures
            match r {
                Some(i) => server_index(self.servers@, name@) == Some(i as int),
                None => server_index(self.servers@, name@) is None,
            },
    {
        let mut i: usize = 0;
        while i < self.servers.len()
            invariant
                0 <= i <= self.servers.len(),
                server_index(self.servers@.take(i as int), name@) is None,
            decreases self.servers.len() - i,
        {
            proof {
                lemma_server_index_take(self.servers@, name@, i as int);
            }
            if same_text(self.servers[i].name.as_str(), name) {
                proof {
                    lemma_server_index_prefix(self.servers@, name@, i as int + 1);
                }
                return Some(i);
            }
            i = i + 1;
        }
        proof {
            assert(self.servers@.take(self.servers.len() as int) =~= self.servers@);
        }
        None
    }

    /// Adds a server at the end, unless one of the same name is configured.
    pub fn add_server(&mut self, server: McpServerConfig) -> (r: Result<(), ConfigError>)
        ensures
            match r {
                Ok(()) => {
                    &&& !has_server(old(self).servers@, server.name@)
                    &&& final(self).servers@ == old(self).servers@.push(server)
                },
                Err(e) => {
                    &&& has_server(old(self).servers@, server.name@)
                    &&& final(self).servers@ == old(self).servers@
                    &&& e matches ConfigError::AlreadyExists(n) && n@ == server.name@
                },
            },
    {
        match self.find_server(server.name.as_str()) {
            Some(_) => {
                proof {
                    lemma_server_index(self.servers@, server.name@);
                }
                Err(ConfigError::AlreadyExists(server.name))
            },
            None => {
                proof {
                    lemma_server_index(self.servers@, server.name@);
                }
                self.servers.push(server);
                Ok(())
            },
        }
    }

    /// Removes every server called `name`; fails when there is none.
    pub fn remove_server(&mut self, name: &str) -> (r: Result<(), ConfigError>)
        ensures
            final(self).servers@ == without_server(old(self).servers@, name@),
            match r {
                Ok(()) => has_server(old(self).servers@, name@),
                Err(e) => {
                    &&& !has_server(old(self).servers@, name@)
                    &&& e matches ConfigError::NotFound(n) && n@ == name@
                },
            },
    {
        let ghost orig = self.servers@;
        let ghost mut j: int = 0;
        let mut i: usize = 0;
        let mut removed = false;
        while i < self.servers.len()
            invariant
                0 <= j <= orig.len(),
                i == without_server(orig.take(j), name@).len(),
                self.servers@ == without_server(orig.take(j), name@) + orig.skip(j),
                removed == has_server(orig.take(j), name@),
            decreases self.servers.len() - i,
        {
            assert(self.servers@[i as int] == orig[j]);
            assert(orig.take(j + 1).drop_last() =~= orig.take(j));
            if same_text(self.servers[i].name.as_str(), name) {
                self.servers.remove(i);
                removed = true;
                proof {
                    assert(orig.take(j + 1)[j] == orig[j]);
                    assert(self.servers@ =~= without_server(orig.take(j + 1), name@) + orig.skip(
                        j + 1,
                    ));
                }
            } else {
                i = i + 1;
                proof {
                    assert(self.servers@ =~= without_server(orig.take(j + 1), name@) + orig.skip(
                        j + 1,
                    ));
                }
            }
            proof {
                assert(has_server(orig.take(j + 1), name@) == (removed)) by {
                    if has_server(orig.take(j + 1), name@) && !has_server(orig.take(j), name@) {
                        let k = choose|k: int|
                            0 <= k < j + 1 && #[trigger] orig.take(j + 1)[k].name@ == name@;
                        if k < j {
                            assert(orig.take(j)[k] == orig.take(j + 1)[k]);
                        }
                    }
                    if has_server(orig.take(j), name@) {
                        let k = choose|k: int| 0 <= k < j && #[trigger] orig.take(j)[k].name@ == name@;
                        assert(orig.take(j + 1)[k] == orig.take(j)[k]);
                    }
                }
                j = j + 1;
            }
        }
        proof {
            assert(j == orig.len()) by {
                if j < orig.len() {
                    assert(self.servers@.len() > i);
                }
            }
            assert(orig.take(j) =~= orig);
            assert(orig.skip(j) =~= Seq::<McpServerConfig>::empty());
            assert(self.servers@ =~= without_server(orig, name@));
        }
        if removed {
            Ok(())
        } else {
            Err(ConfigError::NotFound(name.to_owned()))
        }
    }
}

} // verus!
