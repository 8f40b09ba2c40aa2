//! The server core's decisions: the client registry and the dispatch of
//! operator commands into registry changes, actions and output lines.

use vstd::prelude::*;
use vstd::string::*;

use crate::operator::Command;
use crate::session::Config;
use crate::util::{broker_line, broker_line_text, contains_char, strings_view, Type};

verus! {

/// What the server loop does after one command.
#[derive(Clone, Copy, Debug, PartialEq, Eq, Structural)]
pub enum Event {
    /// Keep serving.
    Continue,
    /// Drain all clients and quit.
    Terminate,
}

/// A dispatch failure, shown to the operator.
#[derive(Debug)]
pub struct Error {
    message: String,
}

impl View for Error {
    type V = Seq<char>;

    closed spec fn view(&self) -> Seq<char> {
        self.message@
    }
}

impl Error {
    /// The failure text.
    pub fn message(&self) -> (r: &str)
        ensures
            r@ == self@,
    {
        self.message.as_str()
    }
}

/// The registry of clients: each one's monotonic index and connection
/// string, plus the configuration handed to new sessions.
pub struct ClientManager {
    clients: Vec<(u64, String)>,
    cur_index: u64,
    config: Config,
}

/// The view of a registry's entry list.
pub open spec fn entries_view(s: Seq<(u64, String)>) -> Seq<(u64, Seq<char>)> {
    s.map_values(|e: (u64, String)| (e.0, e.1@))
}

impl View for ClientManager {
    type V = Seq<(u64, Seq<char>)>;

    closed spec fn view(&self) -> Seq<(u64, Seq<char>)> {
        entries_view(self.clients@)
    }
}

/// The registry holds a client with this index.
pub open spec fn manager_has(s: Seq<(u64, Seq<char>)>, index: u64) -> bool {
    exists|i: int| 0 <= i < s.len() && (#[trigger] s[i]).0 == index
}

/// Keeps the entries whose index differs.
pub open spec fn not_index(index: u64) -> spec_fn((u64, Seq<char>)) -> bool {
    |e: (u64, Seq<char>)| e.0 != index
}

/// The registry without the client of this index.
pub open spec fn manager_removed(s: Seq<(u64, Seq<char>)>, index: u64) -> Seq<(u64, Seq<char>)> {
    s.filter(not_index(index))
}

impl ClientManager {
    /// The next index to assign.
    pub closed spec fn cur(&self) -> u64 {
        self.cur_index
    }

    /// The configuration handed to new sessions.
    pub closed spec fn cfg(&self) -> Config {
        self.config
    }

    /// An empty registry.
    pub fn new() -> (r: ClientManager)
        ensures
            r@ == Seq::<(u64, Seq<char>)>::empty(),
            r.cur() == 0,
            r.cfg().max_fd_count is None,
            r.cfg().inheritance is None,
            r.cfg().refresh_interval is None,
    {
        let r = ClientManager {
            clients: Vec::new(),
            cur_index: 0,
            config: Config { max_fd_count: None, inheritance: None, refresh_interval: None },
        };
        proof {
            assert(r@ =~= Seq::<(u64, Seq<char>)>::empty());
        }
        r
    }

    /// Registers a client under the next index and returns that index.
    /// The index counter saturates at its maximum.
    pub fn add(&mut self, connection_string: String) -> (r: u64)
        ensures
            r == old(self).cur(),
            final(self)@ == old(self)@.push((old(self).cur(), connection_string@)),
            final(self).cur() as int == if old(self).cur() < u64::MAX {
                old(self).cur() + 1
            } else {
                old(self).cur() as int
            },
            final(self).cfg() == old(self).cfg(),
    {
        let index = self.cur_index;
        let ghost gs = connection_string@;
        let ghost pre = self.clients@;
        self.clients.push((index, connection_string));
        if self.cur_index < u64::MAX {
            self.cur_index = self.cur_index + 1;
        }
        proof {
            assert(self@ =~~= entries_view(pre).push((index, gs)));
        }
        index
    }

    /// Drops the client with this index, keeping all others in order.
    pub fn remove(&mut self, index: u64)
        ensures
            final(self)@ == manager_removed(old(self)@, index),
            final(self).cur() == old(self).cur(),
            final(self).cfg() == old(self).cfg(),
    {
        let n = self.clients.len();
        let mut kept: Vec<(u64, String)> = Vec::new();
        let ghost pred = not_index(index);
        let mut i: usize = 0;
        proof {
            assert(old(self)@.take(0) =~= Seq::<(u64, Seq<char>)>::empty());
            assert(entries_view(kept@) =~= old(self)@.take(0).filter(pred));
        }
        while i < n
            invariant
                i <= n,
                n == self.clients@.len(),
                self@ == old(self)@,
                self.cur_index == old(self).cur(),
                self.config == old(self).cfg(),
                pred == not_index(index),
                entries_view(kept@) == old(self)@.take(i as int).filter(pred),
            decreases n - i,
        {
            let keep = self.clients[i].0 != index;
            proof {
                assert(old(self)@[i as int] == (self.clients@[i as int].0,
                self.clients@[i as int].1@));
                assert(old(self)@.take(i as int + 1).drop_last() =~= old(self)@.take(i as int));
                assert(old(self)@.take(i as int + 1).last() == old(self)@[i as int]);
                assert(pred(old(self)@[i as int]) == keep);
                reveal(Seq::filter);
            }
            if keep {
                let entry = (self.clients[i].0, self.clients[i].1.clone());
                let ghost prek = kept@;
                kept.push(entry);
                proof {
                    assert(entries_view(kept@) =~= entries_view(prek).push(
                        old(self)@[i as int],
                    ));
                }
            }
            i += 1;
        }
        proof {
            assert(old(self)@.take(n as int) =~= old(self)@);
        }
        let ghost gkept = kept@;
        self.clients = kept;
        proof {
            assert(self.clients@ == gkept);
            assert(self@ == entries_view(gkept));
            assert(entries_view(gkept) == old(self)@.filter(pred));
            assert(old(self)@.filter(pred) == manager_removed(old(self)@, index));
        }
    }

    /// Whether a client with this index is registered.
    pub fn contains(&self, index: u64) -> (r: bool)
        ensures
            r == manager_has(self@, index),
    {
        let n = self.clients.len();
        let mut i: usize = 0;
        while i < n
            invariant
                i <= n,
                n == self.clients@.len(),
                forall|j: int| 0 <= j < i ==> (#[trigger] self@[j]).0 != index,
            decreases n - i,
        {
            if self.clients[i].0 == index {
                proof {
                    assert(self@[i as int].0 == index);
                }
                return true;
            }
            proof {
                assert(self@[i as int] == (self.clients@[i as int].0, self.clients@[i as int].1@));
            }
            i += 1;
        }
        false
    }

    /// Number of registered clients.
    pub fn len(&self) -> (r: usize)
        ensures
            r == self@.len(),
    {
        self.clients.len()
    }

    /// The entry at a position, in registration order.
    pub fn entry(&self, i: usize) -> (r: (u64, &String))
        requires
            i < self@.len(),
        ensures
            r.0 == self@[i as int].0,
            r.1@ == self@[i as int].1,
    {
        let e = &self.clients[i];
        (e.0, &e.1)
    }

    /// The configuration handed to new sessions.
    pub fn get_config(&self) -> (r: Config)
        ensures
            r == self.cfg(),
    {
        self.config
    }

    /// Installs the configuration handed to new sessions.
    pub fn set_config(&mut self, config: Config)
        ensures
            final(self)@ == old(self)@,
            final(self).cur() == old(self).cur(),
            final(self).cfg() == config,
    {
        self.config = config;
    }
}

/// An address with the default port appended when it names none.
pub open spec fn with_default_port(a: Seq<char>) -> Seq<char> {
    if a.contains(':') {
        a
    } else {
        a + ":4026"@
    }
}

/// What one operator command asks the server loop to do besides the
/// registry change: spawn a client, signal one to stop, print lines.
pub struct Dispatch {
    /// Whether to keep serving.
    pub result: Result<Event, Error>,
    /// A client task to spawn: its index and connection string.
    pub spawn: Option<(u64, String)>,
    /// A client stop signal to fire.
    pub kick: Option<u64>,
    /// Operator lines to print, in order.
    pub lines: Vec<String>,
}

/// The dispatcher of operator commands.
pub struct CommandHandler {}

impl CommandHandler {
    /// A fresh dispatcher.
    pub fn new() -> CommandHandler {
        CommandHandler {}
    }

    /// Applies one operator command to the registry: `stop` terminates;
    /// `connect` registers a client under the next index (appending the
    /// default port 4026 when the address has none) and asks for its
    /// spawn; `kick` asks to stop an existing client and fails on an
    /// unknown index; `list` prints one line per client; `config` installs
    /// a new default configuration.
    pub fn handle_command(&self, clients: &mut ClientManager, cmd: Command) -> (r: Dispatch)
        ensures
            final(clients).cur() as int == if cmd@ is Connect && old(clients).cur()
                < u64::MAX {
                old(clients).cur() + 1
            } else {
                old(clients).cur() as int
            },
            match cmd@ {
                crate::operator::CommandView::Stop => {
                    &&& r.result == Ok::<Event, Error>(Event::Terminate)
                    &&& final(clients)@ == old(clients)@
                    &&& final(clients).cfg() == old(clients).cfg()
                    &&& r.spawn is None
                    &&& r.kick is None
                    &&& r.lines@.len() == 0
                },
                crate::operator::CommandView::Connect(addr) => {
                    &&& r.result == Ok::<Event, Error>(Event::Continue)
                    &&& final(clients)@ == old(clients)@.push(
                        (old(clients).cur(), with_default_port(addr)),
                    )
                    &&& final(clients).cfg() == old(clients).cfg()
                    &&& match r.spawn {
                        Some(sp) => sp.0 == old(clients).cur() && sp.1@ == with_default_port(addr),
                        None => false,
                    }
                    &&& r.kick is None
                    &&& r.lines@.len() == 0
                },
                crate::operator::CommandView::Kick(index) => {
                    &&& final(clients)@ == old(clients)@
                    &&& final(clients).cfg() == old(clients).cfg()
                    &&& r.spawn is None
                    &&& r.lines@.len() == 0
                    &&& if manager_has(old(clients)@, index) {
                        r.result == Ok::<Event, Error>(Event::Continue) && r.kick == Some(index)
                    } else {
                        r.kick is None && match r.result {
                            Ok(_) => false,
                            Err(e) => e@ == "Client does not exist"@,
                        }
                    }
                },
                crate::operator::CommandView::List => {
                    &&& r.result == Ok::<Event, Error>(Event::Continue)
                    &&& final(clients)@ == old(clients)@
                    &&& final(clients).cfg() == old(clients).cfg()
                    &&& r.spawn is None
                    &&& r.kick is None
                    &&& strings_view(r.lines@) == Seq::new(
                        old(clients)@.len(),
                        |i: int|
                            broker_line_text(
                                Type::LogInfo,
                                Some(old(clients)@[i].0),
                                old(clients)@[i].1,
                            ),
                    )
                },
                crate::operator::CommandView::Config(c) => {
                    &&& r.result == Ok::<Event, Error>(Event::Continue)
                    &&& final(clients)@ == old(clients)@
                    &&& final(clients).cfg() == c
                    &&& r.spawn is None
                    &&& r.kick is None
                    &&& r.lines@.len() == 0
                },
            },
    {
        match cmd {
            Command::Stop => Dispatch {
                result: Ok(Event::Terminate),
                spawn: None,
                kick: None,
                lines: Vec::new(),
            },
            Command::Connect(addr) => {
                let full: String = if contains_char(addr.as_str(), ':') {
                    addr
                } else {
                    let mut a = addr;
                    a.append(":4026");
                    a
                };
                let index = clients.add(full.clone());
                Dispatch {
                    result: Ok(Event::Continue),
                    spawn: Some((index, full)),
                    kick: None,
                    lines: Vec::new(),
                }
            },
            Command::Kick(index) => {
                if clients.contains(index) {
                    Dispatch {
                        result: Ok(Event::Continue),
                        spawn: None,
                        kick: Some(index),
                        lines: Vec::new(),
                    }
                } else {
                    Dispatch {
                        result: Err(
                            Error { message: String::from_str("Client does not exist") },
                        ),
                        spawn: None,
                        kick: None,
                        lines: Vec::new(),
                    }
                }
            },
            Command::List => {
                let n = clients.len();
                let mut lines: Vec<String> = Vec::new();
                let ghost f = |i: int|
                    broker_line_text(Type::LogInfo, Some(clients@[i].0), clients@[i].1);
                let mut i: usize = 0;
                while i < n
                    invariant
                        i <= n,
                        n == clients@.len(),
                        f == (|k: int|
                            broker_line_text(Type::LogInfo, Some(clients@[k].0), clients@[k].1)),
                        strings_view(lines@) == Seq::new(n as nat, f).take(i as int),
                    decreases n - i,
                {
                    let (idx, cs) = clients.entry(i);
                    let line = broker_line(Type::LogInfo, Some(idx), cs.as_str());
                    let ghost pre = lines@;
                    lines.push(line);
                    proof {
                        assert(strings_view(lines@) =~= strings_view(pre).push(f(i as int)));
                        assert(Seq::new(n as nat, f).take(i as int + 1).drop_last() =~= Seq::new(
                            n as nat,
                            f,
                        ).take(i as int));
                        assert(strings_view(lines@) =~= Seq::new(n as nat, f).take(i as int + 1));
                    }
                    i += 1;
                }
                proof {
                    assert(Seq::new(n as nat, f).take(n as int) =~= Seq::new(n as nat, f));
                }
                Dispatch { result: Ok(Event::Continue), spawn: None, kick: None, lines }
            },
            Command::Config(c) => {
                clients.set_config(c);
                Dispatch {
                    result: Ok(Event::Continue),
                    spawn: None,
                    kick: None,
                    lines: Vec::new(),
                }
            },
        }
    }
}

} // verus!
