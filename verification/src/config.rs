//! Stored client records: identity, credentials, and the cached token state.
//!
//! A `Client` is owned by the surrounding store; the token engine borrows it
//! for reads and hands back a new `ClientState` for the store to persist.
//! Timestamps are seconds since the Unix epoch, always compared in UTC; an
//! absent `expires` means the token is treated as non-expiring.

use vstd::prelude::*;

verus! {

/// How the client authenticates against the issuer.
#[derive(Clone, Debug)]
pub enum ClientType {
    /// Holds a secret and can authenticate itself (client-credentials grant).
    Confidential { client_id: String, client_secret: String },
    /// Cannot hold a secret; relies on the PKCE-protected authorization-code
    /// flow and on refresh tokens afterwards.
    Public { client_id: String },
}

/// The cached outcome of the last successful token exchange. Overwritten
/// wholesale on every refresh, never merged field by field.
#[derive(Clone, Debug)]
pub struct ClientState {
    pub access_token: String,
    pub id_token: Option<String>,
    pub refresh_token: Option<String>,
    /// Expiry as seconds since the Unix epoch; `None` means non-expiring.
    pub expires: Option<i64>,
}

/// The mathematical content of a cached state: the views of its strings and
/// the expiry timestamp.
pub struct ClientStateView {
    pub access_token: Seq<char>,
    pub id_token: Option<Seq<char>>,
    pub refresh_token: Option<Seq<char>>,
    pub expires: Option<int>,
}

impl View for ClientState {
    type V = ClientStateView;

    open spec fn view(&self) -> ClientStateView {
        ClientStateView {
            access_token: self.access_token@,
            id_token: match self.id_token {
                Some(s) => Some(s@),
                None => None,
            },
            refresh_token: match self.refresh_token {
                Some(s) => Some(s@),
                None => None,
            },
            expires: match self.expires {
                Some(e) => Some(e as int),
                None => None,
            },
        }
    }
}

/// Copy an optional string, keeping its value.
pub fn clone_opt_string(o: &Option<String>) -> (r: Option<String>)
    ensures
        r == *o,
{
    match o {
        Some(s) => Some(s.clone()),
        None => None,
    }
}

impl ClientState {
    /// An identical copy of the cached state.
    pub fn duplicate(&self) -> (r: ClientState)
        ensures
            r == *self,
    {
        ClientState {
            access_token: self.access_token.clone(),
            id_token: clone_opt_string(&self.id_token),
            refresh_token: clone_opt_string(&self.refresh_token),
            expires: self.expires,
        }
    }
}

/// A stored client: immutable identity plus the mutable cached state.
#[derive(Clone, Debug)]
pub struct Client {
    pub issuer_url: String,
    pub client_type: ClientType,
    /// Additional scopes to request, space-delimited.
    pub scope: Option<String>,
    pub state: Option<ClientState>,
}

/// The set of stored clients, each under a locally unique name.
#[derive(Clone, Debug)]
pub struct Config {
    pub clients: Vec<(String, Client)>,
}

impl Config {
    /// Names are unique: no two entries share one.
    pub open spec fn wf(self) -> bool {
        forall|i: int, j: int|
            #![trigger self.clients@[i].0@, self.clients@[j].0@]
            0 <= i < j < self.clients@.len() ==> self.clients@[i].0@ != self.clients@[j].0@
    }

    /// Whether some entry is stored under `name`.
    pub open spec fn has_name(self, name: Seq<char>) -> bool {
        exists|i: int| 0 <= i < self.clients@.len() && self.clients@[i].0@ == name
    }

    /// The index of the entry stored under `name`.
    pub open spec fn index_of(self, name: Seq<char>) -> int {
        choose|i: int| 0 <= i < self.clients@.len() && self.clients@[i].0@ == name
    }

    /// In a store with unique names, the entry at `i` is the one that
    /// `index_of` finds for its name.
    proof fn lemma_index_of(self, i: int, name: Seq<char>)
        requires
            self.wf(),
            0 <= i < self.clients@.len(),
            self.clients@[i].0@ == name,
        ensures
            self.has_name(name),
            self.index_of(name) == i,
    {
        assert(self.has_name(name));
        let w = self.index_of(name);
        assert(0 <= w < self.clients@.len() && self.clients@[w].0@ == name);
        if w < i {
            assert(self.clients@[w].0@ != self.clients@[i].0@);
        } else if i < w {
            assert(self.clients@[i].0@ != self.clients@[w].0@);
        }
    }

    /// An empty store.
    pub fn new() -> (r: Config)
        ensures
            r.clients@.len() == 0,
            r.wf(),
    {
        Config { clients: Vec::new() }
    }

    /// Look a client up by name.
    pub fn by_name(&self, name: &String) -> (r: Option<&Client>)
        requires
            self.wf(),
        ensures
            match r {
                Some(c) => self.has_name(name@) && *c == self.clients@[self.index_of(name@)].1,
                None => !self.has_name(name@),
            },
    {
        let n = self.clients.len();
        for i in 0..n
            invariant
                self.wf(),
                n == self.clients@.len(),
                forall|j: int| 0 <= j < i ==> self.clients@[j].0@ != name@,
        {
            if self.clients[i].0.eq(name) {
                proof {
                    self.lemma_index_of(i as int, name@);
                }
                return Some(&self.clients[i].1);
            }
        }
        None
    }

    /// Store `client` under `name`, replacing any entry of that name.
    /// Reports whether an entry of that name was already there.
    pub fn upsert(&mut self, name: String, client: Client) -> (existed: bool)
        requires
            old(self).wf(),
        ensures
            final(self).wf(),
            existed == old(self).has_name(name@),
            final(self).has_name(name@),
            final(self).clients@[final(self).index_of(name@)].1 == client,
            existed ==> final(self).clients@.len() == old(self).clients@.len(),
            !existed ==> final(self).clients@.len() == old(self).clients@.len() + 1,
            forall|j: int|
                0 <= j < final(self).clients@.len() && final(self).clients@[j].0@ != name@
                    ==> #[trigger] final(self).clients@[j] == old(self).clients@[j],
    {
        let ghost gname = name@;
        let n = self.clients.len();
        for i in 0..n
            invariant
                old(self).wf(),
                n == self.clients@.len(),
                self == old(self),
                gname == name@,
                forall|j: int| 0 <= j < i ==> self.clients@[j].0@ != gname,
        {
            if self.clients[i].0.eq(&name) {
                self.clients[i] = (name, client);
                proof {
                    assert(self.clients@ == old(self).clients@.update(
                        i as int,
                        self.clients@[i as int],
                    ));
                    assert forall|a: int, b: int|
                        #![trigger self.clients@[a].0@, self.clients@[b].0@]
                        0 <= a < b < self.clients@.len()
                            implies self.clients@[a].0@ != self.clients@[b].0@ by {
                        if a != i && b != i {
                            assert(old(self).clients@[a].0@ != old(self).clients@[b].0@);
                        } else if a == i {
                            assert(self.clients@[b].0@ == old(self).clients@[b].0@);
                            if old(self).clients@[b].0@ == gname {
                                old(self).lemma_index_of(b, gname);
                                old(self).lemma_index_of(i as int, gname);
                            }
                        } else {
                            assert(self.clients@[a].0@ == old(self).clients@[a].0@);
                            if old(self).clients@[a].0@ == gname {
                                old(self).lemma_index_of(a, gname);
                                old(self).lemma_index_of(i as int, gname);
                            }
                        }
                    };
                    self.lemma_index_of(i as int, gname);
                    old(self).lemma_index_of(i as int, gname);
                }
                return true;
            }
        }
        self.clients.push((name, client));
        proof {
            let last = self.clients@.len() - 1;
            assert(self.clients@[last].0@ == gname);
            assert forall|a: int, b: int|
                #![trigger self.clients@[a].0@, self.clients@[b].0@]
                0 <= a < b < self.clients@.len()
                    implies self.clients@[a].0@ != self.clients@[b].0@ by {
                if b < last {
                    assert(old(self).clients@[a].0@ != old(self).clients@[b].0@);
                } else {
                    assert(self.clients@[a].0@ == old(self).clients@[a].0@);
                }
            };
            self.lemma_index_of(last, gname);
            assert(!old(self).has_name(gname));
        }
        false
    }

    /// Remove the entry stored under `name`, returning its client.
    pub fn remove_client(&mut self, name: &String) -> (r: Option<Client>)
        requires
            old(self).wf(),
        ensures
            final(self).wf(),
            match r {
                Some(c) => {
                    &&& old(self).has_name(name@)
                    &&& c == old(self).clients@[old(self).index_of(name@)].1
                    &&& final(self).clients@.len() + 1 == old(self).clients@.len()
                    &&& !final(self).has_name(name@)
                },
                None => !old(self).has_name(name@) && *final(self) == *old(self),
            },
    {
        let n = self.clients.len();
        for i in 0..n
            invariant
                n == self.clients@.len(),
                self == old(self),
                old(self).wf(),
                forall|j: int| 0 <= j < i ==> self.clients@[j].0@ != name@,
        {
            if self.clients[i].0.eq(name) {
                proof {
                    old(self).lemma_index_of(i as int, name@);
                }
                let pair = self.clients.remove(i);
                proof {
                    assert forall|k: int|
                        0 <= k < self.clients@.len() implies self.clients@[k].0@ != name@ by {
                        if k < i {
                            assert(self.clients@[k] == old(self).clients@[k]);
                            assert(old(self).clients@[k].0@ != old(self).clients@[i as int].0@);
                        } else {
                            assert(self.clients@[k] == old(self).clients@[k + 1]);
                            assert(old(self).clients@[i as int].0@
                                != old(self).clients@[k + 1].0@);
                        }
                    };
                    assert(!self.has_name(name@));
                    assert forall|a: int, b: int|
                        #![trigger self.clients@[a].0@, self.clients@[b].0@]
                        0 <= a < b < self.clients@.len()
                            implies self.clients@[a].0@ != self.clients@[b].0@ by {
                        let a0: int = if a < i { a } else { a + 1 };
                        let b0: int = if b < i { b } else { b + 1 };
                        assert(self.clients@[a] == old(self).clients@[a0]);
                        assert(self.clients@[b] == old(self).clients@[b0]);
                        assert(old(self).clients@[a0].0@ != old(self).clients@[b0].0@);
                    };
                }
                return Some(pair.1);
            }
        }
        None
    }

    /// Overwrite the cached state of the client stored under `name`.
    /// Reports whether such a client exists.
    pub fn set_client_state(&mut self, name: &String, state: ClientState) -> (found: bool)
        requires
            old(self).wf(),
        ensures
            final(self).wf(),
            found == old(self).has_name(name@),
            found ==> {
                let i = old(self).index_of(name@);
                &&& final(self).clients@.len() == old(self).clients@.len()
                &&& final(self).clients@[i].0 == old(self).clients@[i].0
                &&& (final(self).clients@[i].1.state matches Some(s) && s == state)
                &&& final(self).clients@[i].1.issuer_url == old(self).clients@[i].1.issuer_url
                &&& final(self).clients@[i].1.client_type == old(self).clients@[i].1.client_type
                &&& final(self).clients@[i].1.scope == old(self).clients@[i].1.scope
                &&& forall|j: int|
                    0 <= j < final(self).clients@.len() && j != i
                        ==> #[trigger] final(self).clients@[j] == old(self).clients@[j]
            },
            !found ==> *final(self) == *old(self),
    {
        let n = self.clients.len();
        for i in 0..n
            invariant
                n == self.clients@.len(),
                self == old(self),
                old(self).wf(),
                forall|j: int| 0 <= j < i ==> self.clients@[j].0@ != name@,
        {
            if self.clients[i].0.eq(name) {
                proof {
                    old(self).lemma_index_of(i as int, name@);
                }
                self.clients[i].1.state = Some(state);
                proof {
                    assert forall|a: int, b: int|
                        #![trigger self.clients@[a].0@, self.clients@[b].0@]
                        0 <= a < b < self.clients@.len()
                            implies self.clients@[a].0@ != self.clients@[b].0@ by {
                        assert(self.clients@[a].0 == old(self).clients@[a].0);
                        assert(self.clients@[b].0 == old(self).clients@[b].0);
                        assert(old(self).clients@[a].0@ != old(self).clients@[b].0@);
                    };
                }
                return true;
            }
        }
        false
    }
}

} // verus!
