use crate::response::{Auth, Event, Exception, Response, Token, Username};
use vstd::prelude::*;

verus! {

/// Identifier that the network layer gives to each client address.
pub type ClientId = u64;

/// What the network layer must do after a message.
#[derive(Debug)]
pub enum Reply {
    /// Nothing to send.
    Nothing,
    /// Send this message back to the client.
    Send(Response),
    /// Hand the event to the game on behalf of this user.
    Forward(Username, Event),
}

/// Index of the first entry whose name is `name`, or `-1`.
pub open spec fn first_named<T>(v: Seq<(String, T)>, name: Seq<char>, n: int) -> int
    decreases n,
{
    if n <= 0 {
        -1
    } else if first_named(v, name, n - 1) >= 0 {
        first_named(v, name, n - 1)
    } else if v[n - 1].0@ == name {
        n - 1
    } else {
        -1
    }
}

proof fn lemma_first_named<T>(v: Seq<(String, T)>, name: Seq<char>, n: int)
    requires
        0 <= n <= v.len(),
    ensures
        -1 <= first_named(v, name, n) < n,
        first_named(v, name, n) >= 0 ==> v[first_named(v, name, n)].0@ == name,
        first_named(v, name, n) == -1 <==> forall|k: int| 0 <= k < n ==> v[k].0@ != name,
        forall|k: int| 0 <= k < first_named(v, name, n) ==> v[k].0@ != name,
    decreases n,
{
    if n > 0 {
        lemma_first_named(v, name, n - 1);
    }
}

/// Index of the first entry for `client`, or `-1`.
pub open spec fn client_index(v: Seq<(ClientId, Option<String>)>, client: ClientId, n: int) -> int
    decreases n,
{
    if n <= 0 {
        -1
    } else if client_index(v, client, n - 1) >= 0 {
        client_index(v, client, n - 1)
    } else if v[n - 1].0 == client {
        n - 1
    } else {
        -1
    }
}

proof fn lemma_client_index(v: Seq<(ClientId, Option<String>)>, client: ClientId, n: int)
    requires
        0 <= n <= v.len(),
    ensures
        -1 <= client_index(v, client, n) < n,
        client_index(v, client, n) >= 0 ==> v[client_index(v, client, n)].0 == client,
        client_index(v, client, n) == -1 <==> forall|k: int| 0 <= k < n ==> v[k].0 != client,
        forall|k: int| 0 <= k < client_index(v, client, n) ==> v[k].0 != client,
    decreases n,
{
    if n > 0 {
        lemma_client_index(v, client, n - 1);
    }
}

/// The user name and pass of a login message.
pub open spec fn login_of(m: Response) -> Option<(Username, Token)> {
    match m {
        Response::Auth(Auth::Login(name, token)) => Some((name, token)),
        _ => None,
    }
}

/// The user name of a registration message.
pub open spec fn register_of(m: Response) -> Option<Username> {
    match m {
        Response::Auth(Auth::Register(name)) => Some(name),
        _ => None,
    }
}

/// The event of an event message.
pub open spec fn event_of(m: Response) -> Option<Event> {
    match m {
        Response::Event(e) => Some(e),
        _ => None,
    }
}

/// The server's view of who is who: registered users with their passes, and the
/// clients it has heard from, with the user each one is logged in as.
#[derive(Debug)]
pub struct Sessions {
    accounts: Vec<(Username, Token)>,
    clients: Vec<(ClientId, Option<Username>)>,
}

impl Sessions {
    pub closed spec fn spec_accounts(&self) -> Seq<(Username, Token)> {
        self.accounts@
    }

    pub closed spec fn spec_clients(&self) -> Seq<(ClientId, Option<Username>)> {
        self.clients@
    }

    /// Index of the account of `name`, or `-1`.
    pub open spec fn account_of(&self, name: Seq<char>) -> int {
        first_named(self.spec_accounts(), name, self.spec_accounts().len() as int)
    }

    /// Index of the entry of `client`, or `-1`.
    pub open spec fn client_of(&self, client: ClientId) -> int {
        client_index(self.spec_clients(), client, self.spec_clients().len() as int)
    }

    /// No account and no client yet.
    pub fn new(accounts: Vec<(Username, Token)>) -> (s: Sessions)
        ensures
            s.spec_accounts() == accounts@,
            s.spec_clients().len() == 0,
    {
        Sessions { accounts, clients: Vec::new() }
    }

    /// The registered users with their passes.
    pub fn accounts(&self) -> (a: &Vec<(Username, Token)>)
        ensures
            a@ == self.spec_accounts(),
    {
        &self.accounts
    }

    fn find_account(&self, name: &String) -> (i: Option<usize>)
        ensures
            i matches Some(k) ==> k as int == self.account_of(name@) && k < self.spec_accounts().len(),
            i is None ==> self.account_of(name@) == -1,
    {
        proof {
            lemma_first_named(self.spec_accounts(), name@, self.spec_accounts().len() as int);
        }
        let mut k: usize = 0;
        while k < self.accounts.len()
            invariant
                k <= self.spec_accounts().len(),
                forall|j: int| 0 <= j < k ==> self.spec_accounts()[j].0@ != name@,
                -1 <= self.account_of(name@) < self.spec_accounts().len(),
                self.account_of(name@) == -1 <==> forall|j: int|
                    0 <= j < self.spec_accounts().len() ==> self.spec_accounts()[j].0@ != name@,
                self.account_of(name@) >= 0 ==> self.spec_accounts()[self.account_of(name@)].0@ == name@,
                forall|j: int| 0 <= j < self.account_of(name@) ==> self.spec_accounts()[j].0@ != name@,
            decreases self.spec_accounts().len() - k,
        {
            if self.accounts[k].0 == *name {
                return Some(k);
            }
            k = k + 1;
        }
        None
    }

    fn find_client(&self, client: ClientId) -> (i: Option<usize>)
        ensures
            i matches Some(k) ==> k as int == self.client_of(client) && k < self.spec_clients().len(),
            i is None ==> self.client_of(client) == -1,
    {
        proof {
            lemma_client_index(self.spec_clients(), client, self.spec_clients().len() as int);
        }
        let mut k: usize = 0;
        while k < self.clients.len()
            invariant
                k <= self.spec_clients().len(),
                forall|j: int| 0 <= j < k ==> self.spec_clients()[j].0 != client,
                -1 <= self.client_of(client) < self.spec_clients().len(),
                self.client_of(client) == -1 <==> forall|j: int|
                    0 <= j < self.spec_clients().len() ==> self.spec_clients()[j].0 != client,
                self.client_of(client) >= 0 ==> self.spec_clients()[self.client_of(client)].0 == client,
                forall|j: int| 0 <= j < self.client_of(client) ==> self.spec_clients()[j].0 != client,
            decreases self.spec_clients().len() - k,
        {
            if self.clients[k].0 == client {
                return Some(k);
            }
            k = k + 1;
        }
        None
    }

    /// The user that `client` is logged in as, if any.
    pub fn user_of(&self, client: ClientId) -> (u: Option<&Username>)
        ensures
            self.client_of(client) == -1 ==> u is None,
            self.client_of(client) >= 0 ==> u == match self.spec_clients()[self.client_of(client)].1 {
                Some(n) => Some(&n),
                None => None,
            },
    {
        match self.find_client(client) {
            Some(k) => match &self.clients[k].1 {
                Some(n) => Some(n),
                None => None,
            },
            None => None,
        }
    }

    /// The first client logged in as `name`, if any.
    pub fn client_logged_as(&self, name: &String) -> (c: Option<ClientId>)
        ensures
            c matches Some(id) ==> exists|k: int|
                0 <= k < self.spec_clients().len() && #[trigger] self.spec_clients()[k].0 == id
                    && (self.spec_clients()[k].1 matches Some(n) && n@ == name@),
            c is None ==> forall|k: int|
                0 <= k < self.spec_clients().len() ==> !(#[trigger] self.spec_clients()[k].1 matches Some(n) && n@ == name@),
    {
        let mut k: usize = 0;
        while k < self.clients.len()
            invariant
                k <= self.spec_clients().len(),
                forall|j: int|
                    0 <= j < k ==> !(#[trigger] self.spec_clients()[j].1 matches Some(n) && n@ == name@),
            decreases self.spec_clients().len() - k,
        {
            match &self.clients[k].1 {
                Some(n) => {
                    if *n == *name {
                        return Some(self.clients[k].0);
                    }
                },
                None => {},
            }
            k = k + 1;
        }
        None
    }

    /// Decides what a message from `client` leads to.
    ///
    /// A client that disconnects is forgotten and told it is logged out. A login
    /// with the pass given at registration logs the client in; with another pass it
    /// is refused as invalid, and for an unknown user as unregistered. A
    /// registration of a new name gives it the pass and sends the pass back; a taken
    /// name is refused. An event from a logged-in client goes to the game on behalf
    /// of its user; from any other client it is refused as logged out. Anything
    /// else is ignored.
    pub fn on_message(&mut self, client: ClientId, message: Response) -> (r: Reply)
        ensures
            (message matches Response::Auth(Auth::Disconnect)) ==> r == Reply::Send(Response::Exception(Exception::LoggedOut))
                && final(self).spec_accounts() == old(self).spec_accounts() && (old(self).client_of(client) >= 0
                ==> final(self).spec_clients() == old(self).spec_clients().remove(old(self).client_of(client)))
                && (old(self).client_of(client) == -1 ==> final(self).spec_clients() == old(self).spec_clients()),
            login_of(message) is Some ==> {
                let pair = login_of(message)->0;
                let name = pair.0;
                let token = pair.1;
                let a = old(self).account_of(name@);
                &&& final(self).spec_accounts() == old(self).spec_accounts()
                &&& a == -1 ==> r == Reply::Send(Response::Exception(Exception::Unregistered))
                    && final(self).spec_clients() == old(self).spec_clients()
                &&& a >= 0 && old(self).spec_accounts()[a].1 != token ==> r == Reply::Send(
                    Response::Exception(Exception::InvalidToken),
                ) && final(self).spec_clients() == old(self).spec_clients()
                &&& a >= 0 && old(self).spec_accounts()[a].1 == token ==> r is Nothing && final(self).client_of(
                    client,
                ) >= 0 && final(self).spec_clients()[final(self).client_of(client)].1 == Some(name)
            },
            register_of(message) is Some ==> {
                let name = register_of(message)->0;
                let a = old(self).account_of(name@);
                &&& final(self).spec_clients() == old(self).spec_clients()
                &&& a >= 0 ==> r == Reply::Send(Response::Exception(Exception::AlreadyRegistered))
                    && final(self).spec_accounts() == old(self).spec_accounts()
                &&& a == -1 ==> r == Reply::Send(Response::Auth(Auth::NewToken(Token(3421545))))
                    && final(self).spec_accounts() == old(self).spec_accounts().push((name, Token(3421545)))
            },
            (message matches Response::Auth(Auth::NewToken(_))) ==> r is Nothing && *final(self) == *old(self),
            event_of(message) is Some ==> {
                let c = old(self).client_of(client);
                &&& *final(self) == *old(self)
                &&& (c >= 0 && old(self).spec_clients()[c].1 is Some) ==> (r matches Reply::Forward(n, ev)
                    && n@ == old(self).spec_clients()[c].1->0@ && ev == event_of(message)->0)
                &&& !(c >= 0 && old(self).spec_clients()[c].1 is Some) ==> r == Reply::Send(
                    Response::Exception(Exception::LoggedOut),
                )
            },
            (message matches Response::Exception(_)) ==> r is Nothing && *final(self) == *old(self),
    {
        match message {
            Response::Auth(auth) => match auth {
                Auth::Disconnect => {
                    match self.find_client(client) {
                        Some(k) => {
                            self.clients.remove(k);
                        },
                        None => {},
                    }
                    Reply::Send(Response::Exception(Exception::LoggedOut))
                },
                Auth::Login(name, token) => {
                    match self.find_account(&name) {
                        Some(a) => {
                            if self.accounts[a].1 == token {
                                self.log_in(client, name);
                                Reply::Nothing
                            } else {
                                Reply::Send(Response::Exception(Exception::InvalidToken))
                            }
                        },
                        None => Reply::Send(Response::Exception(Exception::Unregistered)),
                    }
                },
                Auth::Register(name) => {
                    match self.find_account(&name) {
                        Some(_) => Reply::Send(Response::Exception(Exception::AlreadyRegistered)),
                        None => {
                            let token = Token::new();
                            self.accounts.push((name, token));
                            Reply::Send(Response::Auth(Auth::NewToken(token)))
                        },
                    }
                },
                Auth::NewToken(_) => Reply::Nothing,
            },
            Response::Event(event) => {
                match self.find_client(client) {
                    Some(k) => match &self.clients[k].1 {
                        Some(name) => Reply::Forward(name.clone(), event),
                        None => Reply::Send(Response::Exception(Exception::LoggedOut)),
                    },
                    None => Reply::Send(Response::Exception(Exception::LoggedOut)),
                }
            },
            Response::Exception(_) => Reply::Nothing,
        }
    }

    /// Marks `client` as logged in as `name`, adding it if it is new.
    fn log_in(&mut self, client: ClientId, name: Username)
        ensures
            final(self).spec_accounts() == old(self).spec_accounts(),
            final(self).client_of(client) >= 0,
            final(self).spec_clients()[final(self).client_of(client)].1 == Some(name),
    {
        match self.find_client(client) {
            Some(k) => {
                self.clients.set(k, (client, Some(name)));
                proof {
                    lemma_client_index(old(self).spec_clients(), client, old(self).spec_clients().len() as int);
                    lemma_client_prefix(self.spec_clients(), client, k as int);
                }
            },
            None => {
                self.clients.push((client, Some(name)));
                proof {
                    lemma_client_index(old(self).spec_clients(), client, old(self).spec_clients().len() as int);
                    lemma_client_prefix(self.spec_clients(), client, old(self).spec_clients().len() as int);
                }
            },
        }
    }
}

proof fn lemma_client_prefix(v: Seq<(ClientId, Option<String>)>, client: ClientId, k: int)
    requires
        0 <= k < v.len(),
        v[k].0 == client,
        forall|j: int| 0 <= j < k ==> v[j].0 != client,
    ensures
        client_index(v, client, v.len() as int) == k,
    decreases v.len() - k,
{
    lemma_client_index(v, client, k);
    lemma_client_from(v, client, k, v.len() as int);
}

proof fn lemma_client_from(v: Seq<(ClientId, Option<String>)>, client: ClientId, k: int, n: int)
    requires
        0 <= k < n <= v.len(),
        v[k].0 == client,
        client_index(v, client, k) == -1,
    ensures
        client_index(v, client, n) == k,
    decreases n,
{
    if n > k + 1 {
        lemma_client_from(v, client, k, n - 1);
    }
}

} // verus!
