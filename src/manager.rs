use crate::broker::{broker_options, broker_url, url_with_client_id, usable_broker_url};
use crate::driver::{classify, BrokerEvent, DriverStep};
use crate::relay::{ids_of, pair_map, MqttClientActor, MqttMessage, RelayOutput};
use rumqttc::MqttOptions;
use vstd::prelude::*;

verus! {

/// Why a registry operation did not go through.
#[derive(Debug, Clone, Copy, PartialEq, Eq, Structural)]
pub enum RegistryError {
    /// The client identifier is taken.
    AlreadyRegistered,
    /// No client is registered under the identifier.
    NotFound,
    /// The broker URL was rejected, or the session could not be started.
    ConnectError,
    /// Sending on an otherwise live connection failed.
    TransportError,
}

/// What the registry knows of one client.
pub struct ClientState<C, H> {
    /// The URL the client connects with, client identifier included.
    pub url: Seq<char>,
    /// The topic filters the client is subscribed to.
    pub topics: Set<Seq<char>>,
    /// Whether the client's event loop still runs.
    pub connected: bool,
    /// The subscribers attached to the client's relay.
    pub subscribers: Map<i32, H>,
    /// The caller's handle on the broker connection.
    pub conn: C,
}

/// The views of a list of strings.
pub open spec fn views_of(s: Seq<String>) -> Seq<Seq<char>> {
    s.map_values(|t: String| t@)
}

/// The state of a client just registered.
pub open spec fn fresh_client<C, H>(
    name: Seq<char>,
    url: Seq<char>,
    topics: Seq<Seq<char>>,
    conn: C,
) -> ClientState<C, H> {
    ClientState {
        url: url_with_client_id(url, name),
        topics: topics.to_set(),
        connected: true,
        subscribers: Map::empty(),
        conn,
    }
}

/// What `register_client` answers for `name` at `url` on the registry `m`:
/// `AlreadyRegistered` when the name is taken, else `ConnectError` when the
/// URL, with the client identifier added, is not usable.
pub open spec fn register_outcome<C, H>(
    m: Map<Seq<char>, ClientState<C, H>>,
    name: Seq<char>,
    url: Seq<char>,
) -> Result<(), RegistryError> {
    if m.contains_key(name) {
        Err(RegistryError::AlreadyRegistered)
    } else if !usable_broker_url(url_with_client_id(url, name)) {
        Err(RegistryError::ConnectError)
    } else {
        Ok(())
    }
}

/// The registry `m` after `register_client(name, url, topics, conn)`.
pub open spec fn after_register<C, H>(
    m: Map<Seq<char>, ClientState<C, H>>,
    name: Seq<char>,
    url: Seq<char>,
    topics: Seq<Seq<char>>,
    conn: C,
) -> Map<Seq<char>, ClientState<C, H>> {
    if register_outcome(m, name, url) is Ok {
        m.insert(name, fresh_client(name, url, topics, conn))
    } else {
        m
    }
}

/// Registering an identifier twice in a row fails the second time with
/// `AlreadyRegistered` when the first attempt succeeded, and the same way as
/// the first otherwise; once the identifier is unregistered, registering it
/// at a usable URL succeeds.
pub proof fn lemma_register_twice<C, H>(
    m: Map<Seq<char>, ClientState<C, H>>,
    name: Seq<char>,
    url: Seq<char>,
    topics: Seq<Seq<char>>,
    conn: C,
)
    ensures
        register_outcome(m, name, url) is Ok ==> register_outcome(
            after_register(m, name, url, topics, conn),
            name,
            url,
        ) == Err::<(), RegistryError>(RegistryError::AlreadyRegistered),
        register_outcome(m, name, url) is Err ==> register_outcome(
            after_register(m, name, url, topics, conn),
            name,
            url,
        ) == register_outcome(m, name, url),
        usable_broker_url(url_with_client_id(url, name)) ==> register_outcome(
            after_register(m, name, url, topics, conn).remove(name),
            name,
            url,
        ) == Ok::<(), RegistryError>(()),
{
}

/// Whether no client that `before` has as dead is alive in `after`: a
/// client whose connection ended stays dead until it is unregistered and
/// registered again.
pub open spec fn stays_dead<C, H>(
    before: Map<Seq<char>, ClientState<C, H>>,
    after: Map<Seq<char>, ClientState<C, H>>,
) -> bool {
    forall|k: Seq<char>|
        before.contains_key(k) && !before[k].connected && #[trigger] after.contains_key(k)
            ==> !after[k].connected
}

/// A client's registration: its connection, the topics it follows and its
/// relay.
struct ClientEntry<C, H> {
    name: String,
    url: String,
    topics: Vec<String>,
    connected: bool,
    conn: C,
    actor: MqttClientActor<H>,
}

impl<C, H> ClientEntry<C, H> {
    closed spec fn state(&self) -> ClientState<C, H> {
        ClientState {
            url: self.url@,
            topics: views_of(self.topics@).to_set(),
            connected: self.connected,
            subscribers: self.actor@,
            conn: self.conn,
        }
    }
}

spec fn names_unique<C, H>(s: Seq<ClientEntry<C, H>>) -> bool {
    forall|i: int, j: int|
        0 <= i < s.len() && 0 <= j < s.len() && i != j ==> #[trigger] s[i].name@ != #[trigger] s[j].name@
}

spec fn entries_wf<C, H>(s: Seq<ClientEntry<C, H>>) -> bool {
    &&& names_unique(s)
    &&& forall|i: int| 0 <= i < s.len() ==> views_of(#[trigger] s[i].topics@).no_duplicates()
}

spec fn has_name<C, H>(s: Seq<ClientEntry<C, H>>, i: int, k: Seq<char>) -> bool {
    0 <= i < s.len() && s[i].name@ == k
}

spec fn view_of<C, H>(s: Seq<ClientEntry<C, H>>) -> Map<Seq<char>, ClientState<C, H>> {
    Map::new(
        |k: Seq<char>| exists|i: int| #[trigger] has_name(s, i, k),
        |k: Seq<char>| s[choose|i: int| #[trigger] has_name(s, i, k)].state(),
    )
}

proof fn lemma_view_at<C, H>(s: Seq<ClientEntry<C, H>>, i: int)
    requires
        names_unique(s),
        0 <= i < s.len(),
    ensures
        view_of(s).contains_key(s[i].name@),
        view_of(s)[s[i].name@] == s[i].state(),
{
    let k = s[i].name@;
    assert(has_name(s, i, k));
    let j = choose|j: int| #[trigger] has_name(s, j, k);
    assert(j == i);
}

proof fn lemma_view_absent<C, H>(s: Seq<ClientEntry<C, H>>, k: Seq<char>)
    requires
        forall|i: int| 0 <= i < s.len() ==> #[trigger] s[i].name@ != k,
    ensures
        !view_of(s).contains_key(k),
{
    if view_of(s).contains_key(k) {
        let i = choose|i: int| #[trigger] has_name(s, i, k);
        assert(s[i].name@ == k);
    }
}

proof fn lemma_view_update<C, H>(s: Seq<ClientEntry<C, H>>, t: Seq<ClientEntry<C, H>>, i: int)
    requires
        names_unique(s),
        0 <= i < s.len(),
        t.len() == s.len(),
        forall|j: int| 0 <= j < s.len() ==> #[trigger] t[j].name@ == s[j].name@,
        forall|j: int| 0 <= j < s.len() && j != i ==> #[trigger] t[j].state() == s[j].state(),
    ensures
        names_unique(t),
        view_of(t) == view_of(s).insert(s[i].name@, t[i].state()),
{
    assert forall|a: int, b: int|
        0 <= a < t.len() && 0 <= b < t.len() && a != b implies #[trigger] t[a].name@ != #[trigger] t[b].name@ by {
        assert(s[a].name@ != s[b].name@);
    }
    let m = view_of(s).insert(s[i].name@, t[i].state());
    assert forall|k: Seq<char>| #[trigger] view_of(t).contains_key(k) <==> m.contains_key(k) by {
        if view_of(t).contains_key(k) {
            let j = choose|j: int| #[trigger] has_name(t, j, k);
            assert(has_name(s, j, k));
        }
        if view_of(s).contains_key(k) {
            let j = choose|j: int| #[trigger] has_name(s, j, k);
            assert(has_name(t, j, k));
        }
        if k == s[i].name@ {
            assert(has_name(t, i, k));
        }
    }
    assert forall|k: Seq<char>| #[trigger] view_of(t).contains_key(k) implies view_of(t)[k] == m[k] by {
        let j = choose|j: int| #[trigger] has_name(t, j, k);
        lemma_view_at(t, j);
        if j != i {
            lemma_view_at(s, j);
        }
    }
    assert(view_of(t) =~= m);
}

proof fn lemma_view_push<C, H>(s: Seq<ClientEntry<C, H>>, e: ClientEntry<C, H>)
    requires
        names_unique(s),
        !view_of(s).contains_key(e.name@),
    ensures
        names_unique(s.push(e)),
        view_of(s.push(e)) == view_of(s).insert(e.name@, e.state()),
{
    let t = s.push(e);
    assert forall|i: int| 0 <= i < s.len() implies #[trigger] s[i].name@ != e.name@ by {
        lemma_view_at(s, i);
    }
    assert forall|a: int, b: int|
        0 <= a < t.len() && 0 <= b < t.len() && a != b implies #[trigger] t[a].name@ != #[trigger] t[b].name@ by {
        if a < s.len() && b < s.len() {
            assert(s[a].name@ != s[b].name@);
        }
    }
    let m = view_of(s).insert(e.name@, e.state());
    assert forall|k: Seq<char>| #[trigger] view_of(t).contains_key(k) <==> m.contains_key(k) by {
        if view_of(t).contains_key(k) {
            let j = choose|j: int| #[trigger] has_name(t, j, k);
            if j < s.len() {
                assert(has_name(s, j, k));
            }
        }
        if view_of(s).contains_key(k) {
            let j = choose|j: int| #[trigger] has_name(s, j, k);
            assert(has_name(t, j, k));
        }
        if k == e.name@ {
            assert(has_name(t, s.len() as int, k));
        }
    }
    assert forall|k: Seq<char>| #[trigger] view_of(t).contains_key(k) implies view_of(t)[k] == m[k] by {
        let j = choose|j: int| #[trigger] has_name(t, j, k);
        lemma_view_at(t, j);
        if j < s.len() {
            lemma_view_at(s, j);
        }
    }
    assert(view_of(t) =~= m);
}

proof fn lemma_view_remove<C, H>(s: Seq<ClientEntry<C, H>>, i: int)
    requires
        names_unique(s),
        0 <= i < s.len(),
    ensures
        names_unique(s.remove(i)),
        view_of(s.remove(i)) == view_of(s).remove(s[i].name@),
{
    let t = s.remove(i);
    let k0 = s[i].name@;
    assert forall|a: int, b: int|
        0 <= a < t.len() && 0 <= b < t.len() && a != b implies #[trigger] t[a].name@ != #[trigger] t[b].name@ by {
        let sa = if a < i { a } else { a + 1 };
        let sb = if b < i { b } else { b + 1 };
        assert(t[a] == s[sa]);
        assert(t[b] == s[sb]);
        assert(s[sa].name@ != s[sb].name@);
    }
    let m = view_of(s).remove(k0);
    assert forall|k: Seq<char>| #[trigger] view_of(t).contains_key(k) <==> m.contains_key(k) by {
        if view_of(t).contains_key(k) {
            let j = choose|j: int| #[trigger] has_name(t, j, k);
            let sj = if j < i { j } else { j + 1 };
            assert(t[j] == s[sj]);
            assert(has_name(s, sj, k));
            assert(sj != i);
            assert(s[sj].name@ != k0);
        }
        if m.contains_key(k) {
            let j = choose|j: int| #[trigger] has_name(s, j, k);
            assert(j != i);
            let tj = if j < i { j } else { j - 1 };
            assert(t[tj] == s[j]);
            assert(has_name(t, tj, k));
        }
    }
    assert forall|k: Seq<char>| #[trigger] view_of(t).contains_key(k) implies view_of(t)[k] == m[k] by {
        let j = choose|j: int| #[trigger] has_name(t, j, k);
        lemma_view_at(t, j);
        let sj = if j < i { j } else { j + 1 };
        assert(t[j] == s[sj]);
        lemma_view_at(s, sj);
    }
    assert(view_of(t) =~= m);
}

/// The position of `t` among `topics`, if it is there.
fn position_of(topics: &Vec<String>, t: &String) -> (r: Option<usize>)
    ensures
        r matches Some(i) ==> i < topics.len() && topics@[i as int]@ == t@,
        r is None ==> !views_of(topics@).contains(t@),
{
    let mut i: usize = 0;
    while i < topics.len()
        invariant
            i <= topics.len(),
            forall|j: int| 0 <= j < i ==> #[trigger] topics@[j]@ != t@,
        decreases topics.len() - i,
    {
        if topics[i] == *t {
            return Some(i);
        }
        i = i + 1;
    }
    proof {
        if views_of(topics@).contains(t@) {
            let j = choose|j: int| 0 <= j < views_of(topics@).len() && views_of(topics@)[j] == t@;
            assert(topics@[j]@ == t@);
        }
    }
    None
}

/// Adds `t` to a list of distinct topics, unless it is there already.
fn add_topic(topics: &mut Vec<String>, t: String)
    requires
        views_of(old(topics)@).no_duplicates(),
    ensures
        views_of(final(topics)@).no_duplicates(),
        views_of(final(topics)@).to_set() == views_of(old(topics)@).to_set().insert(t@),
{
    match position_of(topics, &t) {
        Some(i) => {
            proof {
                assert(views_of(topics@)[i as int] == t@);
                assert(views_of(topics@).to_set() =~= views_of(topics@).to_set().insert(t@));
            }
        },
        None => {
            let ghost before = views_of(topics@);
            let ghost tv = t@;
            topics.push(t);
            proof {
                assert(views_of(topics@) =~= before.push(tv));
                crate::relay::lemma_push_to_set(before, tv);
            }
        },
    }
}

/// Removes `t` from a list of distinct topics, if it is there.
fn remove_topic(topics: &mut Vec<String>, t: &String)
    requires
        views_of(old(topics)@).no_duplicates(),
    ensures
        views_of(final(topics)@).no_duplicates(),
        views_of(final(topics)@).to_set() == views_of(old(topics)@).to_set().remove(t@),
{
    match position_of(topics, t) {
        Some(i) => {
            let ghost before = views_of(topics@);
            topics.remove(i);
            proof {
                let after = views_of(topics@);
                assert(after =~= before.remove(i as int));
                assert forall|y: Seq<char>| #[trigger] after.to_set().contains(y) <==> before.to_set().remove(t@).contains(y) by {
                    if after.contains(y) {
                        let j = choose|j: int| 0 <= j < after.len() && after[j] == y;
                        let bj = if j < i { j } else { j + 1 };
                        assert(before[bj] == y);
                        assert(bj != i);
                        assert(before[i as int] == t@);
                        assert(y != t@);
                    }
                    if before.contains(y) && y != t@ {
                        let j = choose|j: int| 0 <= j < before.len() && before[j] == y;
                        assert(j != i);
                        let aj = if j < i { j } else { j - 1 };
                        assert(after[aj] == y);
                        assert(after.contains(y));
                    }
                }
                assert(after.to_set() =~= before.to_set().remove(t@));
            }
        },
        None => {
            proof {
                assert(views_of(topics@).to_set() =~= views_of(topics@).to_set().remove(t@));
            }
        },
    }
}

/// The distinct topics of `topics`.
fn distinct_topics(topics: Vec<String>) -> (r: Vec<String>)
    ensures
        views_of(r@).no_duplicates(),
        views_of(r@).to_set() == views_of(topics@).to_set(),
{
    let mut out: Vec<String> = Vec::new();
    let mut rest = topics;
    let ghost all = views_of(rest@);
    proof {
        assert(views_of(out@) =~= Seq::<Seq<char>>::empty());
        assert(views_of(out@).to_set() =~= Set::<Seq<char>>::empty());
    }
    while rest.len() > 0
        invariant
            views_of(out@).no_duplicates(),
            views_of(out@).to_set() + views_of(rest@).to_set() == all.to_set(),
        decreases rest.len(),
    {
        let ghost before = views_of(rest@);
        let t = rest.pop().unwrap();
        let ghost tv = t@;
        proof {
            assert(before =~= views_of(rest@).push(tv));
            crate::relay::lemma_push_to_set(views_of(rest@), tv);
        }
        add_topic(&mut out, t);
        proof {
            assert(views_of(out@).to_set() + views_of(rest@).to_set() =~= all.to_set());
        }
    }
    proof {
        assert(views_of(rest@).to_set() =~= Set::<Seq<char>>::empty());
        assert(views_of(out@).to_set() =~= all.to_set());
    }
    out
}

/// What is left of a client once it is unregistered.
pub struct Removed<C, H> {
    /// The connection, to be closed.
    pub conn: C,
    /// The subscribers that were attached, each to be told of the closure.
    pub subscribers: Vec<(i32, H)>,
}

/// The registry of broker connections: each client identifier maps to its
/// connection handle `C`, the topics it follows, whether its driver still
/// runs, and its relay of subscriber handles `H`.
pub struct MqttClientManager<C, H> {
    clients: Vec<ClientEntry<C, H>>,
}

impl<C, H> View for MqttClientManager<C, H> {
    type V = Map<Seq<char>, ClientState<C, H>>;

    closed spec fn view(&self) -> Map<Seq<char>, ClientState<C, H>> {
        view_of(self.clients@)
    }
}

impl<C, H> MqttClientManager<C, H> {
    /// The registry's invariant: client identifiers are unique, and so are the
    /// topics of each client.
    pub closed spec fn wf(&self) -> bool {
        entries_wf(self.clients@)
    }

    /// An empty registry.
    pub fn new() -> (r: Self)
        ensures
            r.wf(),
            r@ == Map::<Seq<char>, ClientState<C, H>>::empty(),
    {
        let r = MqttClientManager { clients: Vec::new() };
        proof {
            assert(r@ =~= Map::<Seq<char>, ClientState<C, H>>::empty());
        }
        r
    }

    /// The position of `name` in the registry, if it is registered.
    fn find(&self, name: &String) -> (r: Option<usize>)
        requires
            self.wf(),
        ensures
            r matches Some(i) ==> i < self.clients.len() && self.clients@[i as int].name@ == name@
                && self@.contains_key(name@) && self@[name@] == self.clients@[i as int].state(),
            r is None ==> !self@.contains_key(name@),
    {
        let mut i: usize = 0;
        while i < self.clients.len()
            invariant
                i <= self.clients.len(),
                entries_wf(self.clients@),
                forall|j: int| 0 <= j < i ==> #[trigger] self.clients@[j].name@ != name@,
            decreases self.clients.len() - i,
        {
            if self.clients[i].name == *name {
                proof {
                    lemma_view_at(self.clients@, i as int);
                }
                return Some(i);
            }
            i = i + 1;
        }
        proof {
            lemma_view_absent(self.clients@, name@);
        }
        None
    }

    /// Whether a client is registered under `name`.
    pub fn is_registered(&self, name: &String) -> (r: bool)
        requires
            self.wf(),
        ensures
            r == self@.contains_key(name@),
    {
        self.find(name).is_some()
    }

    /// The connection options for registering `name` at `mqtt_url`: fails
    /// with `AlreadyRegistered` when the identifier is taken, and with
    /// `ConnectError` when rumqttc rejects the URL (after the client
    /// identifier was added to it where it lacked one).
    pub fn connect_options(&self, name: &String, mqtt_url: &String) -> (r: Result<
        MqttOptions,
        RegistryError,
    >)
        requires
            self.wf(),
        ensures
            self@.contains_key(name@) ==> r matches Err(RegistryError::AlreadyRegistered),
            !self@.contains_key(name@) ==> (r is Ok <==> usable_broker_url(
                url_with_client_id(mqtt_url@, name@),
            )),
            !self@.contains_key(name@) && r is Err ==> r matches Err(RegistryError::ConnectError),
    {
        if self.is_registered(name) {
            return Err(RegistryError::AlreadyRegistered);
        }
        match broker_options(name, mqtt_url) {
            Some(options) => Ok(options),
            None => Err(RegistryError::ConnectError),
        }
    }

    /// Registers the client `name`, connected through `conn` at `mqtt_url`
    /// and subscribed to `topics`. Fails, changing nothing, with
    /// `AlreadyRegistered` when the identifier is taken, and with
    /// `ConnectError` when the URL is not usable (see `connect_options`).
    pub fn register_client(
        &mut self,
        name: String,
        mqtt_url: &String,
        topics: Vec<String>,
        conn: C,
    ) -> (r: Result<(), RegistryError>)
        requires
            old(self).wf(),
        ensures
            final(self).wf(),
            stays_dead(old(self)@, final(self)@),
            r == register_outcome(old(self)@, name@, mqtt_url@),
            final(self)@ == after_register(old(self)@, name@, mqtt_url@, views_of(topics@), conn),
    {
        if self.is_registered(&name) {
            return Err(RegistryError::AlreadyRegistered);
        }
        if broker_options(&name, mqtt_url).is_none() {
            return Err(RegistryError::ConnectError);
        }
        let url = broker_url(&name, mqtt_url);
        let entry = ClientEntry {
            name,
            url,
            topics: distinct_topics(topics),
            connected: true,
            conn,
            actor: MqttClientActor::new(),
        };
        proof {
            lemma_view_push(self.clients@, entry);
        }
        self.clients.push(entry);
        proof {
            assert(entry.state() == fresh_client::<C, H>(name@, mqtt_url@, views_of(topics@), conn));
        }
        Ok(())
    }

    /// Removes the client `name`, handing back its connection, to be closed,
    /// and its subscribers, each to be told once that the broker is gone.
    /// Nothing happens when `name` is not registered.
    pub fn unregister_client(&mut self, name: &String) -> (r: Option<Removed<C, H>>)
        requires
            old(self).wf(),
        ensures
            final(self).wf(),
            stays_dead(old(self)@, final(self)@),
            final(self)@ == old(self)@.remove(name@),
            r is Some <==> old(self)@.contains_key(name@),
            r matches Some(rm) ==> rm.conn == old(self)@[name@].conn
                && pair_map(rm.subscribers@) == old(self)@[name@].subscribers
                && ids_of(rm.subscribers@).no_duplicates(),
    {
        match self.find(name) {
            None => {
                proof {
                    assert(self@ =~= self@.remove(name@));
                }
                None
            },
            Some(i) => {
                proof {
                    lemma_view_remove(self.clients@, i as int);
                }
                let entry = self.clients.remove(i);
                let ClientEntry { conn, mut actor, .. } = entry;
                let subscribers = actor.shutdown();
                Some(Removed { conn, subscribers })
            },
        }
    }

    /// The relay of the client `name`, if it is registered.
    pub fn get_client_actor_addr(&self, name: &String) -> (r: Option<&MqttClientActor<H>>)
        requires
            self.wf(),
        ensures
            r is Some <==> self@.contains_key(name@),
            r matches Some(a) ==> a@ == self@[name@].subscribers,
    {
        match self.find(name) {
            Some(i) => Some(&self.clients[i].actor),
            None => None,
        }
    }

    /// The connection of the client `name`; `NotFound` when it is not
    /// registered. Every send goes through the handle found here, so nothing
    /// is sent for an unknown client.
    pub fn connection(&self, name: &String) -> (r: Result<&C, RegistryError>)
        requires
            self.wf(),
        ensures
            r is Ok <==> self@.contains_key(name@),
            r matches Ok(c) ==> *c == self@[name@].conn,
            r is Err ==> r == Err::<&C, RegistryError>(RegistryError::NotFound),
    {
        match self.find(name) {
            Some(i) => Ok(&self.clients[i].conn),
            None => Err(RegistryError::NotFound),
        }
    }

    /// The outcome of a publish for the client `name`, given whether the
    /// transport accepted the packet: `NotFound` for an unknown client,
    /// `TransportError` when the send failed.
    pub fn publish(&self, name: &String, sent: bool) -> (r: Result<(), RegistryError>)
        requires
            self.wf(),
        ensures
            !self@.contains_key(name@) ==> r == Err::<(), RegistryError>(RegistryError::NotFound),
            self@.contains_key(name@) && !sent ==> r == Err::<(), RegistryError>(
                RegistryError::TransportError,
            ),
            self@.contains_key(name@) && sent ==> r is Ok,
    {
        if !self.is_registered(name) {
            Err(RegistryError::NotFound)
        } else if !sent {
            Err(RegistryError::TransportError)
        } else {
            Ok(())
        }
    }

    /// Records that the client `name` subscribed to `topic`, given whether
    /// the transport accepted the request. The topic set changes only on
    /// success.
    pub fn subscribe(&mut self, name: &String, topic: String, sent: bool) -> (r: Result<
        (),
        RegistryError,
    >)
        requires
            old(self).wf(),
        ensures
            final(self).wf(),
            stays_dead(old(self)@, final(self)@),
            !old(self)@.contains_key(name@) ==> r == Err::<(), RegistryError>(
                RegistryError::NotFound,
            ),
            old(self)@.contains_key(name@) && !sent ==> r == Err::<(), RegistryError>(
                RegistryError::TransportError,
            ),
            r is Err ==> final(self)@ == old(self)@,
            old(self)@.contains_key(name@) && sent ==> r is Ok,
            r is Ok ==> final(self)@ == old(self)@.insert(
                name@,
                ClientState { topics: old(self)@[name@].topics.insert(topic@), ..old(self)@[name@] },
            ),
    {
        let i = match self.find(name) {
            Some(i) => i,
            None => return Err(RegistryError::NotFound),
        };
        if !sent {
            return Err(RegistryError::TransportError);
        }
        let ghost s = self.clients@;
        add_topic(&mut self.clients[i].topics, topic);
        proof {
            lemma_view_update(s, self.clients@, i as int);
        }
        Ok(())
    }

    /// Records that the client `name` unsubscribed from `topic`, given
    /// whether the transport accepted the request. The topic set changes only
    /// on success.
    pub fn unsubscribe(&mut self, name: &String, topic: &String, sent: bool) -> (r: Result<
        (),
        RegistryError,
    >)
        requires
            old(self).wf(),
        ensures
            final(self).wf(),
            stays_dead(old(self)@, final(self)@),
            !old(self)@.contains_key(name@) ==> r == Err::<(), RegistryError>(
                RegistryError::NotFound,
            ),
            old(self)@.contains_key(name@) && !sent ==> r == Err::<(), RegistryError>(
                RegistryError::TransportError,
            ),
            r is Err ==> final(self)@ == old(self)@,
            old(self)@.contains_key(name@) && sent ==> r is Ok,
            r is Ok ==> final(self)@ == old(self)@.insert(
                name@,
                ClientState { topics: old(self)@[name@].topics.remove(topic@), ..old(self)@[name@] },
            ),
    {
        let i = match self.find(name) {
            Some(i) => i,
            None => return Err(RegistryError::NotFound),
        };
        if !sent {
            return Err(RegistryError::TransportError);
        }
        let ghost s = self.clients@;
        remove_topic(&mut self.clients[i].topics, topic);
        proof {
            lemma_view_update(s, self.clients@, i as int);
        }
        Ok(())
    }

    /// Whether the event loop of the client `name` still runs; false for an
    /// unknown client.
    pub fn connected(&self, name: &String) -> (r: bool)
        requires
            self.wf(),
        ensures
            r == (self@.contains_key(name@) && self@[name@].connected),
    {
        match self.find(name) {
            Some(i) => self.clients[i].connected,
            None => false,
        }
    }

    /// Attaches a subscriber to the relay of the client `name`; a handle
    /// already attached under `ws_id` is replaced. `NotFound`, changing
    /// nothing, for an unknown client.
    pub fn attach_subscriber(&mut self, name: &String, ws_id: i32, handle: H) -> (r: Result<
        (),
        RegistryError,
    >)
        requires
            old(self).wf(),
        ensures
            final(self).wf(),
            stays_dead(old(self)@, final(self)@),
            r is Ok <==> old(self)@.contains_key(name@),
            r is Err ==> r == Err::<(), RegistryError>(RegistryError::NotFound) && final(self)@
                == old(self)@,
            r is Ok ==> final(self)@ == old(self)@.insert(
                name@,
                ClientState {
                    subscribers: old(self)@[name@].subscribers.insert(ws_id, handle),
                    ..old(self)@[name@]
                },
            ),
    {
        let i = match self.find(name) {
            Some(i) => i,
            None => return Err(RegistryError::NotFound),
        };
        let ghost s = self.clients@;
        self.clients[i].actor.attach(ws_id, handle);
        proof {
            lemma_view_update(s, self.clients@, i as int);
        }
        Ok(())
    }

    /// Detaches the subscriber `ws_id` from the client `name`; nothing happens
    /// when either is unknown.
    pub fn detach_subscriber(&mut self, name: &String, ws_id: i32)
        requires
            old(self).wf(),
        ensures
            final(self).wf(),
            stays_dead(old(self)@, final(self)@),
            !old(self)@.contains_key(name@) ==> final(self)@ == old(self)@,
            old(self)@.contains_key(name@) ==> final(self)@ == old(self)@.insert(
                name@,
                ClientState {
                    subscribers: old(self)@[name@].subscribers.remove(ws_id),
                    ..old(self)@[name@]
                },
            ),
    {
        if let Some(i) = self.find(name) {
            let ghost s = self.clients@;
            self.clients[i].actor.detach(ws_id);
            proof {
                lemma_view_update(s, self.clients@, i as int);
            }
        }
    }

    /// Detaches the subscribers of the client `name` whose handles reported
    /// themselves closed during a delivery; the others stay attached.
    pub fn prune_subscribers(&mut self, name: &String, closed: &Vec<i32>)
        requires
            old(self).wf(),
        ensures
            final(self).wf(),
            stays_dead(old(self)@, final(self)@),
            !old(self)@.contains_key(name@) ==> final(self)@ == old(self)@,
            old(self)@.contains_key(name@) ==> final(self)@ == old(self)@.insert(
                name@,
                ClientState {
                    subscribers: old(self)@[name@].subscribers.remove_keys(closed@.to_set()),
                    ..old(self)@[name@]
                },
            ),
    {
        if let Some(i) = self.find(name) {
            let ghost s = self.clients@;
            self.clients[i].actor.prune(closed);
            proof {
                lemma_view_update(s, self.clients@, i as int);
            }
        }
    }

    /// Handles one event of the client `name`'s event loop. A publish is to be
    /// delivered to every subscriber attached now.
    /// A remote disconnect or an event-loop failure marks the client dead and
    /// detaches all its subscribers, to be told of the closure. `None` tells
    /// the driver that the client is gone and it should stop.
    pub fn handle_event(&mut self, name: &String, event: BrokerEvent) -> (r: Option<RelayOutput<H>>)
        requires
            old(self).wf(),
        ensures
            final(self).wf(),
            stays_dead(old(self)@, final(self)@),
            r is None <==> !old(self)@.contains_key(name@),
            r is None ==> final(self)@ == old(self)@,
            old(self)@.contains_key(name@) ==> {
                let st = old(self)@[name@];
                match event {
                    BrokerEvent::Publish(p) => {
                        &&& final(self)@ == old(self)@
                        &&& r matches Some(RelayOutput::Deliver(ev, ids)) && ev == p
                            && ids@.no_duplicates() && ids@.to_set() == st.subscribers.dom()
                    },
                    BrokerEvent::Disconnect | BrokerEvent::Failed => {
                        &&& final(self)@ == old(self)@.insert(
                            name@,
                            ClientState { connected: false, subscribers: Map::empty(), ..st },
                        )
                        &&& r matches Some(RelayOutput::Closed(subs)) && pair_map(subs@)
                            == st.subscribers && ids_of(subs@).no_duplicates()
                    },
                    _ => final(self)@ == old(self)@ && r matches Some(RelayOutput::Idle),
                }
            },
    {
        let i = match self.find(name) {
            Some(i) => i,
            None => return None,
        };
        let ghost s = self.clients@;
        match classify(event) {
            DriverStep::Forward(p) => {
                let out = self.clients[i].actor.handle(MqttMessage::Message(p));
                proof {
                    lemma_view_update(s, self.clients@, i as int);
                    assert(self@ =~= old(self)@);
                }
                Some(out)
            },
            DriverStep::Continue => Some(RelayOutput::Idle),
            DriverStep::Stop => {
                self.clients[i].connected = false;
                let out = self.clients[i].actor.handle(MqttMessage::Disconnect);
                proof {
                    lemma_view_update(s, self.clients@, i as int);
                }
                Some(out)
            },
        }
    }

    /// The topics the client `name` is subscribed to, each once; `None` for
    /// an unknown client.
    pub fn topics(&self, name: &String) -> (r: Option<Vec<String>>)
        requires
            self.wf(),
        ensures
            r is Some <==> self@.contains_key(name@),
            r matches Some(v) ==> views_of(v@).no_duplicates() && views_of(v@).to_set()
                == self@[name@].topics,
    {
        let i = match self.find(name) {
            Some(i) => i,
            None => return None,
        };
        let topics = &self.clients[i].topics;
        let mut out: Vec<String> = Vec::new();
        let mut j: usize = 0;
        while j < topics.len()
            invariant
                j <= topics.len(),
                out@.len() == j,
                views_of(out@) == views_of(topics@).take(j as int),
            decreases topics.len() - j,
        {
            let t: String = topics[j].clone();
            let ghost before = out@;
            out.push(t);
            proof {
                assert(out@ == before.push(t));
                assert(t@ == topics@[j as int]@);
                assert(views_of(out@) =~= views_of(topics@).take(j + 1));
            }
            j = j + 1;
        }
        proof {
            assert(views_of(topics@).take(topics.len() as int) =~= views_of(topics@));
        }
        Some(out)
    }
}

} // verus!
