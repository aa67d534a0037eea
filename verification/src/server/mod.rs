//! The proxy server: its configuration, the list of backend servers,
//! permissions, and the protocol data it handles.
use vstd::prelude::*;

use crate::server::core_commands::{eq_ignore_ascii_case, equals_ignore_ascii_case};
use crate::util::Uuid;

pub mod brigadier;
pub mod command;
pub mod commands;
pub mod client_writes;
pub mod compression;
pub mod core_commands;
pub mod encryption;
pub mod login;
pub mod nbt;
pub mod packet_handler;
pub mod packet_ids;
pub mod packets;
pub mod status;
pub mod switch;
pub mod throttle;

verus! {

/// The proxy's name, as the status response shows it.
pub const NAME: &'static str = "Crust";

/// A backend server as the configuration lists it.
#[derive(Debug)]
pub struct ServerConfig {
    pub label: String,
    pub address: String,
}

/// The proxy's configuration.  `groups` maps a group to its permissions and
/// `users` a player (by name or UUID) to their groups; each key occurs
/// once.  `favicon` is the path of the server icon.
#[derive(Debug)]
pub struct ProxyConfig {
    pub bind_address: String,
    pub worker_threads: usize,
    pub compression_threshold: i32,
    pub motd: String,
    pub favicon: Option<String>,
    pub connection_throttle_time: i32,
    pub connection_throttle_limit: u8,
    pub max_players: i32,
    pub online_mode: bool,
    pub offline_mode_encryption: bool,
    pub prevent_proxy_connections: bool,
    pub servers: Vec<ServerConfig>,
    pub spigot_forward: bool,
    pub priorities: Vec<String>,
    pub max_packet_per_second: i32,
    pub restrict_tab_completes: bool,
    pub proxy_protocol: bool,
    pub groups: Vec<(String, Vec<String>)>,
    pub users: Vec<(String, Vec<String>)>,
}

/// The characters of each string, in order.
pub open spec fn texts(v: Seq<String>) -> Seq<Seq<char>> {
    v.map_values(|t: String| t@)
}

/// A table of string lists as spec values.
pub open spec fn table_view(v: Seq<(String, Vec<String>)>) -> Seq<(Seq<char>, Seq<Seq<char>>)> {
    v.map_values(|e: (String, Vec<String>)| (e.0@, texts(e.1@)))
}

fn owned(s: &str) -> (r: String)
    ensures
        r@ == s@,
{
    s.to_owned()
}

impl Default for ProxyConfig {
    /// The configuration the proxy writes when it finds none: one lobby
    /// server on the local machine, an `admin` and a `default` group, and
    /// one admin.
    fn default() -> (r: ProxyConfig)
        ensures
            r.bind_address@ == "0.0.0.0:25577"@,
            r.worker_threads == 0,
            r.compression_threshold == 256,
            r.motd@ == "A Rust Minecraft Proxy"@,
            r.favicon is None,
            r.connection_throttle_time == 5000,
            r.connection_throttle_limit == 20,
            r.max_players == 100,
            !r.online_mode,
            !r.offline_mode_encryption,
            !r.prevent_proxy_connections,
            r.servers@.len() == 1,
            r.servers@[0].label@ == "lobby"@,
            r.servers@[0].address@ == "127.0.0.1:25565"@,
            r.spigot_forward,
            texts(r.priorities@) == seq!["lobby"@],
            r.max_packet_per_second == 2000,
            r.restrict_tab_completes,
            !r.proxy_protocol,
            table_view(r.groups@) == seq![
                ("admin"@, seq!["crust.command.end"@, "crust.command.gkick"@, "crust.command.server"@]),
                ("default"@, seq!["crust.command.server"@]),
            ],
            table_view(r.users@) == seq![("Outfluencer"@, seq!["admin"@])],
    {
        let servers = vec![ServerConfig { label: owned("lobby"), address: owned("127.0.0.1:25565") }];
        let priorities = vec![owned("lobby")];
        let admin_perms = vec![owned("crust.command.end"), owned("crust.command.gkick"), owned("crust.command.server")];
        let default_perms = vec![owned("crust.command.server")];
        let groups = vec![(owned("admin"), admin_perms), (owned("default"), default_perms)];
        let users = vec![(owned("Outfluencer"), vec![owned("admin")])];
        let r = ProxyConfig {
            bind_address: owned("0.0.0.0:25577"),
            worker_threads: 0,
            compression_threshold: 256,
            motd: owned("A Rust Minecraft Proxy"),
            favicon: None,
            connection_throttle_time: 5000,
            connection_throttle_limit: 20,
            max_players: 100,
            online_mode: false,
            offline_mode_encryption: false,
            prevent_proxy_connections: false,
            servers,
            spigot_forward: true,
            priorities,
            max_packet_per_second: 2000,
            restrict_tab_completes: true,
            proxy_protocol: false,
            groups,
            users,
        };
        proof {
            assert(texts(r.priorities@) =~= seq!["lobby"@]);
            assert(texts(r.groups@[0].1@) =~= seq!["crust.command.end"@, "crust.command.gkick"@, "crust.command.server"@]);
            assert(texts(r.groups@[1].1@) =~= seq!["crust.command.server"@]);
            assert(texts(r.users@[0].1@) =~= seq!["admin"@]);
            assert(table_view(r.groups@) =~= seq![
                ("admin"@, seq!["crust.command.end"@, "crust.command.gkick"@, "crust.command.server"@]),
                ("default"@, seq!["crust.command.server"@]),
            ]);
            assert(table_view(r.users@) =~= seq![("Outfluencer"@, seq!["admin"@])]);
        }
        r
    }
}

// ---------------------------------------------------------------------------
// Permissions
// ---------------------------------------------------------------------------

/// A table of string lists as spec values.
pub type TableView = Seq<(Seq<char>, Seq<Seq<char>>)>;

/// The list a table holds for `key`: the first entry with that key.
pub open spec fn table_get(t: TableView, key: Seq<char>) -> Option<Seq<Seq<char>>>
    decreases t.len(),
{
    if t.len() == 0 {
        None
    } else if t[0].0 == key {
        Some(t[0].1)
    } else {
        table_get(t.drop_first(), key)
    }
}

/// The groups of a player: those listed for the name, else those listed
/// for the UUID.
pub open spec fn user_groups(users: TableView, name: Seq<char>, uuid: Seq<char>) -> Option<Seq<Seq<char>>> {
    match table_get(users, name) {
        Some(g) => Some(g),
        None => table_get(users, uuid),
    }
}

/// Whether a configured group grants a permission.
pub open spec fn group_grants(groups: TableView, group: Seq<char>, perm: Seq<char>) -> bool {
    match table_get(groups, group) {
        Some(ps) => ps.contains(perm),
        None => false,
    }
}

/// Whether a player has a permission: one of the player's groups grants
/// it, or the `default` group does.
pub open spec fn permitted(users: TableView, groups: TableView, name: Seq<char>, uuid: Seq<char>, perm: Seq<char>) -> bool {
    (match user_groups(users, name, uuid) {
        Some(gs) => exists|i: int| 0 <= i < gs.len() && group_grants(groups, #[trigger] gs[i], perm),
        None => false,
    }) || group_grants(groups, "default"@, perm)
}

/// Looks up the list a table holds for `key`.
fn table_lookup<'a>(t: &'a Vec<(String, Vec<String>)>, key: &str) -> (r: Option<&'a Vec<String>>)
    ensures
        match table_get(table_view(t@), key@) {
            Some(l) => r matches Some(v) && texts(v@) == l,
            None => r is None,
        },
{
    let ghost tv = table_view(t@);
    let mut i: usize = 0;
    proof { assert(tv.skip(0) =~= tv); }
    while i < t.len()
        invariant
            tv == table_view(t@),
            i <= t@.len(),
            table_get(tv, key@) == table_get(tv.skip(i as int), key@),
        decreases t.len() - i,
    {
        let k = owned(key);
        proof { assert(tv.skip(i as int)[0] == tv[i as int]); }
        if t[i].0 == k {
            return Some(&t[i].1);
        }
        proof { assert(tv.skip(i as int).drop_first() =~= tv.skip(i + 1)); }
        i = i + 1;
    }
    proof { assert(tv.skip(i as int).len() == 0); }
    None
}

/// Whether a list of strings holds `s`.
pub(crate) fn list_contains(v: &Vec<String>, s: &str) -> (r: bool)
    ensures
        r == texts(v@).contains(s@),
{
    let k = owned(s);
    let mut i: usize = 0;
    while i < v.len()
        invariant
            k@ == s@,
            i <= v@.len(),
            forall|j: int| 0 <= j < i ==> texts(v@)[j] != s@,
        decreases v.len() - i,
    {
        if v[i] == k {
            proof { assert(texts(v@)[i as int] == s@); }
            return true;
        }
        i = i + 1;
    }
    false
}

/// Whether the player with this name and UUID has a permission under the
/// configuration.
pub fn has_permission(config: &ProxyConfig, name: &str, uuid: &crate::util::Uuid, perm: &str) -> (r: bool)
    ensures
        r == permitted(
            table_view(config.users@),
            table_view(config.groups@),
            name@,
            crate::util::uuid_text(uuid.bytes@),
            perm@,
        ),
{
    let ghost groups_view = table_view(config.groups@);
    let ghost ug = user_groups(table_view(config.users@), name@, crate::util::uuid_text(uuid.bytes@));
    let mut groups = table_lookup(&config.users, name);
    if groups.is_none() {
        let id = uuid.to_hyphenated_string();
        groups = table_lookup(&config.users, id.as_str());
    }
    proof {
        match groups {
            Some(g) => assert(ug == Some(texts(g@))),
            None => assert(ug is None),
        }
    }
    match groups {
        Some(gs) => {
            let mut i: usize = 0;
            while i < gs.len()
                invariant
                    groups_view == table_view(config.groups@),
                    ug == Some(texts(gs@)),
                    ug == user_groups(table_view(config.users@), name@, crate::util::uuid_text(uuid.bytes@)),
                    i <= gs@.len(),
                    forall|j: int| 0 <= j < i ==> !group_grants(groups_view, #[trigger] texts(gs@)[j], perm@),
                decreases gs.len() - i,
            {
                match table_lookup(&config.groups, gs[i].as_str()) {
                    Some(perms) => {
                        if list_contains(perms, perm) {
                            proof {
                                let gsv = texts(gs@);
                                assert(group_grants(groups_view, gsv[i as int], perm@));
                                assert(ug.unwrap()[i as int] == gsv[i as int]);
                            }
                            return true;
                        }
                    },
                    None => {},
                }
                i = i + 1;
            }
        },
        None => {},
    }
    match table_lookup(&config.groups, "default") {
        Some(perms) => list_contains(perms, perm),
        None => false,
    }
}

// ---------------------------------------------------------------------------
// The list of backend servers
// ---------------------------------------------------------------------------

/// A backend server the proxy can send players to.
#[derive(Debug)]
pub struct ServerInfo {
    pub label: String,
    pub address: String,
}

/// A server as spec values: label and address.
pub type ServerView = (Seq<char>, Seq<char>);

impl ServerInfo {
    pub open spec fn view(&self) -> ServerView {
        (self.label@, self.address@)
    }
}

/// The views of a list of servers.
pub open spec fn server_views(v: Seq<ServerInfo>) -> Seq<ServerView> {
    v.map_values(|s: ServerInfo| s.view())
}

/// Whether a list of servers has one with this label.
pub open spec fn has_label(v: Seq<ServerView>, label: Seq<char>) -> bool {
    exists|i: int| 0 <= i < v.len() && (#[trigger] v[i]).0 == label
}

/// Whether every label occurs once.
pub open spec fn labels_unique(v: Seq<ServerView>) -> bool {
    forall|i: int, j: int| 0 <= i < v.len() && 0 <= j < v.len() && (#[trigger] v[i]).0 == (#[trigger] v[j]).0 ==> i
        == j
}

/// The position of the server with this label.
pub open spec fn label_index(v: Seq<ServerView>, label: Seq<char>) -> int {
    choose|i: int| 0 <= i < v.len() && (#[trigger] v[i]).0 == label
}

/// The server with this label, if there is one.
pub open spec fn server_lookup(v: Seq<ServerView>, label: Seq<char>) -> Option<ServerView> {
    if has_label(v, label) {
        Some(v[label_index(v, label)])
    } else {
        None
    }
}

/// The list after adding a server: it replaces the one with its label, or
/// comes last.
pub open spec fn server_added(v: Seq<ServerView>, s: ServerView) -> Seq<ServerView> {
    if has_label(v, s.0) {
        v.update(label_index(v, s.0), s)
    } else {
        v.push(s)
    }
}

/// The list after removing the server with this label, if there is one.
pub open spec fn server_removed(v: Seq<ServerView>, label: Seq<char>) -> Seq<ServerView> {
    if has_label(v, label) {
        v.remove(label_index(v, label))
    } else {
        v
    }
}

/// The backend servers by label, and the labels to send players to first.
pub struct ServerList {
    priorities: Vec<String>,
    servers_by_name: Vec<ServerInfo>,
}

impl ServerList {
    #[verifier::type_invariant]
    spec fn inv(&self) -> bool {
        labels_unique(server_views(self.servers_by_name@))
    }

    /// The servers, each label once.
    pub closed spec fn view(&self) -> Seq<ServerView> {
        server_views(self.servers_by_name@)
    }

    /// The labels to send players to first.
    pub closed spec fn priorities_view(&self) -> Seq<Seq<char>> {
        texts(self.priorities@)
    }

    /// An empty list with the given priorities.
    pub fn new(priorities: Vec<String>) -> (r: ServerList)
        ensures
            r@ == Seq::<ServerView>::empty(),
            r.priorities_view() == texts(priorities@),
    {
        let r = ServerList { priorities, servers_by_name: Vec::new() };
        proof { assert(server_views(r.servers_by_name@) =~= Seq::<ServerView>::empty()); }
        r
    }

    /// The list the configuration describes: its priorities, and each of its
    /// servers added in turn.
    pub fn from_config(config: &ProxyConfig) -> (r: ServerList)
        ensures
            r.priorities_view() == texts(config.priorities@),
            r@ == config_servers(config.servers@, config.servers@.len() as nat),
    {
        let mut priorities: Vec<String> = Vec::new();
        let mut i: usize = 0;
        while i < config.priorities.len()
            invariant
                i <= config.priorities@.len(),
                texts(priorities@) == texts(config.priorities@).take(i as int),
            decreases config.priorities.len() - i,
        {
            let ghost before = texts(priorities@);
            priorities.push(config.priorities[i].clone());
            proof {
                assert(texts(priorities@) =~= before.push(config.priorities@[i as int]@));
                assert(texts(config.priorities@).take((i + 1) as int) =~= texts(config.priorities@).take(i as int).push(
                    config.priorities@[i as int]@,
                ));
            }
            i = i + 1;
        }
        proof { assert(texts(config.priorities@).take(i as int) =~= texts(config.priorities@)); }
        let mut list = ServerList::new(priorities);
        let mut j: usize = 0;
        while j < config.servers.len()
            invariant
                j <= config.servers@.len(),
                list.priorities_view() == texts(config.priorities@),
                list@ == config_servers(config.servers@, j as nat),
            decreases config.servers.len() - j,
        {
            let entry = &config.servers[j];
            list.add_server(ServerInfo { label: entry.label.clone(), address: entry.address.clone() });
            j = j + 1;
        }
        list
    }

    /// The labels to send players to first.
    pub fn get_priorities(&self) -> (r: &[String])
        ensures
            texts(r@) == self.priorities_view(),
    {
        self.priorities.as_slice()
    }

    /// All servers.
    pub fn all_servers(&self) -> (r: &[ServerInfo])
        ensures
            server_views(r@) == self@,
            labels_unique(self@),
    {
        proof { use_type_invariant(self); }
        self.servers_by_name.as_slice()
    }

    /// All servers.
    pub fn list_servers(&self) -> (r: &[ServerInfo])
        ensures
            server_views(r@) == self@,
            labels_unique(self@),
    {
        proof { use_type_invariant(self); }
        self.servers_by_name.as_slice()
    }

    /// The server with this label.
    pub fn get_server_by_name(&self, label: &str) -> (r: Option<&ServerInfo>)
        ensures
            match server_lookup(self@, label@) {
                Some(v) => r matches Some(s) && s.view() == v,
                None => r is None,
            },
    {
        proof { use_type_invariant(self); }
        match self.find(label) {
            Some(i) => Some(&self.servers_by_name[i]),
            None => None,
        }
    }

    /// The next server to try, in order of priority: the first priority at
    /// position `from` or later that names a server of the list, with its
    /// position. Labels that name no server are skipped.
    pub fn next_fallback(&self, from: usize) -> (r: Option<(usize, &ServerInfo)>)
        ensures
            match r {
                Some((i, s)) => {
                    &&& from <= i < self.priorities_view().len()
                    &&& server_lookup(self@, self.priorities_view()[i as int]) == Some(s.view())
                    &&& forall|j: int|
                        from <= j < i ==> !has_label(self@, #[trigger] self.priorities_view()[j])
                },
                None => forall|j: int|
                    from <= j < self.priorities_view().len() ==> !has_label(
                        self@,
                        #[trigger] self.priorities_view()[j],
                    ),
            },
    {
        proof { use_type_invariant(self); }
        let mut i: usize = from;
        while i < self.priorities.len()
            invariant
                from <= i,
                labels_unique(self@),
                self.priorities_view() == texts(self.priorities@),
                forall|j: int|
                    from <= j < i ==> !has_label(self@, #[trigger] self.priorities_view()[j]),
            decreases self.priorities.len() - i,
        {
            match self.find(self.priorities[i].as_str()) {
                Some(k) => {
                    proof {
                        assert(self.priorities_view()[i as int] == self.priorities@[i as int]@);
                        assert(self@[k as int] == self.servers_by_name@[k as int].view());
                    }
                    return Some((i, &self.servers_by_name[k]));
                },
                None => {},
            }
            i = i + 1;
        }
        None
    }

    fn find(&self, label: &str) -> (r: Option<usize>)
        requires
            labels_unique(self@),
        ensures
            match r {
                Some(i) => has_label(self@, label@) && i == label_index(self@, label@) && i < self@.len(),
                None => !has_label(self@, label@),
            },
    {
        let k = owned(label);
        let ghost v = self@;
        let mut i: usize = 0;
        while i < self.servers_by_name.len()
            invariant
                v == server_views(self.servers_by_name@),
                labels_unique(v),
                k@ == label@,
                i <= v.len(),
                forall|j: int| 0 <= j < i ==> (#[trigger] v[j]).0 != label@,
            decreases self.servers_by_name.len() - i,
        {
            if self.servers_by_name[i].label == k {
                proof {
                    assert(v[i as int].0 == label@);
                    assert(has_label(v, label@));
                    let c = label_index(v, label@);
                    assert(v[c].0 == v[i as int].0);
                }
                return Some(i);
            }
            i = i + 1;
        }
        None
    }

    /// Adds a server, in place of the one with the same label if there is
    /// one.
    pub fn add_server(&mut self, server: ServerInfo)
        ensures
            final(self)@ == server_added(old(self)@, server.view()),
            final(self).priorities_view() == old(self).priorities_view(),
    {
        proof { use_type_invariant(&*self); }
        let ghost v = self@;
        let ghost sv = server.view();
        match self.find(server.label.as_str()) {
            Some(i) => {
                let mut list = Vec::new();
                std::mem::swap(&mut list, &mut self.servers_by_name);
                list.set(i, server);
                proof {
                    assert(server_views(list@) =~= v.update(i as int, sv));
                    lemma_update_unique(v, i as int, sv);
                }
                self.servers_by_name = list;
            },
            None => {
                let mut list = Vec::new();
                std::mem::swap(&mut list, &mut self.servers_by_name);
                list.push(server);
                proof {
                    assert(server_views(list@) =~= v.push(sv));
                    lemma_push_unique(v, sv);
                }
                self.servers_by_name = list;
            },
        }
    }

    /// Removes the server with this label; whether there was one.
    pub fn remove_server_by_name(&mut self, label: &str) -> (r: bool)
        ensures
            r == has_label(old(self)@, label@),
            final(self)@ == server_removed(old(self)@, label@),
            final(self).priorities_view() == old(self).priorities_view(),
    {
        proof { use_type_invariant(&*self); }
        let ghost v = self@;
        match self.find(label) {
            Some(i) => {
                let mut list = Vec::new();
                std::mem::swap(&mut list, &mut self.servers_by_name);
                let _ = list.remove(i);
                proof {
                    assert(server_views(list@) =~= v.remove(i as int));
                    lemma_remove_unique(v, i as int);
                }
                self.servers_by_name = list;
                true
            },
            None => false,
        }
    }
}

/// The servers of a configuration's first `k` entries, each added in turn.
pub open spec fn config_servers(entries: Seq<ServerConfig>, k: nat) -> Seq<ServerView>
    decreases k,
{
    if k == 0 || k > entries.len() {
        Seq::empty()
    } else {
        server_added(config_servers(entries, (k - 1) as nat), (entries[k - 1].label@, entries[k - 1].address@))
    }
}

proof fn lemma_update_unique(v: Seq<ServerView>, i: int, s: ServerView)
    requires
        labels_unique(v),
        0 <= i < v.len(),
        v[i].0 == s.0,
    ensures
        labels_unique(v.update(i, s)),
{
    let w = v.update(i, s);
    assert forall|a: int, b: int| 0 <= a < w.len() && 0 <= b < w.len() && (#[trigger] w[a]).0 == (#[trigger] w[b]).0
        implies a == b by {
        assert(w[a].0 == v[a].0);
        assert(w[b].0 == v[b].0);
    }
}

proof fn lemma_push_unique(v: Seq<ServerView>, s: ServerView)
    requires
        labels_unique(v),
        !has_label(v, s.0),
    ensures
        labels_unique(v.push(s)),
{
    let w = v.push(s);
    assert forall|a: int, b: int| 0 <= a < w.len() && 0 <= b < w.len() && (#[trigger] w[a]).0 == (#[trigger] w[b]).0
        implies a == b by {
        if a < v.len() && b < v.len() {
            assert(w[a] == v[a] && w[b] == v[b]);
        } else if a < v.len() {
            assert(w[a] == v[a]);
        } else if b < v.len() {
            assert(w[b] == v[b]);
        }
    }
}

proof fn lemma_remove_unique(v: Seq<ServerView>, i: int)
    requires
        labels_unique(v),
        0 <= i < v.len(),
    ensures
        labels_unique(v.remove(i)),
{
    let w = v.remove(i);
    assert forall|a: int, b: int| 0 <= a < w.len() && 0 <= b < w.len() && (#[trigger] w[a]).0 == (#[trigger] w[b]).0
        implies a == b by {
        let a2 = if a < i { a } else { a + 1 };
        let b2 = if b < i { b } else { b + 1 };
        assert(w[a] == v[a2]);
        assert(w[b] == v[b2]);
    }
}

proof fn lemma_lookup_at(v: Seq<ServerView>, i: int)
    requires
        labels_unique(v),
        0 <= i < v.len(),
    ensures
        server_lookup(v, v[i].0) == Some(v[i]),
{
    assert(has_label(v, v[i].0));
    let c = label_index(v, v[i].0);
    assert(v[c].0 == v[i].0);
}

/// Law: a lookup finds exactly the servers of a list whose labels occur
/// once: each server is what a lookup of its label gives, and whatever a
/// lookup gives is a server of the list with that label.
pub proof fn law_server_list_lookup(v: Seq<ServerView>, i: int, label: Seq<char>)
    requires
        labels_unique(v),
        0 <= i < v.len(),
    ensures
        server_lookup(v, v[i].0) == Some(v[i]),
        server_lookup(v, label) matches Some(x) ==> x.0 == label && exists|j: int|
            0 <= j < v.len() && #[trigger] v[j] == x,
{
    lemma_lookup_at(v, i);
    if has_label(v, label) {
        let j = label_index(v, label);
        assert(v[j] == v[j]);
    }
}

/// Law: the server list behaves as a map from labels.  After adding a
/// server, looking up its label gives it, and every other label gives what
/// it gave before; each label still occurs once.
pub proof fn law_server_list_add(v: Seq<ServerView>, s: ServerView, other: Seq<char>)
    requires
        labels_unique(v),
        other != s.0,
    ensures
        labels_unique(server_added(v, s)),
        server_lookup(server_added(v, s), s.0) == Some(s),
        server_lookup(server_added(v, s), other) == server_lookup(v, other),
{
    let w = server_added(v, s);
    if has_label(v, s.0) {
        let i = label_index(v, s.0);
        lemma_update_unique(v, i, s);
        assert(w[i] == s);
        lemma_lookup_at(w, i);
        if has_label(v, other) {
            let j = label_index(v, other);
            assert(j != i);
            assert(w[j] == v[j]);
            lemma_lookup_at(w, j);
            lemma_lookup_at(v, j);
        } else {
            assert forall|k: int| 0 <= k < w.len() implies (#[trigger] w[k]).0 != other by {
                if k != i {
                    assert(w[k] == v[k]);
                }
            }
        }
    } else {
        lemma_push_unique(v, s);
        let i = v.len() as int;
        assert(w[i] == s);
        lemma_lookup_at(w, i);
        if has_label(v, other) {
            let j = label_index(v, other);
            assert(w[j] == v[j]);
            lemma_lookup_at(w, j);
            lemma_lookup_at(v, j);
        } else {
            assert forall|k: int| 0 <= k < w.len() implies (#[trigger] w[k]).0 != other by {
                if k < v.len() {
                    assert(w[k] == v[k]);
                }
            }
        }
    }
}

/// Law: after removing a label, looking it up gives nothing, and every
/// other label gives what it gave before; each label still occurs once.
#[verifier::rlimit(80)]
pub proof fn law_server_list_remove(v: Seq<ServerView>, label: Seq<char>, other: Seq<char>)
    requires
        labels_unique(v),
        other != label,
    ensures
        labels_unique(server_removed(v, label)),
        server_lookup(server_removed(v, label), label) is None,
        server_lookup(server_removed(v, label), other) == server_lookup(v, other),
{
    let w = server_removed(v, label);
    if has_label(v, label) {
        let i = label_index(v, label);
        lemma_remove_unique(v, i);
        assert forall|k: int| 0 <= k < w.len() implies (#[trigger] w[k]).0 != label by {
            let k2 = if k < i { k } else { k + 1 };
            assert(w[k] == v[k2]);
        }
        if has_label(v, other) {
            let j = label_index(v, other);
            assert(j != i);
            let j2 = if j < i { j } else { j - 1 };
            assert(w[j2] == v[j]);
            lemma_lookup_at(w, j2);
            lemma_lookup_at(v, j);
        } else {
            assert forall|k: int| 0 <= k < w.len() implies (#[trigger] w[k]).0 != other by {
                let k2 = if k < i { k } else { k + 1 };
                assert(w[k] == v[k2]);
            }
        }
    }
}

// ---------------------------------------------------------------------------
// The players on the proxy
// ---------------------------------------------------------------------------

/// Whether a player with name `name` (in any case) or with UUID `uuid` is
/// among `players` (each given by name and UUID bytes).
pub open spec fn spec_already_connected(players: Seq<(String, Uuid)>, name: Seq<char>, uuid: Seq<u8>) -> bool {
    exists|i: int|
        0 <= i < players.len() && (eq_ignore_ascii_case((#[trigger] players[i]).0@, name) || players[i].1.bytes@
            == uuid)
}

fn same_uuid(a: &Uuid, b: &Uuid) -> (r: bool)
    ensures
        r == (a.bytes@ == b.bytes@),
{
    let mut i: usize = 0;
    while i < 16
        invariant
            i <= 16,
            a.bytes@.len() == 16,
            b.bytes@.len() == 16,
            forall|j: int| 0 <= j < i ==> a.bytes@[j] == b.bytes@[j],
        decreases 16 - i,
    {
        if a.bytes[i] != b.bytes[i] {
            return false;
        }
        i = i + 1;
    }
    proof { assert(a.bytes@ =~= b.bytes@); }
    true
}

/// Whether a player logging in with `name` and `uuid` is already on the
/// proxy, by name in any case or by UUID; such a login is refused.
pub fn already_connected(players: &Vec<(String, Uuid)>, name: &str, uuid: &Uuid) -> (r: bool)
    ensures
        r == spec_already_connected(players@, name@, uuid.bytes@),
{
    let mut i: usize = 0;
    while i < players.len()
        invariant
            i <= players@.len(),
            forall|j: int|
                0 <= j < i ==> !(eq_ignore_ascii_case((#[trigger] players@[j]).0@, name@) || players@[j].1.bytes@
                    == uuid.bytes@),
        decreases players.len() - i,
    {
        if equals_ignore_ascii_case(players[i].0.as_str(), name) || same_uuid(&players[i].1, uuid) {
            proof { assert(players@[i as int] == players@[i as int]); }
            return true;
        }
        i = i + 1;
    }
    false
}

} // verus!
