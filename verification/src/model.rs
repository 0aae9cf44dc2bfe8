//! The data of the gateway: catalog nodes, runtime status, routing settings, logs.
use vstd::prelude::*;

use crate::text::{chars_of, owned};

verus! {

/// What is known of a node's reachability.
#[derive(Clone, Copy, Debug, PartialEq, Eq, Structural)]
pub enum NodeStatus {
    New,
    Available,
    Failed,
    Active,
}

/// One VPNGate relay of the catalog.
#[derive(Debug)]
pub struct Node {
    pub id: String,
    pub country: String,
    pub country_short: String,
    pub host_name: String,
    pub ip: String,
    pub remote_host: String,
    pub remote_port: u16,
    pub proto: String,
    pub score: i64,
    pub ping: i64,
    pub speed: i64,
    pub sessions: i64,
    pub config_text: String,
    pub latency_ms: Option<u128>,
    pub status: NodeStatus,
    pub last_error: Option<String>,
}

/// A node as a mathematical value.
pub struct NodeView {
    pub id: Seq<char>,
    pub country: Seq<char>,
    pub country_short: Seq<char>,
    pub host_name: Seq<char>,
    pub ip: Seq<char>,
    pub remote_host: Seq<char>,
    pub remote_port: u16,
    pub proto: Seq<char>,
    pub score: i64,
    pub ping: i64,
    pub speed: i64,
    pub sessions: i64,
    pub config_text: Seq<char>,
    pub latency_ms: Option<u128>,
    pub status: NodeStatus,
    pub last_error: Option<Seq<char>>,
}

pub open spec fn opt_view(o: Option<String>) -> Option<Seq<char>> {
    match o {
        Some(s) => Some(s@),
        None => None,
    }
}

impl View for Node {
    type V = NodeView;

    open spec fn view(&self) -> NodeView {
        NodeView {
            id: self.id@,
            country: self.country@,
            country_short: self.country_short@,
            host_name: self.host_name@,
            ip: self.ip@,
            remote_host: self.remote_host@,
            remote_port: self.remote_port,
            proto: self.proto@,
            score: self.score,
            ping: self.ping,
            speed: self.speed,
            sessions: self.sessions,
            config_text: self.config_text@,
            latency_ms: self.latency_ms,
            status: self.status,
            last_error: opt_view(self.last_error),
        }
    }
}

/// The nodes as values.
pub open spec fn nodes_view(nodes: Seq<Node>) -> Seq<NodeView> {
    nodes.map_values(|n: Node| n@)
}

/// What the gateway is doing right now.
#[derive(Debug)]
pub struct RuntimeStatus {
    pub active_node_id: Option<String>,
    pub connecting: bool,
    pub relay_addr: String,
    pub control_addr: String,
    pub last_message: String,
    pub last_refresh_at: Option<i64>,
    pub node_count: usize,
    pub auth_enabled: bool,
}

impl RuntimeStatus {
    /// The parts of the status that the connection lifecycle leaves alone: addresses,
    /// whether auth is on, and what the last refresh found.
    pub open spec fn same_setup(&self, other: &RuntimeStatus) -> bool {
        &&& self.relay_addr == other.relay_addr
        &&& self.control_addr == other.control_addr
        &&& self.auth_enabled == other.auth_enabled
        &&& self.node_count == other.node_count
        &&& self.last_refresh_at == other.last_refresh_at
    }

    /// The status of a gateway that is starting: nothing active, no refresh yet.
    pub fn new(relay_addr: String, control_addr: String, auth_enabled: bool) -> (r: Self)
        ensures
            r.active_node_id is None,
            !r.connecting,
            r.relay_addr@ == relay_addr@,
            r.control_addr@ == control_addr@,
            r.last_message@ == "starting"@,
            r.last_refresh_at is None,
            r.node_count == 0,
            r.auth_enabled == auth_enabled,
    {
        RuntimeStatus {
            active_node_id: None,
            connecting: false,
            relay_addr,
            control_addr,
            last_message: owned("starting"),
            last_refresh_at: None,
            node_count: 0,
            auth_enabled,
        }
    }
}

/// A request naming one node.
#[derive(Debug)]
pub struct ConnectRequest {
    pub id: String,
}

/// A request to toggle one node in the favorites.
#[derive(Debug)]
pub struct FavoriteRequest {
    pub id: String,
}

/// How the automatic connection picks its node.
#[derive(Clone, Copy, Debug, PartialEq, Eq, Structural)]
pub enum RouteMode {
    Auto,
    FixedCountry,
    FixedNode,
    Favorites,
}

/// How the gateway chooses its route.
#[derive(Debug)]
pub struct GatewaySettings {
    pub connection_enabled: bool,
    pub route_mode: RouteMode,
    pub country: String,
    pub fixed_node_id: String,
    pub favorite_node_ids: FavoriteSet,
    pub fallback_to_any: bool,
}

impl Default for GatewaySettings {
    /// Connections on, automatic choice among all nodes, no favorites.
    fn default() -> (r: Self)
        ensures
            r.connection_enabled,
            r.route_mode == RouteMode::Auto,
            r.country@ == Seq::<char>::empty(),
            r.fixed_node_id@ == Seq::<char>::empty(),
            r.favorite_node_ids.ids() == Seq::<Seq<char>>::empty(),
            r.fallback_to_any,
    {
        GatewaySettings {
            connection_enabled: true,
            route_mode: RouteMode::Auto,
            country: String::new(),
            fixed_node_id: String::new(),
            favorite_node_ids: FavoriteSet::new(),
            fallback_to_any: true,
        }
    }
}

/// One entry of the in-memory service log.
#[derive(Debug)]
pub struct LogEntry {
    pub ts: i64,
    pub level: String,
    pub module: String,
    pub message: String,
}

impl View for LogEntry {
    type V = (i64, Seq<char>, Seq<char>, Seq<char>);

    open spec fn view(&self) -> (i64, Seq<char>, Seq<char>, Seq<char>) {
        (self.ts, self.level@, self.module@, self.message@)
    }
}

/// The outcome of a TCP reachability test of one node.
#[derive(Debug)]
pub struct NodeTestResult {
    pub id: String,
    pub ok: bool,
    pub latency_ms: Option<u128>,
    pub message: String,
}

// ---------------------------------------------------------------------------
// The order of node ids in the favorites (the order of `String`: by code point)
// ---------------------------------------------------------------------------

/// Lexicographic order of strings by code point, which is the order of their UTF-8 bytes.
pub open spec fn str_lt(a: Seq<char>, b: Seq<char>) -> bool
    decreases a.len(),
{
    if a.len() == 0 {
        b.len() > 0
    } else if b.len() == 0 {
        false
    } else if a[0] != b[0] {
        a[0] < b[0]
    } else {
        str_lt(a.drop_first(), b.drop_first())
    }
}

pub proof fn lemma_str_lt_asym(a: Seq<char>, b: Seq<char>)
    ensures
        str_lt(a, b) ==> !str_lt(b, a),
        a != b ==> str_lt(a, b) || str_lt(b, a),
    decreases a.len(),
{
    if a.len() > 0 && b.len() > 0 && a[0] == b[0] {
        lemma_str_lt_asym(a.drop_first(), b.drop_first());
        if a != b {
            assert(a =~= seq![a[0]] + a.drop_first());
            assert(b =~= seq![b[0]] + b.drop_first());
        }
    } else if a.len() == 0 && b.len() == 0 {
        assert(a =~= b);
    }
}

pub proof fn lemma_str_lt_trans(a: Seq<char>, b: Seq<char>, c: Seq<char>)
    requires
        str_lt(a, b),
        str_lt(b, c),
    ensures
        str_lt(a, c),
    decreases a.len(),
{
    if a.len() > 0 && b.len() > 0 && c.len() > 0 && a[0] == b[0] && b[0] == c[0] {
        lemma_str_lt_trans(a.drop_first(), b.drop_first(), c.drop_first());
    }
}

fn str_less(a: &[char], b: &[char]) -> (r: bool)
    ensures
        r == str_lt(a@, b@),
{
    let mut i: usize = 0;
    assert(a@.skip(0) =~= a@);
    assert(b@.skip(0) =~= b@);
    while i < a.len() && i < b.len() && a[i] == b[i]
        invariant
            i <= a.len(),
            i <= b.len(),
            str_lt(a@, b@) == str_lt(a@.skip(i as int), b@.skip(i as int)),
        decreases a.len() - i,
    {
        assert(a@.skip(i as int).drop_first() =~= a@.skip(i + 1));
        assert(b@.skip(i as int).drop_first() =~= b@.skip(i + 1));
        i += 1;
    }
    if i == a.len() {
        i < b.len()
    } else if i == b.len() {
        false
    } else {
        a[i] < b[i]
    }
}

// ---------------------------------------------------------------------------
// The favorites: a set of node ids, kept in ascending order
// ---------------------------------------------------------------------------

/// Ascending without repetition.
pub open spec fn strictly_sorted(s: Seq<Seq<char>>) -> bool {
    forall|i: int, j: int| 0 <= i < j < s.len() ==> str_lt(#[trigger] s[i], #[trigger] s[j])
}

/// A set of node ids, held in ascending order without repetition, as a `BTreeSet<String>`
/// holds them.
#[derive(Debug)]
pub struct FavoriteSet {
    ids: Vec<String>,
}

impl FavoriteSet {
    /// The ids, in ascending order.
    pub closed spec fn ids(&self) -> Seq<Seq<char>> {
        self.ids@.map_values(|s: String| s@)
    }

    #[verifier::type_invariant]
    closed spec fn well_formed(self) -> bool {
        strictly_sorted(self.ids())
    }

    pub open spec fn has(&self, id: Seq<char>) -> bool {
        self.ids().contains(id)
    }

    /// The empty set.
    pub fn new() -> (r: Self)
        ensures
            r.ids() == Seq::<Seq<char>>::empty(),
    {
        let r = FavoriteSet { ids: Vec::new() };
        assert(r.ids() =~= Seq::<Seq<char>>::empty());
        r
    }

    pub fn len(&self) -> (n: usize)
        ensures
            n == self.ids().len(),
    {
        self.ids.len()
    }

    /// The position of the first id that is not below `id`, and whether it equals `id`.
    fn position(&self, id: &[char]) -> (r: (usize, bool))
        ensures
            r.0 <= self.ids().len(),
            forall|k: int| 0 <= k < r.0 ==> str_lt(#[trigger] self.ids()[k], id@),
            r.1 <==> (r.0 < self.ids().len() && self.ids()[r.0 as int] == id@),
            !r.1 ==> forall|k: int| r.0 <= k < self.ids().len() ==> str_lt(id@, #[trigger] self.ids()[k]),
    {
        proof {
            use_type_invariant(self);
        }
        let mut i: usize = 0;
        while i < self.ids.len()
            invariant
                i <= self.ids().len(),
                self.ids().len() == self.ids@.len(),
                strictly_sorted(self.ids()),
                forall|k: int| 0 <= k < i ==> str_lt(#[trigger] self.ids()[k], id@),
            decreases self.ids@.len() - i,
        {
            let cur = chars_of(self.ids[i].as_str());
            assert(cur@ == self.ids()[i as int]);
            if !str_less(cur.as_slice(), id) {
                let same = crate::text::seq_equal(cur.as_slice(), id);
                proof {
                    lemma_str_lt_asym(self.ids()[i as int], id@);
                    if !same {
                        assert forall|k: int| i <= k < self.ids().len() implies str_lt(id@, #[trigger] self.ids()[k]) by {
                            if k > i {
                                lemma_str_lt_trans(id@, self.ids()[i as int], self.ids()[k]);
                            }
                        }
                    }
                }
                return (i, same);
            }
            i += 1;
        }
        (i, false)
    }

    /// Whether `id` is in the set.
    pub fn contains(&self, id: &str) -> (r: bool)
        ensures
            r == self.has(id@),
    {
        proof {
            use_type_invariant(self);
        }
        let v = chars_of(id);
        let (_, found) = self.position(v.as_slice());
        proof {
            if !found && self.has(id@) {
                let k = choose|k: int| 0 <= k < self.ids().len() && self.ids()[k] == id@;
                lemma_str_lt_asym(id@, id@);
            }
        }
        found
    }

    /// Adds `id`; the set is unchanged when it is already there.
    pub fn insert(&mut self, id: String)
        ensures
            strictly_sorted(final(self).ids()),
            forall|x: Seq<char>| final(self).has(x) == (old(self).has(x) || x == id@),
    {
        proof {
            use_type_invariant(&*self);
        }
        let v = chars_of(id.as_str());
        let (p, found) = self.position(v.as_slice());
        if found {
            proof {
                assert forall|x: Seq<char>| self.has(x) == (self.has(x) || x == id@) by {
                    if x == id@ {
                        assert(self.ids()[p as int] == x);
                    }
                }
            }
            return;
        }
        let ghost old_ids = self.ids();
        let mut ids: Vec<String> = Vec::new();
        std::mem::swap(&mut ids, &mut self.ids);
        ids.insert(p, id);
        proof {
            assert(ids@.map_values(|s: String| s@) =~= old_ids.insert(p as int, v@));
            let n = ids@.map_values(|s: String| s@);
            assert forall|i: int, j: int| 0 <= i < j < n.len() implies str_lt(#[trigger] n[i], #[trigger] n[j]) by {
                if j == p {
                } else if i == p {
                } else if i < p && j > p {
                    lemma_str_lt_trans(n[i], v@, n[j]);
                }
            }
            assert forall|x: Seq<char>| n.contains(x) == (old_ids.contains(x) || x == id@) by {
                if old_ids.contains(x) {
                    let k = choose|k: int| 0 <= k < old_ids.len() && old_ids[k] == x;
                    if k < p {
                        assert(n[k] == x);
                    } else {
                        assert(n[k + 1] == x);
                    }
                }
                if x == id@ {
                    assert(n[p as int] == x);
                }
                if n.contains(x) {
                    let k = choose|k: int| 0 <= k < n.len() && n[k] == x;
                    if k < p {
                        assert(old_ids[k] == x);
                    } else if k > p {
                        assert(old_ids[k - 1] == x);
                    }
                }
            }
        }
        self.ids = ids;
    }

    /// Removes `id`; the set is unchanged when it is not there.
    pub fn remove(&mut self, id: &str)
        ensures
            strictly_sorted(final(self).ids()),
            forall|x: Seq<char>| final(self).has(x) == (old(self).has(x) && x != id@),
    {
        proof {
            use_type_invariant(&*self);
        }
        let v = chars_of(id);
        let (p, found) = self.position(v.as_slice());
        let ghost old_ids = self.ids();
        if !found {
            proof {
                assert forall|x: Seq<char>| old_ids.contains(x) implies x != id@ by {
                    let k = choose|k: int| 0 <= k < old_ids.len() && old_ids[k] == x;
                    if x == id@ {
                        lemma_str_lt_asym(x, x);
                    }
                }
            }
            return;
        }
        let mut ids: Vec<String> = Vec::new();
        std::mem::swap(&mut ids, &mut self.ids);
        ids.remove(p);
        proof {
            let n = ids@.map_values(|s: String| s@);
            assert(n =~= old_ids.remove(p as int));
            assert forall|i: int, j: int| 0 <= i < j < n.len() implies str_lt(#[trigger] n[i], #[trigger] n[j]) by {
                if i < p && j >= p {
                    assert(n[j] == old_ids[j + 1]);
                } else if i >= p {
                    assert(n[i] == old_ids[i + 1]);
                    assert(n[j] == old_ids[j + 1]);
                }
            }
            assert forall|x: Seq<char>| n.contains(x) == (old_ids.contains(x) && x != id@) by {
                if n.contains(x) {
                    let k = choose|k: int| 0 <= k < n.len() && n[k] == x;
                    if k < p {
                        assert(old_ids[k] == x);
                        lemma_str_lt_asym(x, x);
                    } else {
                        assert(old_ids[k + 1] == x);
                        lemma_str_lt_asym(x, x);
                    }
                }
                if old_ids.contains(x) && x != id@ {
                    let k = choose|k: int| 0 <= k < old_ids.len() && old_ids[k] == x;
                    if k < p {
                        assert(n[k] == x);
                    } else if k > p {
                        assert(n[k - 1] == x);
                    }
                }
            }
        }
        self.ids = ids;
    }

    /// Adds `id` when it is absent, removes it when it is present.
    pub fn toggle(&mut self, id: String)
        ensures
            strictly_sorted(final(self).ids()),
            forall|x: Seq<char>|
                final(self).has(x) == if x == id@ {
                    !old(self).has(x)
                } else {
                    old(self).has(x)
                },
    {
        if self.contains(id.as_str()) {
            self.remove(id.as_str());
        } else {
            self.insert(id);
        }
    }

    /// The set of the given ids.
    pub fn from_ids(ids: Vec<String>) -> (r: Self)
        ensures
            strictly_sorted(r.ids()),
            forall|x: Seq<char>| r.has(x) == ids@.map_values(|s: String| s@).contains(x),
    {
        let mut r = FavoriteSet::new();
        let ghost all = ids@.map_values(|s: String| s@);
        let mut i: usize = 0;
        while i < ids.len()
            invariant
                i <= ids.len(),
                all == ids@.map_values(|s: String| s@),
                strictly_sorted(r.ids()),
                forall|x: Seq<char>| r.has(x) == all.take(i as int).contains(x),
            decreases ids.len() - i,
        {
            proof {
                use_type_invariant(&r);
            }
            r.insert(ids[i].clone());
            proof {
                assert(all.take(i + 1) =~= all.take(i as int).push(all[i as int]));
                assert forall|x: Seq<char>| r.has(x) == all.take(i + 1).contains(x) by {
                    if x == all[i as int] {
                        assert(all.take(i + 1)[i as int] == x);
                    }
                    if all.take(i + 1).contains(x) && x != all[i as int] {
                        let t = all.take(i + 1);
                        let k = choose|k: int| 0 <= k < t.len() && t[k] == x;
                        assert(all.take(i as int)[k] == x);
                    }
                }
            }
            i += 1;
        }
        assert(all.take(ids.len() as int) =~= all);
        proof {
            use_type_invariant(&r);
        }
        r
    }

    /// The ids, in ascending order.
    pub fn to_vec(&self) -> (r: Vec<String>)
        ensures
            r@.map_values(|s: String| s@) == self.ids(),
    {
        let mut r: Vec<String> = Vec::new();
        let mut i: usize = 0;
        while i < self.ids.len()
            invariant
                i <= self.ids@.len(),
                r@.map_values(|s: String| s@) == self.ids().take(i as int),
            decreases self.ids@.len() - i,
        {
            let c = self.ids[i].clone();
            assert(c@ == self.ids()[i as int]);
            let ghost old_r = r@;
            r.push(c);
            assert(r@.map_values(|s: String| s@) =~= old_r.map_values(|s: String| s@).push(c@));
            assert(self.ids().take(i + 1) =~= self.ids().take(i as int).push(self.ids()[i as int]));
            i += 1;
        }
        assert(self.ids().take(i as int) =~= self.ids());
        r
    }
}

/// Two ascending sequences without repetition that have the same members are equal.
pub proof fn lemma_sorted_unique(a: Seq<Seq<char>>, b: Seq<Seq<char>>)
    requires
        strictly_sorted(a),
        strictly_sorted(b),
        forall|x: Seq<char>| a.contains(x) == b.contains(x),
    ensures
        a == b,
    decreases a.len(),
{
    if a.len() == 0 {
        if b.len() > 0 {
            assert(b.contains(b[0]));
        }
        assert(a =~= b);
    } else {
        assert(a.contains(a[0]));
        assert(b.len() > 0);
        assert(b.contains(b[0]));
        let k = choose|k: int| 0 <= k < b.len() && b[k] == a[0];
        let m = choose|m: int| 0 <= m < a.len() && a[m] == b[0];
        if k > 0 {
            if m > 0 {
                lemma_str_lt_asym(b[0], a[0]);
            } else {
                lemma_str_lt_asym(b[0], b[0]);
            }
        }
        assert(a[0] == b[0]);
        let ta = a.drop_first();
        let tb = b.drop_first();
        assert forall|x: Seq<char>| ta.contains(x) == tb.contains(x) by {
            if ta.contains(x) {
                let i = choose|i: int| 0 <= i < ta.len() && ta[i] == x;
                assert(a[i + 1] == x);
                assert(str_lt(a[0], a[i + 1]));
                lemma_str_lt_asym(x, x);
                assert(b.contains(x));
                let j = choose|j: int| 0 <= j < b.len() && b[j] == x;
                if j == 0 {
                } else {
                    assert(tb[j - 1] == x);
                }
            }
            if tb.contains(x) {
                let i = choose|i: int| 0 <= i < tb.len() && tb[i] == x;
                assert(b[i + 1] == x);
                assert(str_lt(b[0], b[i + 1]));
                lemma_str_lt_asym(x, x);
                assert(a.contains(x));
                let j = choose|j: int| 0 <= j < a.len() && a[j] == x;
                if j == 0 {
                } else {
                    assert(ta[j - 1] == x);
                }
            }
        }
        assert forall|i: int, j: int| 0 <= i < j < ta.len() implies str_lt(#[trigger] ta[i], #[trigger] ta[j]) by {
            assert(str_lt(a[i + 1], a[j + 1]));
        }
        assert forall|i: int, j: int| 0 <= i < j < tb.len() implies str_lt(#[trigger] tb[i], #[trigger] tb[j]) by {
            assert(str_lt(b[i + 1], b[j + 1]));
        }
        lemma_sorted_unique(ta, tb);
        assert(a =~= seq![a[0]] + ta);
        assert(b =~= seq![b[0]] + tb);
    }
}

/// Toggling the same id twice gives back the favorites that were there before, in the
/// same order.
pub proof fn law_toggle_twice(before: Seq<Seq<char>>, once: Seq<Seq<char>>, twice: Seq<Seq<char>>, id: Seq<char>)
    requires
        strictly_sorted(before),
        strictly_sorted(once),
        strictly_sorted(twice),
        forall|x: Seq<char>| once.contains(x) == if x == id { !before.contains(x) } else { before.contains(x) },
        forall|x: Seq<char>| twice.contains(x) == if x == id { !once.contains(x) } else { once.contains(x) },
    ensures
        twice == before,
{
    lemma_sorted_unique(twice, before);
}

} // verus!
