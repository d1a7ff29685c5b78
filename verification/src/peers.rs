//! The table of known peers, keyed by peer identifier.

use vstd::prelude::*;
use crate::addr::NetAddr;
use crate::types::{PeerInfo, PeerInfoView};
use crate::text::str_eq;

verus! {

/// The peers a node knows, at most one per identifier, in the order in
/// which they were first added.
#[derive(Debug)]
pub struct PeerTable {
    peers: Vec<PeerInfo>,
}

/// No two records share an identifier.
pub open spec fn ids_unique(s: Seq<PeerInfoView>) -> bool {
    forall|i: int, j: int| 0 <= i < s.len() && 0 <= j < s.len() && i != j ==> #[trigger] s[i].id != #[trigger] s[j].id
}

pub open spec fn has_id(s: Seq<PeerInfoView>, id: Seq<char>) -> bool {
    exists|i: int| 0 <= i < s.len() && #[trigger] s[i].id == id
}

/// The position of the record with identifier `id` (when there is one).
pub open spec fn id_position(s: Seq<PeerInfoView>, id: Seq<char>) -> int {
    choose|i: int| 0 <= i < s.len() && #[trigger] s[i].id == id
}

/// A peer is still connected when it was seen less than 120 seconds
/// before `now` (the difference taken modulo 2^64, as the unchecked
/// subtraction of a release build gives it).
pub open spec fn is_active(p: PeerInfoView, now: u64) -> bool {
    (if now >= p.last_seen {
        now - p.last_seen
    } else {
        now - p.last_seen + 0x1_0000_0000_0000_0000
    }) < 120
}

/// The records of `s` that satisfy `keep`, in order.
pub open spec fn filter_active(s: Seq<PeerInfoView>, now: u64) -> Seq<PeerInfoView>
    decreases s.len(),
{
    if s.len() == 0 {
        seq![]
    } else if is_active(s.last(), now) {
        filter_active(s.drop_last(), now).push(s.last())
    } else {
        filter_active(s.drop_last(), now)
    }
}

/// The addresses of the records of `s` that are no longer active, in order.
pub open spec fn inactive_addrs(s: Seq<PeerInfoView>, now: u64) -> Seq<NetAddr>
    decreases s.len(),
{
    if s.len() == 0 {
        seq![]
    } else if is_active(s.last(), now) {
        inactive_addrs(s.drop_last(), now)
    } else {
        inactive_addrs(s.drop_last(), now).push(s.last().addr)
    }
}

/// The addresses of the records of `s` other than `src`, in order.
pub open spec fn addrs_other_than(s: Seq<PeerInfoView>, src: NetAddr) -> Seq<NetAddr>
    decreases s.len(),
{
    if s.len() == 0 {
        seq![]
    } else if s.last().addr != src {
        addrs_other_than(s.drop_last(), src).push(s.last().addr)
    } else {
        addrs_other_than(s.drop_last(), src)
    }
}

/// The first record of `s` with name `username`, if any.
pub open spec fn first_named(s: Seq<PeerInfoView>, username: Seq<char>) -> Option<PeerInfoView>
    decreases s.len(),
{
    if s.len() == 0 {
        None
    } else if s[0].username == username {
        Some(s[0])
    } else {
        first_named(s.drop_first(), username)
    }
}

/// The first record of `s` whose address is not `addr`, if any.
pub open spec fn first_elsewhere(s: Seq<PeerInfoView>, addr: NetAddr) -> Option<PeerInfoView>
    decreases s.len(),
{
    if s.len() == 0 {
        None
    } else if s[0].addr != addr {
        Some(s[0])
    } else {
        first_elsewhere(s.drop_first(), addr)
    }
}

/// `s` after `p` is stored under its identifier: the record with that
/// identifier is replaced, or `p` is added at the end.
pub open spec fn stored(s: Seq<PeerInfoView>, p: PeerInfoView) -> Seq<PeerInfoView> {
    if has_id(s, p.id) {
        s.update(id_position(s, p.id), p)
    } else {
        s.push(p)
    }
}

/// `s` after a peer with identifier `id` shows up at `now`: its record
/// gets `now` as last seen, or, when it has none, `fresh` is added.
pub open spec fn registered(s: Seq<PeerInfoView>, id: Seq<char>, now: u64, fresh: PeerInfoView) -> Seq<PeerInfoView> {
    if has_id(s, id) {
        let i = id_position(s, id);
        s.update(i, PeerInfoView { last_seen: now, ..s[i] })
    } else {
        s.push(fresh)
    }
}

impl View for PeerTable {
    type V = Seq<PeerInfoView>;

    closed spec fn view(&self) -> Seq<PeerInfoView> {
        self.peers@.map_values(|p: PeerInfo| p@)
    }
}

proof fn lemma_position(s: Seq<PeerInfoView>, i: int)
    requires
        ids_unique(s),
        0 <= i < s.len(),
    ensures
        has_id(s, s[i].id),
        id_position(s, s[i].id) == i,
{
    assert(has_id(s, s[i].id));
}

impl PeerTable {
    pub open spec fn wf(&self) -> bool {
        ids_unique(self@)
    }

    /// An empty table.
    pub fn new() -> (t: PeerTable)
        ensures
            t.wf(),
            t@ == Seq::<PeerInfoView>::empty(),
    {
        let t = PeerTable { peers: Vec::new() };
        assert(t@ =~= Seq::<PeerInfoView>::empty());
        t
    }

    /// The number of peers.
    pub fn len(&self) -> (n: usize)
        ensures
            n == self@.len(),
    {
        self.peers.len()
    }

    /// A copy of the record at position `i`.
    pub fn get(&self, i: usize) -> (p: PeerInfo)
        requires
            i < self@.len(),
        ensures
            p@ == self@[i as int],
    {
        self.peers[i].duplicate()
    }

    /// Where the record of `id` is, if there is one.
    pub fn position_of(&self, id: &str) -> (r: Option<usize>)
        requires
            self.wf(),
        ensures
            r is Some <==> has_id(self@, id@),
            r matches Some(i) ==> i < self@.len() && i == id_position(self@, id@) && self@[i as int].id == id@,
    {
        let mut i: usize = 0;
        while i < self.peers.len()
            invariant
                i <= self.peers@.len(),
                self@.len() == self.peers@.len(),
                self.wf(),
                forall|j: int| 0 <= j < i ==> #[trigger] self@[j].id != id@,
            decreases self.peers.len() - i,
        {
            assert(self@[i as int] == self.peers@[i as int]@);
            if str_eq(self.peers[i].id.as_str(), id) {
                proof {
                    lemma_position(self@, i as int);
                }
                return Some(i);
            }
            i = i + 1;
        }
        None
    }

    /// Stores `p` under its identifier, replacing any record with the
    /// same identifier (as a map insertion does).
    pub fn store(&mut self, p: PeerInfo)
        requires
            old(self).wf(),
        ensures
            final(self).wf(),
            final(self)@ == stored(old(self)@, p@),
    {
        let ghost pv = p@;
        match self.position_of(p.id.as_str()) {
            Some(i) => {
                self.peers.set(i, p);
                proof {
                    assert(self@ =~= old(self)@.update(i as int, pv));
                    assert forall|a: int, b: int| 0 <= a < self@.len() && 0 <= b < self@.len() && a != b implies #[trigger] self@[a].id != #[trigger] self@[b].id by {
                        if a != i && b != i {
                            assert(old(self)@[a].id != old(self)@[b].id);
                        }
                    }
                }
            },
            None => {
                self.peers.push(p);
                proof {
                    assert(self@ =~= old(self)@.push(pv));
                    assert forall|a: int, b: int| 0 <= a < self@.len() && 0 <= b < self@.len() && a != b implies #[trigger] self@[a].id != #[trigger] self@[b].id by {
                        if a != old(self)@.len() && b != old(self)@.len() {
                            assert(old(self)@[a].id != old(self)@[b].id);
                        } else if a == old(self)@.len() {
                            assert(old(self)@[b].id != pv.id);
                        } else {
                            assert(old(self)@[a].id != pv.id);
                        }
                    }
                }
            },
        }
    }

    /// Notes that the peer `id` showed up at `now`: an existing record
    /// only gets `now` as last seen; otherwise `fresh` (whose identifier
    /// is `id`) is added.
    pub fn register(&mut self, id: &str, now: u64, fresh: PeerInfo)
        requires
            old(self).wf(),
            fresh.id@ == id@,
        ensures
            final(self).wf(),
            final(self)@ == registered(old(self)@, id@, now, fresh@),
    {
        let ghost fv = fresh@;
        match self.position_of(id) {
            Some(i) => {
                let mut p = self.peers[i].duplicate();
                p.last_seen = now;
                let ghost pv = p@;
                self.peers.set(i, p);
                proof {
                    assert(self@ =~= old(self)@.update(i as int, pv));
                    assert forall|a: int, b: int| 0 <= a < self@.len() && 0 <= b < self@.len() && a != b implies #[trigger] self@[a].id != #[trigger] self@[b].id by {
                        if a != i && b != i {
                            assert(old(self)@[a].id != old(self)@[b].id);
                        } else if a == i {
                            assert(old(self)@[i as int].id != old(self)@[b].id);
                        } else {
                            assert(old(self)@[a].id != old(self)@[i as int].id);
                        }
                    }
                }
            },
            None => {
                self.store(fresh);
                assert(!has_id(old(self)@, fv.id));
            },
        }
    }

    /// Drops the peers that are no longer active at `now` (seen 120
    /// seconds ago or earlier) and gives the addresses of those dropped,
    /// in table order.
    pub fn delete_disconnected_peers(&mut self, now: u64) -> (lost: Vec<NetAddr>)
        requires
            old(self).wf(),
        ensures
            final(self).wf(),
            final(self)@ == filter_active(old(self)@, now),
            lost@ == inactive_addrs(old(self)@, now),
    {
        let ghost old_view = self@;
        let mut kept: Vec<PeerInfo> = Vec::new();
        let mut lost: Vec<NetAddr> = Vec::new();
        let mut old_peers: Vec<PeerInfo> = Vec::new();
        std::mem::swap(&mut old_peers, &mut self.peers);
        assert(old_peers@.map_values(|p: PeerInfo| p@) == old_view);
        let mut i: usize = 0;
        while i < old_peers.len()
            invariant
                i <= old_peers@.len(),
                old_view.len() == old_peers@.len(),
                forall|j: int| 0 <= j < old_view.len() ==> old_view[j] == #[trigger] old_peers@[j]@,
                kept@.map_values(|p: PeerInfo| p@) == filter_active(old_view.subrange(0, i as int), now),
                lost@ == inactive_addrs(old_view.subrange(0, i as int), now),
            decreases old_peers.len() - i,
        {
            let p = old_peers[i].duplicate();
            let ghost prefix = old_view.subrange(0, i + 1);
            assert(prefix.drop_last() =~= old_view.subrange(0, i as int));
            assert(prefix.last() == old_view[i as int]);
            let age = now.wrapping_sub(p.last_seen);
            if age < 120 {
                assert(is_active(p@, now));
                let ghost before = kept@;
                kept.push(p);
                assert(kept@.map_values(|q: PeerInfo| q@) =~= before.map_values(|q: PeerInfo| q@).push(old_view[i as int]));
            } else {
                assert(!is_active(p@, now));
                lost.push(p.addr);
            }
            i = i + 1;
        }
        assert(old_view.subrange(0, old_view.len() as int) =~= old_view);
        self.peers = kept;
        proof {
            lemma_filter_unique(old_view, now);
        }
        lost
    }

    /// The first peer named `username`, if any (the table stands for a map,
    /// so which one is first is the only order there is).
    pub fn find_by_username(&self, username: &str) -> (r: Option<PeerInfo>)
        ensures
            match first_named(self@, username@) {
                Some(p) => r matches Some(q) && q@ == p,
                None => r is None,
            },
    {
        let mut i: usize = 0;
        assert(self@.subrange(0, self@.len() as int) =~= self@);
        while i < self.peers.len()
            invariant
                i <= self.peers@.len(),
                self@.len() == self.peers@.len(),
                first_named(self@, username@) == first_named(self@.subrange(i as int, self@.len() as int), username@),
            decreases self.peers.len() - i,
        {
            let ghost rest = self@.subrange(i as int, self@.len() as int);
            assert(rest.drop_first() =~= self@.subrange(i + 1, self@.len() as int));
            assert(rest[0] == self.peers@[i as int]@);
            if str_eq(self.peers[i].username.as_str(), username) {
                return Some(self.peers[i].duplicate());
            }
            i = i + 1;
        }
        None
    }

    /// The first peer whose address is not `addr`, if any.
    pub fn find_elsewhere(&self, addr: &NetAddr) -> (r: Option<PeerInfo>)
        ensures
            match first_elsewhere(self@, *addr) {
                Some(p) => r matches Some(q) && q@ == p,
                None => r is None,
            },
    {
        let mut i: usize = 0;
        assert(self@.subrange(0, self@.len() as int) =~= self@);
        while i < self.peers.len()
            invariant
                i <= self.peers@.len(),
                self@.len() == self.peers@.len(),
                first_elsewhere(self@, *addr) == first_elsewhere(self@.subrange(i as int, self@.len() as int), *addr),
            decreases self.peers.len() - i,
        {
            let ghost rest = self@.subrange(i as int, self@.len() as int);
            assert(rest.drop_first() =~= self@.subrange(i + 1, self@.len() as int));
            assert(rest[0] == self.peers@[i as int]@);
            if self.peers[i].addr != *addr {
                return Some(self.peers[i].duplicate());
            }
            i = i + 1;
        }
        None
    }

    /// Whether some peer has address `addr`.
    pub fn has_addr(&self, addr: &NetAddr) -> (b: bool)
        ensures
            b == exists|i: int| 0 <= i < self@.len() && #[trigger] self@[i].addr == *addr,
    {
        let mut i: usize = 0;
        while i < self.peers.len()
            invariant
                i <= self.peers@.len(),
                self@.len() == self.peers@.len(),
                forall|j: int| 0 <= j < i ==> #[trigger] self@[j].addr != *addr,
            decreases self.peers.len() - i,
        {
            assert(self@[i as int] == self.peers@[i as int]@);
            if self.peers[i].addr == *addr {
                assert(self@[i as int].addr == *addr);
                return true;
            }
            i = i + 1;
        }
        false
    }

    /// The addresses of all peers other than `src`, in table order: where
    /// a message from `src` is relayed.
    pub fn addrs_except(&self, src: &NetAddr) -> (r: Vec<NetAddr>)
        ensures
            r@ == addrs_other_than(self@, *src),
    {
        let mut r: Vec<NetAddr> = Vec::new();
        let mut i: usize = 0;
        while i < self.peers.len()
            invariant
                i <= self.peers@.len(),
                self@.len() == self.peers@.len(),
                r@ == addrs_other_than(self@.subrange(0, i as int), *src),
            decreases self.peers.len() - i,
        {
            let ghost prefix = self@.subrange(0, i + 1);
            assert(prefix.drop_last() =~= self@.subrange(0, i as int));
            assert(prefix.last() == self.peers@[i as int]@);
            if self.peers[i].addr != *src {
                r.push(self.peers[i].addr);
            }
            i = i + 1;
        }
        assert(self@.subrange(0, self@.len() as int) =~= self@);
        r
    }

    /// Copies of all records, in table order.
    pub fn records(&self) -> (r: Vec<PeerInfo>)
        ensures
            r@.map_values(|p: PeerInfo| p@) == self@,
    {
        let mut r: Vec<PeerInfo> = Vec::new();
        let mut i: usize = 0;
        while i < self.peers.len()
            invariant
                i <= self.peers@.len(),
                self@.len() == self.peers@.len(),
                r@.map_values(|p: PeerInfo| p@) == self@.subrange(0, i as int),
            decreases self.peers.len() - i,
        {
            let ghost before = r@;
            let p = self.peers[i].duplicate();
            assert(p@ == self@[i as int]);
            r.push(p);
            assert(r@ == before.push(p));
            assert(r@.map_values(|q: PeerInfo| q@) =~= before.map_values(|q: PeerInfo| q@).push(p@));
            assert(r@.map_values(|q: PeerInfo| q@) =~= self@.subrange(0, i + 1));
            i = i + 1;
        }
        assert(self@.subrange(0, self@.len() as int) =~= self@);
        r
    }
}

/// The verifying key of the first peer named `username`, if any.
pub fn get_verifying_key(peers: &PeerTable, username: &str) -> (key: Option<[u8; 32]>)
    ensures
        match first_named(peers@, username@) {
            Some(p) => key matches Some(k) && k@ == p.verifying_key,
            None => key is None,
        },
{
    match peers.find_by_username(username) {
        Some(p) => Some(p.verifying_key),
        None => None,
    }
}

/// Every record kept by `filter_active` comes from `s`, in order.
proof fn lemma_filter_sub(s: Seq<PeerInfoView>, now: u64)
    ensures
        filter_active(s, now).len() <= s.len(),
        forall|a: int| 0 <= a < filter_active(s, now).len() ==> exists|k: int| 0 <= k < s.len() && #[trigger] filter_active(s, now)[a] == s[k],
    decreases s.len(),
{
    if s.len() > 0 {
        lemma_filter_sub(s.drop_last(), now);
        let f = filter_active(s.drop_last(), now);
        assert forall|a: int| 0 <= a < filter_active(s, now).len() implies exists|k: int| 0 <= k < s.len() && #[trigger] filter_active(s, now)[a] == s[k] by {
            if a < f.len() {
                let k = choose|k: int| 0 <= k < s.drop_last().len() && f[a] == s.drop_last()[k];
                assert(s[k] == s.drop_last()[k]);
            } else {
                assert(filter_active(s, now)[a] == s[s.len() - 1]);
            }
        }
    }
}

proof fn lemma_filter_unique(s: Seq<PeerInfoView>, now: u64)
    requires
        ids_unique(s),
    ensures
        ids_unique(filter_active(s, now)),
    decreases s.len(),
{
    if s.len() > 0 {
        let p = s.drop_last();
        assert(ids_unique(p)) by {
            assert forall|a: int, b: int| 0 <= a < p.len() && 0 <= b < p.len() && a != b implies #[trigger] p[a].id != #[trigger] p[b].id by {
                assert(p[a] == s[a] && p[b] == s[b]);
            }
        }
        lemma_filter_unique(p, now);
        lemma_filter_sub(p, now);
        let f = filter_active(p, now);
        if is_active(s.last(), now) {
            let g = f.push(s.last());
            assert forall|a: int, b: int| 0 <= a < g.len() && 0 <= b < g.len() && a != b implies #[trigger] g[a].id != #[trigger] g[b].id by {
                if a < f.len() && b < f.len() {
                } else if a == f.len() {
                    let k = choose|k: int| 0 <= k < p.len() && #[trigger] f[b] == p[k];
                    assert(s[k] == p[k]);
                    assert(s[k].id != s[s.len() - 1].id);
                } else {
                    let k = choose|k: int| 0 <= k < p.len() && #[trigger] f[a] == p[k];
                    assert(s[k] == p[k]);
                    assert(s[k].id != s[s.len() - 1].id);
                }
            }
        }
    }
}

/// After dropping the disconnected peers, every remaining peer is active,
/// and every active peer remains.
pub proof fn lemma_only_active_remain(s: Seq<PeerInfoView>, now: u64)
    ensures
        forall|a: int| 0 <= a < filter_active(s, now).len() ==> is_active(#[trigger] filter_active(s, now)[a], now),
        forall|k: int| 0 <= k < s.len() && is_active(#[trigger] s[k], now) ==> filter_active(s, now).contains(s[k]),
    decreases s.len(),
{
    if s.len() > 0 {
        let p = s.drop_last();
        lemma_only_active_remain(p, now);
        let f = filter_active(p, now);
        assert forall|k: int| 0 <= k < s.len() && is_active(#[trigger] s[k], now) implies filter_active(s, now).contains(s[k]) by {
            if k < s.len() - 1 {
                assert(s[k] == p[k]);
                let a = choose|a: int| 0 <= a < f.len() && f[a] == p[k];
                if is_active(s.last(), now) {
                    assert(filter_active(s, now)[a] == f[a]);
                }
            } else {
                assert(filter_active(s, now)[f.len() as int] == s[k]);
            }
        }
    }
}

/// The addresses a message is relayed to are those of peers, and never
/// the address it came from.
pub proof fn lemma_addrs_other_than(s: Seq<PeerInfoView>, src: NetAddr)
    ensures
        forall|i: int|
            0 <= i < addrs_other_than(s, src).len() ==> #[trigger] addrs_other_than(s, src)[i] != src
                && exists|k: int| 0 <= k < s.len() && s[k].addr == addrs_other_than(s, src)[i],
        forall|k: int| 0 <= k < s.len() && #[trigger] s[k].addr != src ==> addrs_other_than(s, src).contains(s[k].addr),
    decreases s.len(),
{
    if s.len() > 0 {
        let p = s.drop_last();
        lemma_addrs_other_than(p, src);
        let r = addrs_other_than(p, src);
        assert forall|i: int| 0 <= i < addrs_other_than(s, src).len() implies #[trigger] addrs_other_than(s, src)[i] != src
            && exists|k: int| 0 <= k < s.len() && s[k].addr == addrs_other_than(s, src)[i] by {
            if i < r.len() {
                assert(addrs_other_than(s, src)[i] == r[i]);
                let k = choose|k: int| 0 <= k < p.len() && p[k].addr == r[i];
                assert(s[k] == p[k]);
            } else {
                assert(addrs_other_than(s, src)[i] == s.last().addr);
                assert(s[s.len() - 1].addr == s.last().addr);
            }
        }
        assert forall|k: int| 0 <= k < s.len() && #[trigger] s[k].addr != src implies addrs_other_than(s, src).contains(s[k].addr) by {
            if k < s.len() - 1 {
                assert(s[k] == p[k]);
                let i = choose|i: int| 0 <= i < r.len() && r[i] == p[k].addr;
                if s.last().addr != src {
                    assert(addrs_other_than(s, src)[i] == r[i]);
                }
            } else {
                assert(addrs_other_than(s, src)[r.len() as int] == s[k].addr);
            }
        }
    }
}

/// The first peer with a name has that name and is one of the peers; when
/// there is none, no peer has that name.
pub proof fn lemma_first_named(s: Seq<PeerInfoView>, username: Seq<char>)
    ensures
        first_named(s, username) matches Some(p) ==> p.username == username && s.contains(p),
        first_named(s, username) is None ==> forall|k: int| 0 <= k < s.len() ==> #[trigger] s[k].username != username,
    decreases s.len(),
{
    if s.len() > 0 && s[0].username != username {
        lemma_first_named(s.drop_first(), username);
        if let Some(p) = first_named(s, username) {
            let k = choose|k: int| 0 <= k < s.drop_first().len() && s.drop_first()[k] == p;
            assert(s[k + 1] == p);
        }
        assert forall|k: int| 0 <= k < s.len() && first_named(s, username) is None implies #[trigger] s[k].username != username by {
            if k > 0 {
                assert(s[k] == s.drop_first()[k - 1]);
            }
        }
    } else if s.len() > 0 {
        assert(s[0] == s[0]);
    }
}

/// The relay the hub offers is at another address than the asker's and
/// is one of the relays; it offers none only when every relay is at the
/// asker's address.
pub proof fn lemma_first_elsewhere(s: Seq<PeerInfoView>, addr: NetAddr)
    ensures
        first_elsewhere(s, addr) matches Some(p) ==> p.addr != addr && s.contains(p),
        first_elsewhere(s, addr) is None ==> forall|k: int| 0 <= k < s.len() ==> #[trigger] s[k].addr == addr,
    decreases s.len(),
{
    if s.len() > 0 && s[0].addr == addr {
        lemma_first_elsewhere(s.drop_first(), addr);
        if let Some(p) = first_elsewhere(s, addr) {
            let k = choose|k: int| 0 <= k < s.drop_first().len() && s.drop_first()[k] == p;
            assert(s[k + 1] == p);
        }
        assert forall|k: int| 0 <= k < s.len() && first_elsewhere(s, addr) is None implies #[trigger] s[k].addr == addr by {
            if k > 0 {
                assert(s[k] == s.drop_first()[k - 1]);
            }
        }
    } else if s.len() > 0 {
        assert(s[0] == s[0]);
    }
}

/// After a peer shows up, it is known, with the time it showed up as last
/// seen; every other record stays as it was.
pub proof fn lemma_registered(s: Seq<PeerInfoView>, id: Seq<char>, now: u64, fresh: PeerInfoView)
    requires
        ids_unique(s),
        fresh.id == id,
        fresh.last_seen == now,
    ensures
        has_id(registered(s, id, now, fresh), id),
        registered(s, id, now, fresh)[id_position(registered(s, id, now, fresh), id)].last_seen == now,
        forall|k: int| 0 <= k < s.len() && #[trigger] s[k].id != id ==> registered(s, id, now, fresh).contains(s[k]),
{
    let r = registered(s, id, now, fresh);
    if has_id(s, id) {
        let i = id_position(s, id);
        lemma_position(s, i);
        assert(r[i].id == id);
        assert(has_id(r, id));
        assert(ids_unique(r)) by {
            assert forall|a: int, b: int| 0 <= a < r.len() && 0 <= b < r.len() && a != b implies #[trigger] r[a].id != #[trigger] r[b].id by {
                assert(s[a].id == r[a].id && s[b].id == r[b].id);
            }
        }
        lemma_position(r, i);
        assert forall|k: int| 0 <= k < s.len() && #[trigger] s[k].id != id implies r.contains(s[k]) by {
            assert(k != i);
            assert(r[k] == s[k]);
        }
    } else {
        let i = s.len() as int;
        assert(r[i] == fresh);
        assert(has_id(r, id));
        assert(ids_unique(r)) by {
            assert forall|a: int, b: int| 0 <= a < r.len() && 0 <= b < r.len() && a != b implies #[trigger] r[a].id != #[trigger] r[b].id by {
                if a < i && b < i {
                    assert(r[a] == s[a] && r[b] == s[b]);
                } else if a == i {
                    assert(r[b] == s[b]);
                } else {
                    assert(r[a] == s[a]);
                }
            }
        }
        lemma_position(r, i);
        assert forall|k: int| 0 <= k < s.len() && #[trigger] s[k].id != id implies r.contains(s[k]) by {
            assert(r[k] == s[k]);
        }
    }
}

} // verus!
