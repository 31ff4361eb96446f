//! The client registry: the last-known state of every reporting client.
//!
//! The registry maps a client's network address to its most recent
//! coordinate pair and the time it was last heard from.  Coordinate values
//! are carried as the raw bit patterns of the doubles the embedding
//! program decoded, so the registry itself never computes on them.  At
//! most one record exists per address; records are created only by a
//! well-formed update and destroyed only by an eviction pass.

use vstd::prelude::*;

verus! {

broadcast use vstd::seq_lib::group_filter_ensures;

/// A client's network address: host and port.  One address identifies one
/// client for the lifetime of its session.
#[derive(Clone, Copy, Debug, PartialEq, Eq, Structural)]
pub struct ClientId {
    pub host: u128,
    pub port: u16,
}

/// A coordinate pair, each half the raw bits of an IEEE-754 double.
pub type ClientData = (u64, u64);

/// The last-known state of one client.
#[derive(Clone, Copy, Debug, PartialEq, Eq)]
pub struct Client {
    pub addr: ClientId,
    pub data: ClientData,
    pub last_update: u64,
}

/// The registry's storage: one record per currently-known client.
pub type Clients = Vec<Client>;

/// Some record in `s` carries the address `addr`.
pub open spec fn has_addr(s: Seq<Client>, addr: ClientId) -> bool {
    exists|i: int| 0 <= i < s.len() && s[i].addr == addr
}

/// The index of the record carrying `addr`; meaningful only where
/// `has_addr` holds and addresses are unique.
pub open spec fn index_of_addr(s: Seq<Client>, addr: ClientId) -> int {
    choose|i: int| 0 <= i < s.len() && s[i].addr == addr
}

/// At most one record per address.
pub open spec fn addrs_unique(s: Seq<Client>) -> bool {
    forall|i: int, j: int| 0 <= i < j < s.len() ==> s[i].addr != s[j].addr
}

/// What an upsert leaves behind: the record under `addr` overwritten in
/// place where one exists, and a fresh record appended otherwise.
pub open spec fn upsert_spec(s: Seq<Client>, addr: ClientId, data: ClientData, now: u64) -> Seq<
    Client,
> {
    if has_addr(s, addr) {
        s.update(index_of_addr(s, addr), (Client { addr, data, last_update: now }))
    } else {
        s.push(Client { addr, data, last_update: now })
    }
}

/// A record young enough to survive an eviction pass at `now` with the
/// given timeout: it was refreshed strictly later than `now - timeout`.
pub open spec fn live(c: Client, now: u64, timeout: u64) -> bool {
    c.last_update + timeout > now
}

/// What an eviction pass leaves behind: exactly the records refreshed
/// strictly later than `now - timeout`, in their original order.
pub open spec fn expire_spec(s: Seq<Client>, now: u64, timeout: u64) -> Seq<Client> {
    s.filter(|c: Client| live(c, now, timeout))
}

/// The projection a snapshot takes: each record's coordinate pair, in
/// storage order.
pub open spec fn snapshot_spec(s: Seq<Client>) -> Seq<ClientData> {
    s.map_values(|c: Client| c.data)
}

/// Overwrites the record under `addr`, or appends one where none exists.
/// The rest of the registry is untouched.
pub fn add_to_client_data(clients: &mut Clients, addr: ClientId, data: ClientData, now: u64)
    requires
        addrs_unique(old(clients)@),
    ensures
        final(clients)@ == upsert_spec(old(clients)@, addr, data, now),
        addrs_unique(final(clients)@),
{
    let n: usize = clients.len();
    let mut i: usize = 0;
    while i < n
        invariant
            n == clients@.len(),
            i <= n,
            clients@ == old(clients)@,
            addrs_unique(clients@),
            forall|j: int| 0 <= j < i ==> clients@[j].addr != addr,
        decreases n - i,
    {
        if clients[i].addr == addr {
            clients[i] = Client { addr, data, last_update: now };
            proof {
                assert(has_addr(old(clients)@, addr));
                let k: int = index_of_addr(old(clients)@, addr);
                assert(k == i);
            }
            return;
        }
        i += 1;
    }
    clients.push(Client { addr, data, last_update: now });
    proof {
        assert(!has_addr(old(clients)@, addr));
        assert forall|p: int, q: int| 0 <= p < q < clients@.len() implies clients@[p].addr
            != clients@[q].addr by {
            if q < clients@.len() - 1 {
                assert(old(clients)@[p].addr != old(clients)@[q].addr);
            }
        }
    }
}

/// Removes exactly the records whose `last_update` lies at or before
/// `now - timeout`; every younger record survives, in order.
pub fn purge_old_clients(clients: &mut Clients, now: u64, timeout: u64)
    ensures
        final(clients)@ == expire_spec(old(clients)@, now, timeout),
        addrs_unique(old(clients)@) ==> addrs_unique(final(clients)@),
{
    let n: usize = clients.len();
    let mut kept: Vec<Client> = Vec::new();
    let mut i: usize = 0;
    proof {
        assert(clients@.subrange(0, 0) =~= Seq::<Client>::empty());
        assert(Seq::<Client>::empty().filter(|c: Client| live(c, now, timeout))
            =~= Seq::<Client>::empty());
    }
    while i < n
        invariant
            n == clients@.len(),
            i <= n,
            clients@ == old(clients)@,
            kept@ == clients@.subrange(0, i as int).filter(|c: Client| live(c, now, timeout)),
        decreases n - i,
    {
        let c = clients[i];
        let ghost pre = clients@.subrange(0, i as int);
        proof {
            assert(clients@.subrange(0, i as int + 1) =~= pre + seq![clients@[i as int]]);
            Seq::filter_distributes_over_add(
                pre,
                seq![clients@[i as int]],
                |c: Client| live(c, now, timeout),
            );
            reveal_with_fuel(Seq::filter, 2);
            assert(seq![clients@[i as int]].drop_last() =~= Seq::<Client>::empty());
        }
        if (c.last_update as u128) + (timeout as u128) > (now as u128) {
            kept.push(c);
        }
        i += 1;
    }
    proof {
        assert(clients@.subrange(0, n as int) =~= clients@);
    }
    *clients = kept;
    proof {
        if addrs_unique(old(clients)@) {
            lemma_expire_keeps_unique(old(clients)@, now, timeout);
        }
    }
}

/// Evicting never invents a record: the survivors are a subsequence, so
/// unique addresses stay unique.
proof fn lemma_expire_keeps_unique(s: Seq<Client>, now: u64, timeout: u64)
    requires
        addrs_unique(s),
    ensures
        addrs_unique(expire_spec(s, now, timeout)),
    decreases s.len(),
{
    reveal_with_fuel(Seq::filter, 2);
    if s.len() > 0 {
        let pred = |c: Client| live(c, now, timeout);
        let head = s.drop_last();
        assert(addrs_unique(head));
        lemma_expire_keeps_unique(head, now, timeout);
        let f = head.filter(pred);
        lemma_filter_members(head, pred);
        if pred(s.last()) {
            assert(s.filter(pred) == f.push(s.last()));
            assert forall|i: int, j: int|
                0 <= i < j < s.filter(pred).len() implies s.filter(pred)[i].addr != s.filter(
                pred,
            )[j].addr by {
                if j < f.len() {
                    assert(f[i].addr != f[j].addr);
                } else {
                    let wi = choose|w: int| 0 <= w < head.len() && head[w] == f[i];
                    assert(s[wi].addr != s.last().addr);
                }
            }
        }
    }
}

/// Every element a filter keeps was an element of the input.
proof fn lemma_filter_members(s: Seq<Client>, pred: spec_fn(Client) -> bool)
    ensures
        forall|i: int| 0 <= i < s.filter(pred).len() ==> s.contains(#[trigger] s.filter(pred)[i]),
    decreases s.len(),
{
    reveal_with_fuel(Seq::filter, 2);
    if s.len() > 0 {
        let head = s.drop_last();
        lemma_filter_members(head, pred);
        assert forall|i: int|
            0 <= i < s.filter(pred).len() implies s.contains(#[trigger] s.filter(pred)[i]) by {
            if i < head.filter(pred).len() {
                let w = choose|w: int| 0 <= w < head.len() && head[w] == head.filter(pred)[i];
                assert(s[w] == head.filter(pred)[i]);
            } else {
                assert(s[s.len() - 1] == s.filter(pred)[i]);
            }
        }
    }
}

/// Projects the registry to its coordinate pairs, in storage order.
pub fn snapshot(clients: &Clients) -> (r: Vec<ClientData>)
    ensures
        r@ == snapshot_spec(clients@),
{
    let n: usize = clients.len();
    let mut out: Vec<ClientData> = Vec::new();
    let mut i: usize = 0;
    proof {
        assert(out@ =~= clients@.subrange(0, 0).map_values(|c: Client| c.data));
    }
    while i < n
        invariant
            n == clients@.len(),
            i <= n,
            out@ == clients@.subrange(0, i as int).map_values(|c: Client| c.data),
        decreases n - i,
    {
        out.push(clients[i].data);
        proof {
            assert(out@ =~= clients@.subrange(0, i as int + 1).map_values(|c: Client| c.data));
        }
        i += 1;
    }
    proof {
        assert(clients@.subrange(0, n as int) =~= clients@);
    }
    out
}

/// Applies an already-interpreted update to the registry.  A malformed
/// update — fewer than two fields, or a first or second field that did
/// not read as a number, both reported by the caller as an absent
/// interpretation — never creates, destroys or changes any record.  A
/// well-formed one upserts the sender's record with `now`.
pub fn upsert(
    clients: &mut Clients,
    source: ClientId,
    fields: &Vec<String>,
    interpreted: Option<ClientData>,
    now: u64,
)
    requires
        addrs_unique(old(clients)@),
    ensures
        addrs_unique(final(clients)@),
        final(clients)@ == upsert_outcome(old(clients)@, source, fields@, interpreted, now),
{
    if fields.len() >= 2 {
        match interpreted {
            Some(data) => add_to_client_data(clients, source, data, now),
            None => (),
        }
    }
}

/// One upsert with a fresh address appends one record and touches no
/// other; a run of upserts with pairwise-distinct fresh addresses, with
/// no eviction pass between them, therefore grows the registry by
/// exactly one record per address.  Started on the empty registry, a run
/// of upserts under N distinct addresses leaves exactly N records.
pub proof fn lemma_fresh_upserts_grow_registry(
    s: Seq<Client>,
    ups: Seq<(ClientId, ClientData, u64)>,
)
    requires
        addrs_unique(s),
        forall|i: int, j: int| 0 <= i < j < ups.len() ==> ups[i].0 != ups[j].0,
        forall|i: int| 0 <= i < ups.len() ==> !has_addr(s, #[trigger] ups[i].0),
    ensures
        apply_upserts(s, ups).len() == s.len() + ups.len(),
        addrs_unique(apply_upserts(s, ups)),
    decreases ups.len(),
{
    if ups.len() > 0 {
        let c = Client { addr: ups[0].0, data: ups[0].1, last_update: ups[0].2 };
        let s1 = upsert_spec(s, ups[0].0, ups[0].1, ups[0].2);
        assert(s1 == s.push(c));
        assert forall|p: int, q: int| 0 <= p < q < s1.len() implies s1[p].addr != s1[q].addr by {
            if q < s1.len() - 1 {
                assert(s[p].addr != s[q].addr);
            } else {
                assert(!has_addr(s, ups[0].0));
                assert(s1[p] == s[p]);
            }
        }
        let rest = ups.subrange(1, ups.len() as int);
        assert forall|i: int| 0 <= i < rest.len() implies !has_addr(s1, #[trigger] rest[i].0) by {
            assert(rest[i] == ups[i + 1]);
            assert(ups[i + 1].0 != ups[0].0);
            assert(!has_addr(s, ups[i + 1].0));
            if has_addr(s1, rest[i].0) {
                let w = choose|w: int| 0 <= w < s1.len() && s1[w].addr == rest[i].0;
                if w < s.len() {
                    assert(s[w].addr == rest[i].0);
                }
            }
        }
        lemma_fresh_upserts_grow_registry(s1, rest);
        assert(apply_upserts(s, ups) == apply_upserts(s1, rest));
    }
}

/// The registry each upsert of a run leaves behind, first upsert first.
pub open spec fn apply_upserts(s: Seq<Client>, ups: Seq<(ClientId, ClientData, u64)>) -> Seq<
    Client,
>
    decreases ups.len(),
{
    if ups.len() == 0 {
        s
    } else {
        apply_upserts(
            upsert_spec(s, ups[0].0, ups[0].1, ups[0].2),
            ups.subrange(1, ups.len() as int),
        )
    }
}

/// Re-upserting an address the registry already holds never changes its
/// size: it overwrites that record's coordinates and refresh time in
/// place and leaves every other record untouched.
pub proof fn lemma_reupsert_preserves_size(
    s: Seq<Client>,
    addr: ClientId,
    data: ClientData,
    now: u64,
)
    requires
        addrs_unique(s),
        has_addr(s, addr),
    ensures
        upsert_spec(s, addr, data, now).len() == s.len(),
        upsert_spec(s, addr, data, now)[index_of_addr(s, addr)] == (Client {
            addr,
            data,
            last_update: now,
        }),
        forall|j: int|
            0 <= j < s.len() && j != index_of_addr(s, addr) ==> upsert_spec(s, addr, data, now)[j]
                == s[j],
{
}

/// A record's refresh time never moves backwards across upserts: an
/// upsert stamps the record with the clock reading handed in, so as long
/// as the caller's clock does not run backwards, `last_update` is
/// monotonically non-decreasing for a given address.
pub proof fn lemma_last_seen_monotonic(s: Seq<Client>, addr: ClientId, data: ClientData, now: u64)
    requires
        addrs_unique(s),
        has_addr(s, addr),
        now >= s[index_of_addr(s, addr)].last_update,
    ensures
        upsert_spec(s, addr, data, now)[index_of_addr(s, addr)].last_update >= s[index_of_addr(
            s,
            addr,
        )].last_update,
{
}

/// An eviction pass removes exactly the records whose refresh time lies
/// at or before `now - timeout`: a record survives it if and only if it
/// was in the registry and still live.
pub proof fn lemma_expire_exact(s: Seq<Client>, now: u64, timeout: u64)
    ensures
        forall|c: Client|
            expire_spec(s, now, timeout).contains(c) <==> s.contains(c) && live(c, now, timeout),
{
    let pred = |c: Client| live(c, now, timeout);
    lemma_filter_members(s, pred);
    assert forall|c: Client| s.contains(c) && live(c, now, timeout) implies expire_spec(
        s,
        now,
        timeout,
    ).contains(c) by {
        let i = choose|i: int| 0 <= i < s.len() && s[i] == c;
        assert(pred(s[i]));
        assert(s.filter(pred).contains(s[i]));
    }
    assert forall|c: Client| expire_spec(s, now, timeout).contains(c) implies s.contains(c)
        && live(c, now, timeout) by {
        let i = choose|i: int| 0 <= i < s.filter(pred).len() && s.filter(pred)[i] == c;
        assert(pred(s.filter(pred)[i]));
    }
}

/// A filter keeps a sequence all of whose elements it accepts unchanged.
proof fn lemma_filter_all_kept(s: Seq<Client>, pred: spec_fn(Client) -> bool)
    requires
        forall|i: int| 0 <= i < s.len() ==> pred(#[trigger] s[i]),
    ensures
        s.filter(pred) == s,
    decreases s.len(),
{
    reveal_with_fuel(Seq::filter, 2);
    if s.len() > 0 {
        lemma_filter_all_kept(s.drop_last(), pred);
        assert(pred(s.last()));
        assert(s.filter(pred) =~= s);
    } else {
        assert(s.filter(pred) =~= s);
    }
}

/// Two eviction passes with no time advance between them are one: the
/// second pass finds only live records and removes nothing.
pub proof fn lemma_expire_idempotent(s: Seq<Client>, now: u64, timeout: u64)
    ensures
        expire_spec(expire_spec(s, now, timeout), now, timeout) == expire_spec(s, now, timeout),
{
    let pred = |c: Client| live(c, now, timeout);
    lemma_filter_all_kept(s.filter(pred), pred);
}

/// What processing one update event leaves behind: the registry unchanged
/// for a malformed update, and an upsert of the sender's record for a
/// well-formed one.
pub open spec fn upsert_outcome(
    s: Seq<Client>,
    source: ClientId,
    fields: Seq<String>,
    interpreted: Option<ClientData>,
    now: u64,
) -> Seq<Client> {
    if fields.len() >= 2 && interpreted is Some {
        upsert_spec(s, source, interpreted->0, now)
    } else {
        s
    }
}

} // verus!
