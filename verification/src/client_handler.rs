//! The subscribers of the server: the registry that tracks who is alive, and
//! the unit that decides, for one subscriber, what is sent.
//!
//! Time is counted in milliseconds on the registry's own clock, which starts
//! when the registry is made. Every operation that depends on the time comes
//! in two forms: one that takes the time as an argument, and one that reads
//! the clock once and then does the same.

use crate::addr::{IpAddress, SocketAddress};
use crate::clock::{elapsed_since, instant_now, whole_millis};
use crate::quote::{quote_text, QuoteView, StockQuote};
use crate::target::UdpAddr;
use crate::tickers::Tickers;
use std::time::Instant;
use vstd::prelude::*;

verus! {

/// A time in whole milliseconds as the registry counts it: the time itself,
/// or the largest count where the time is larger.
pub open spec fn millis_count(millis: u128) -> u64 {
    if millis > u64::MAX {
        u64::MAX
    } else {
        millis as u64
    }
}

/// The count that the registry keeps for a time in whole milliseconds.
pub fn count_millis(millis: u128) -> (r: u64)
    ensures
        r == millis_count(millis),
{
    if millis > u64::MAX as u128 {
        u64::MAX
    } else {
        millis as u64
    }
}

/// One subscriber.
#[derive(Debug)]
pub struct ClientInfo {
    pub target: UdpAddr,
    pub tickers: Tickers,
    /// When the subscriber was last heard of, on the registry's clock.
    pub last_ping: u64,
    /// The address that the subscription came from.
    pub source_ip: IpAddress,
}

/// What a [`ClientInfo`] holds.
pub struct ClientRecord {
    pub target: UdpAddr,
    pub tickers: Seq<Seq<char>>,
    pub last_ping: u64,
    pub source_ip: IpAddress,
}

impl View for ClientInfo {
    type V = ClientRecord;

    open spec fn view(&self) -> ClientRecord {
        ClientRecord {
            target: self.target,
            tickers: self.tickers@,
            last_ping: self.last_ping,
            source_ip: self.source_ip,
        }
    }
}

impl Clone for ClientInfo {
    fn clone(&self) -> (r: Self)
        ensures
            r@ == self@,
    {
        ClientInfo {
            target: self.target,
            tickers: self.tickers.clone(),
            last_ping: self.last_ping,
            source_ip: self.source_ip,
        }
    }
}

impl ClientRecord {
    /// The time since the subscriber was last heard of; zero where the
    /// clock reads less than it did then.
    pub open spec fn silence(self, now: u64) -> int {
        if now >= self.last_ping {
            now - self.last_ping
        } else {
            0
        }
    }

    /// Whether the subscriber has been silent for longer than `timeout`.
    pub open spec fn is_expired(self, timeout: u64, now: u64) -> bool {
        self.silence(now) > timeout
    }

    /// The record after the subscriber was heard of at `now`.
    pub open spec fn touched(self, now: u64) -> ClientRecord {
        ClientRecord { last_ping: now, ..self }
    }
}

impl ClientInfo {
    /// A subscriber that was last heard of at `now`.
    pub fn new(target: UdpAddr, tickers: Tickers, source_ip: IpAddress, now: u64) -> (r: ClientInfo)
        ensures
            r@ == (ClientRecord { target, tickers: tickers@, last_ping: now, source_ip }),
    {
        ClientInfo { target, tickers, last_ping: now, source_ip }
    }

    /// Notes that the subscriber was heard of at `now`.
    pub fn touch(&mut self, now: u64)
        ensures
            final(self)@ == old(self)@.touched(now),
    {
        self.last_ping = now;
    }

    /// Whether the subscriber has been silent for longer than `timeout`.
    pub fn is_expired(&self, timeout: u64, now: u64) -> (r: bool)
        ensures
            r == self@.is_expired(timeout, now),
    {
        if now >= self.last_ping {
            now - self.last_ping > timeout
        } else {
            false
        }
    }

    /// Whether the subscriber asked for `ticker`.
    pub fn is_subscribed(&self, ticker: &str) -> (r: bool)
        ensures
            r == self@.tickers.contains(ticker@),
    {
        self.tickers.contains(ticker)
    }
}

/// The targets of `records`, in their order.
pub open spec fn targets_of(records: Seq<ClientRecord>) -> Seq<UdpAddr> {
    records.map_values(|r: ClientRecord| r.target)
}

/// The place of the record for `target`, or the length where there is none.
pub open spec fn place_of(records: Seq<ClientRecord>, target: UdpAddr) -> int
    decreases records.len(),
{
    if records.len() == 0 {
        0
    } else if records[0].target == target {
        0
    } else {
        1 + place_of(records.drop_first(), target)
    }
}

/// The place of the first record that came from `source`, or the length
/// where there is none.
pub open spec fn place_from(records: Seq<ClientRecord>, source: IpAddress) -> int
    decreases records.len(),
{
    if records.len() == 0 {
        0
    } else if records[0].source_ip == source {
        0
    } else {
        1 + place_from(records.drop_first(), source)
    }
}

/// Whether there is a record for `target`.
pub open spec fn has_target(records: Seq<ClientRecord>, target: UdpAddr) -> bool {
    exists|i: int| 0 <= i < records.len() && (#[trigger] records[i]).target == target
}

/// The records after a subscription of `record.target`: a record for the
/// same target is replaced where it stands, any other target is added at
/// the end.
pub open spec fn registered(records: Seq<ClientRecord>, record: ClientRecord) -> Seq<
    ClientRecord,
> {
    let at = place_of(records, record.target);
    if at < records.len() {
        records.update(at, record)
    } else {
        records.push(record)
    }
}

/// The records after the one at `at` was heard of at `now`; the same
/// records where `at` is no place.
pub open spec fn touched_at(records: Seq<ClientRecord>, at: int, now: u64) -> Seq<
    ClientRecord,
> {
    if 0 <= at < records.len() {
        records.update(at, records[at].touched(now))
    } else {
        records
    }
}

/// The records that have been silent for longer than `timeout`.
pub open spec fn expired(records: Seq<ClientRecord>, timeout: u64, now: u64) -> Seq<
    ClientRecord,
> {
    records.filter(|r: ClientRecord| r.is_expired(timeout, now))
}

/// The records that have not been silent for longer than `timeout`.
pub open spec fn alive(records: Seq<ClientRecord>, timeout: u64, now: u64) -> Seq<ClientRecord> {
    records.filter(|r: ClientRecord| !r.is_expired(timeout, now))
}

/// The records without the one for `target`.
pub open spec fn without(records: Seq<ClientRecord>, target: UdpAddr) -> Seq<ClientRecord> {
    records.filter(|r: ClientRecord| r.target != target)
}

pub proof fn lemma_place_of(records: Seq<ClientRecord>, target: UdpAddr)
    ensures
        0 <= place_of(records, target) <= records.len(),
        place_of(records, target) < records.len() <==> has_target(records, target),
        place_of(records, target) < records.len() ==> records[place_of(records, target)].target
            == target,
        forall|j: int|
            0 <= j < place_of(records, target) ==> (#[trigger] records[j]).target != target,
    decreases records.len(),
{
    if records.len() > 0 {
        if records[0].target != target {
            let rest = records.drop_first();
            lemma_place_of(rest, target);
            let at = place_of(rest, target);
            if has_target(records, target) {
                let i = choose|i: int|
                    0 <= i < records.len() && (#[trigger] records[i]).target == target;
                assert(rest[i - 1].target == target);
            }
            if at < rest.len() {
                assert(records[at + 1] == rest[at]);
            }
            assert forall|j: int| 0 <= j < at + 1 implies (#[trigger] records[j]).target
                != target by {
                if j > 0 {
                    assert(records[j] == rest[j - 1]);
                }
            }
        }
    }
}

pub proof fn lemma_place_from(records: Seq<ClientRecord>, source: IpAddress)
    ensures
        0 <= place_from(records, source) <= records.len(),
        place_from(records, source) < records.len() ==> records[place_from(
            records,
            source,
        )].source_ip == source,
        forall|j: int|
            0 <= j < place_from(records, source) ==> (#[trigger] records[j]).source_ip != source,
    decreases records.len(),
{
    if records.len() > 0 {
        if records[0].source_ip != source {
            let rest = records.drop_first();
            lemma_place_from(rest, source);
            let at = place_from(rest, source);
            if at < rest.len() {
                assert(records[at + 1] == rest[at]);
            }
            assert forall|j: int| 0 <= j < at + 1 implies (#[trigger] records[j]).source_ip
                != source by {
                if j > 0 {
                    assert(records[j] == rest[j - 1]);
                }
            }
        }
    }
}

/// The first place with a given property is the place that a search from
/// the left finds.
proof fn lemma_place_of_is(records: Seq<ClientRecord>, target: UdpAddr, at: int)
    requires
        0 <= at <= records.len(),
        forall|j: int| 0 <= j < at ==> (#[trigger] records[j]).target != target,
        at < records.len() ==> records[at].target == target,
    ensures
        place_of(records, target) == at,
{
    lemma_place_of(records, target);
}

proof fn lemma_place_from_is(records: Seq<ClientRecord>, source: IpAddress, at: int)
    requires
        0 <= at <= records.len(),
        forall|j: int| 0 <= j < at ==> (#[trigger] records[j]).source_ip != source,
        at < records.len() ==> records[at].source_ip == source,
    ensures
        place_from(records, source) == at,
{
    lemma_place_from(records, source);
}

/// The texts of a list of subscribers.
pub open spec fn records_of(clients: Seq<ClientInfo>) -> Seq<ClientRecord> {
    clients.map_values(|c: ClientInfo| c@)
}

/// The registry of subscribers: at most one record for each target, in the
/// order in which the targets were first registered.
pub struct ClientManager {
    clients: Vec<ClientInfo>,
    ping_timeout: u64,
    started: Instant,
}

impl View for ClientManager {
    type V = Seq<ClientRecord>;

    closed spec fn view(&self) -> Seq<ClientRecord> {
        records_of(self.clients@)
    }
}

impl ClientManager {
    /// The timeout of a registry that is made by default, in milliseconds.
    pub const DEFAULT_PING_TIMEOUT: u64 = 5000;

    /// No target has two records.
    #[verifier::type_invariant]
    closed spec fn distinct_targets(self) -> bool {
        targets_of(self@).no_duplicates()
    }

    /// The time after which a silent subscriber is removed, in milliseconds.
    pub closed spec fn timeout(self) -> u64 {
        self.ping_timeout
    }

    /// An empty registry with the given timeout in milliseconds. Its clock
    /// starts now.
    pub fn new(ping_timeout: u64) -> (r: ClientManager)
        ensures
            r@ == Seq::<ClientRecord>::empty(),
            r.timeout() == ping_timeout,
    {
        let clients: Vec<ClientInfo> = Vec::new();
        assert(records_of(clients@) == Seq::<ClientRecord>::empty());
        ClientManager { clients, ping_timeout, started: instant_now() }
    }

    /// What the registry's clock reads: the milliseconds since the registry
    /// was made, as [`count_millis`] counts them.
    pub fn now(&self) -> u64 {
        let span = elapsed_since(&self.started);
        count_millis(whole_millis(&span))
    }

    pub fn ping_timeout(&self) -> (r: u64)
        ensures
            r == self.timeout(),
    {
        self.ping_timeout
    }

    /// The place of the record for `target`, or the length where there is
    /// none.
    fn find(&self, target: &UdpAddr) -> (at: usize)
        ensures
            at == place_of(self@, *target),
            at <= self@.len(),
            at == self.clients.len() || at < self.clients.len(),
    {
        let mut i: usize = 0;
        while i < self.clients.len()
            invariant
                i <= self.clients.len(),
                forall|j: int| 0 <= j < i ==> (#[trigger] self@[j]).target != *target,
            decreases self.clients.len() - i,
        {
            if self.clients[i].target == *target {
                proof {
                    assert(self@[i as int].target == *target);
                    lemma_place_of_is(self@, *target, i as int);
                }
                return i;
            }
            i += 1;
        }
        proof {
            lemma_place_of_is(self@, *target, i as int);
        }
        i
    }

    /// Registers a subscriber that is heard of at `now`. A record for the
    /// same target is replaced.
    pub fn register_at(
        &mut self,
        target: UdpAddr,
        tickers: &Tickers,
        source_ip: IpAddress,
        now: u64,
    )
        ensures
            final(self)@ == registered(
                old(self)@,
                ClientRecord { target, tickers: tickers@, last_ping: now, source_ip },
            ),
            final(self).timeout() == old(self).timeout(),
    {
        proof {
            use_type_invariant(&*self);
            lemma_place_of(self@, target);
        }
        let client = ClientInfo::new(target, tickers.clone(), source_ip, now);
        let at = self.find(&target);
        let ghost before = self@;
        let ghost record = client@;
        let mut clients: Vec<ClientInfo> = Vec::new();
        proof {
            lemma_no_records_are_distinct(clients@);
        }
        std::mem::swap(&mut self.clients, &mut clients);
        if at < clients.len() {
            clients.set(at, client);
            proof {
                assert(records_of(clients@) == before.update(at as int, record));
                assert(targets_of(records_of(clients@)) == targets_of(before));
            }
        } else {
            clients.push(client);
            proof {
                let after = records_of(clients@);
                assert(after == before.push(record));
                assert(targets_of(after) == targets_of(before).push(target));
                assert forall|i: int, j: int|
                    0 <= i < targets_of(after).len() && 0 <= j < targets_of(after).len() && i
                        != j implies targets_of(after)[i] != targets_of(after)[j] by {
                    if i < before.len() && j < before.len() {
                        assert(targets_of(before)[i] != targets_of(before)[j]);
                    } else if i < before.len() {
                        assert(before[i].target != target);
                    } else {
                        assert(before[j].target != target);
                    }
                }
            }
        }
        self.clients = clients;
    }

    /// Registers a subscriber that is heard of now.
    pub fn register(&mut self, target: UdpAddr, tickers: &Tickers, source_ip: IpAddress)
        ensures
            exists|now: u64|
                final(self)@ == registered(
                    old(self)@,
                    ClientRecord { target, tickers: tickers@, last_ping: now, source_ip },
                ),
            final(self).timeout() == old(self).timeout(),
    {
        let now = self.now();
        self.register_at(target, tickers, source_ip, now);
    }

    /// Notes at `now` a heartbeat of the subscriber with `target`. Says
    /// whether there is such a subscriber; where there is none, nothing
    /// changes.
    pub fn update_ping_at(&mut self, target: &UdpAddr, now: u64) -> (found: bool)
        ensures
            found == has_target(old(self)@, *target),
            final(self)@ == touched_at(old(self)@, place_of(old(self)@, *target), now),
            !found ==> final(self)@ == old(self)@,
            final(self)@.len() == old(self)@.len(),
            final(self).timeout() == old(self).timeout(),
    {
        proof {
            use_type_invariant(&*self);
            lemma_place_of(self@, *target);
        }
        let at = self.find(target);
        self.touch_place(at, now)
    }

    /// Notes a heartbeat of the subscriber with `target`, heard now.
    pub fn update_ping(&mut self, target: &UdpAddr) -> (found: bool)
        ensures
            found == has_target(old(self)@, *target),
            exists|now: u64|
                final(self)@ == touched_at(old(self)@, place_of(old(self)@, *target), now),
            !found ==> final(self)@ == old(self)@,
            final(self)@.len() == old(self)@.len(),
            final(self).timeout() == old(self).timeout(),
    {
        let now = self.now();
        self.update_ping_at(target, now)
    }

    /// Notes at `now` a heartbeat that came from `source_addr`: the first
    /// subscriber whose subscription came from the same IP address is heard
    /// of. Says whether there is one; where there is none, nothing changes.
    pub fn update_ping_by_source_at(&mut self, source_addr: &SocketAddress, now: u64) -> (found:
        bool)
        ensures
            found == (place_from(old(self)@, source_addr.spec_ip()) < old(self)@.len()),
            final(self)@ == touched_at(
                old(self)@,
                place_from(old(self)@, source_addr.spec_ip()),
                now,
            ),
            !found ==> final(self)@ == old(self)@,
            final(self)@.len() == old(self)@.len(),
            final(self).timeout() == old(self).timeout(),
    {
        let source = source_addr.ip();
        let mut at: usize = 0;
        while at < self.clients.len() && self.clients[at].source_ip != source
            invariant
                at <= self.clients.len(),
                forall|j: int| 0 <= j < at ==> (#[trigger] self@[j]).source_ip != source,
            decreases self.clients.len() - at,
        {
            at += 1;
        }
        proof {
            if at < self.clients.len() {
                assert(self@[at as int].source_ip == source);
            }
            lemma_place_from_is(self@, source, at as int);
        }
        self.touch_place(at, now)
    }

    /// Notes a heartbeat that came from `source_addr`, heard now.
    pub fn update_ping_by_source(&mut self, source_addr: &SocketAddress) -> (found: bool)
        ensures
            found == (place_from(old(self)@, source_addr.spec_ip()) < old(self)@.len()),
            exists|now: u64|
                final(self)@ == touched_at(
                    old(self)@,
                    place_from(old(self)@, source_addr.spec_ip()),
                    now,
                ),
            !found ==> final(self)@ == old(self)@,
            final(self)@.len() == old(self)@.len(),
            final(self).timeout() == old(self).timeout(),
    {
        let now = self.now();
        self.update_ping_by_source_at(source_addr, now)
    }

    /// Notes at `now` that the subscriber at `at` was heard of.
    fn touch_place(&mut self, at: usize, now: u64) -> (found: bool)
        requires
            at <= old(self)@.len(),
        ensures
            found == (at < old(self)@.len()),
            final(self)@ == touched_at(old(self)@, at as int, now),
            final(self)@.len() == old(self)@.len(),
            final(self).timeout() == old(self).timeout(),
    {
        proof {
            use_type_invariant(&*self);
        }
        if at < self.clients.len() {
            let ghost before = self@;
            let mut client = self.clients[at].clone();
            client.touch(now);
            let mut clients: Vec<ClientInfo> = Vec::new();
            proof {
                lemma_no_records_are_distinct(clients@);
            }
            std::mem::swap(&mut self.clients, &mut clients);
            clients.set(at, client);
            proof {
                let after = records_of(clients@);
                assert(after == before.update(at as int, before[at as int].touched(now)));
                assert(targets_of(after) == targets_of(before));
            }
            self.clients = clients;
            true
        } else {
            false
        }
    }

    /// Removes the subscriber with `target`, if there is one.
    pub fn remove(&mut self, target: &UdpAddr)
        ensures
            final(self)@ == without(old(self)@, *target),
            !has_target(final(self)@, *target),
            final(self).timeout() == old(self).timeout(),
    {
        proof {
            use_type_invariant(&*self);
        }
        let ghost before = self@;
        let ghost keep = |r: ClientRecord| r.target != *target;
        let mut kept: Vec<ClientInfo> = Vec::new();
        let mut i: usize = 0;
        assert(records_of(kept@) == before.take(0).filter(keep));
        while i < self.clients.len()
            invariant
                i <= self.clients.len(),
                before == self@,
                keep == (|r: ClientRecord| r.target != *target),
                records_of(kept@) == before.take(i as int).filter(keep),
            decreases self.clients.len() - i,
        {
            proof {
                assert(before.take(i + 1) == before.take(i as int).push(before[i as int]));
                Seq::lemma_filter_push(before.take(i as int), before[i as int], keep);
            }
            let ghost so_far = records_of(kept@);
            if self.clients[i].target != *target {
                let client = self.clients[i].clone();
                kept.push(client);
                assert(records_of(kept@) == so_far.push(before[i as int]));
            }
            i += 1;
        }
        proof {
            assert(before.take(before.len() as int) == before);
            lemma_filter_keeps_distinct(before, keep);
            if has_target(before.filter(keep), *target) {
                let k = choose|k: int|
                    0 <= k < before.filter(keep).len() && (#[trigger] before.filter(
                        keep,
                    )[k]).target == *target;
                Seq::lemma_filter_pred(before, keep, k);
            }
        }
        self.clients = kept;
    }

    /// Removes at `now` every subscriber that has been silent for longer
    /// than the timeout, and returns their targets, in the order of their
    /// records. All subscribers are judged by the one reading `now`.
    pub fn remove_expired_at(&mut self, now: u64) -> (removed: Vec<UdpAddr>)
        ensures
            final(self)@ == alive(old(self)@, old(self).timeout(), now),
            removed@ == targets_of(expired(old(self)@, old(self).timeout(), now)),
            final(self).timeout() == old(self).timeout(),
    {
        proof {
            use_type_invariant(&*self);
        }
        let timeout = self.ping_timeout;
        let ghost before = self@;
        let ghost gone = |r: ClientRecord| r.is_expired(timeout, now);
        let ghost stay = |r: ClientRecord| !r.is_expired(timeout, now);
        let ghost target_of = |r: ClientRecord| r.target;
        let mut kept: Vec<ClientInfo> = Vec::new();
        let mut removed: Vec<UdpAddr> = Vec::new();
        let mut i: usize = 0;
        assert(records_of(kept@) == before.take(0).filter(stay));
        assert(removed@ == before.take(0).filter(gone).map_values(target_of));
        while i < self.clients.len()
            invariant
                i <= self.clients.len(),
                before == self@,
                timeout == self.ping_timeout,
                gone == (|r: ClientRecord| r.is_expired(timeout, now)),
                stay == (|r: ClientRecord| !r.is_expired(timeout, now)),
                target_of == (|r: ClientRecord| r.target),
                records_of(kept@) == before.take(i as int).filter(stay),
                removed@ == before.take(i as int).filter(gone).map_values(target_of),
            decreases self.clients.len() - i,
        {
            proof {
                assert(before.take(i + 1) == before.take(i as int).push(before[i as int]));
                Seq::lemma_filter_push(before.take(i as int), before[i as int], stay);
                Seq::lemma_filter_push(before.take(i as int), before[i as int], gone);
            }
            let ghost so_far = records_of(kept@);
            let ghost out_so_far = before.take(i as int).filter(gone);
            if self.clients[i].is_expired(timeout, now) {
                removed.push(self.clients[i].target);
                assert(removed@ == out_so_far.push(before[i as int]).map_values(target_of));
            } else {
                let client = self.clients[i].clone();
                kept.push(client);
                assert(records_of(kept@) == so_far.push(before[i as int]));
            }
            i += 1;
        }
        proof {
            assert(before.take(before.len() as int) == before);
            lemma_filter_keeps_distinct(before, stay);
        }
        self.clients = kept;
        removed
    }

    /// Removes every subscriber that has been silent for longer than the
    /// timeout, judged by one reading of the clock, and returns their
    /// targets.
    pub fn remove_expired(&mut self) -> (removed: Vec<UdpAddr>)
        ensures
            exists|now: u64|
                final(self)@ == alive(old(self)@, old(self).timeout(), now) && removed@
                    == targets_of(expired(old(self)@, old(self).timeout(), now)),
            final(self).timeout() == old(self).timeout(),
    {
        let now = self.now();
        self.remove_expired_at(now)
    }

    /// A copy of all records, in the order of the registry. No target has
    /// two records.
    pub fn snapshot(&self) -> (r: Vec<ClientInfo>)
        ensures
            records_of(r@) == self@,
            targets_of(self@).no_duplicates(),
    {
        proof {
            use_type_invariant(self);
        }
        let mut out: Vec<ClientInfo> = Vec::new();
        let mut i: usize = 0;
        assert(records_of(out@) == self@.take(0));
        while i < self.clients.len()
            invariant
                i <= self.clients.len(),
                records_of(out@) == self@.take(i as int),
            decreases self.clients.len() - i,
        {
            let ghost so_far = records_of(out@);
            let client = self.clients[i].clone();
            out.push(client);
            assert(records_of(out@) == so_far.push(self@[i as int]));
            i += 1;
        }
        assert(self@.take(self@.len() as int) == self@);
        out
    }

    /// The number of subscribers.
    pub fn count(&self) -> (n: usize)
        ensures
            n == self@.len(),
    {
        self.clients.len()
    }

    /// Whether there is a subscriber with `target`.
    pub fn contains(&self, target: &UdpAddr) -> (r: bool)
        ensures
            r == has_target(self@, *target),
    {
        proof {
            lemma_place_of(self@, *target);
        }
        let at = self.find(target);
        at < self.clients.len()
    }
}

impl Default for ClientManager {
    fn default() -> (r: ClientManager)
        ensures
            r@ == Seq::<ClientRecord>::empty(),
            r.timeout() == ClientManager::DEFAULT_PING_TIMEOUT,
    {
        ClientManager::new(ClientManager::DEFAULT_PING_TIMEOUT)
    }
}

proof fn lemma_no_records_are_distinct(clients: Seq<ClientInfo>)
    requires
        clients.len() == 0,
    ensures
        targets_of(records_of(clients)).no_duplicates(),
{
}

/// Leaving records out keeps the targets distinct.
proof fn lemma_filter_keeps_distinct(records: Seq<ClientRecord>, keep: spec_fn(ClientRecord) -> bool)
    requires
        targets_of(records).no_duplicates(),
    ensures
        targets_of(records.filter(keep)).no_duplicates(),
    decreases records.len(),
{
    reveal(Seq::filter);
    if records.len() > 0 {
        let init = records.drop_last();
        let last = records.last();
        assert forall|i: int, j: int|
            0 <= i < init.len() && 0 <= j < init.len() && i != j implies targets_of(init)[i]
            != targets_of(init)[j] by {
            assert(targets_of(records)[i] != targets_of(records)[j]);
        }
        lemma_filter_keeps_distinct(init, keep);
        let kept = init.filter(keep);
        if keep(last) {
            assert(records.filter(keep) == kept.push(last));
            assert forall|i: int, j: int|
                0 <= i < kept.len() + 1 && 0 <= j < kept.len() + 1 && i != j implies targets_of(
                kept.push(last),
            )[i] != targets_of(kept.push(last))[j] by {
                if i < kept.len() && j < kept.len() {
                    assert(targets_of(kept)[i] != targets_of(kept)[j]);
                } else {
                    let k = if i < kept.len() {
                        i
                    } else {
                        j
                    };
                    assert(kept.contains(kept[k]));
                    Seq::lemma_filter_contains_rev(init, keep, kept[k]);
                    assert(init.contains(kept[k]));
                    let m = choose|m: int| 0 <= m < init.len() && init[m] == kept[k];
                    assert(targets_of(records)[m] != targets_of(records)[records.len() - 1]);
                }
            }
        } else {
            assert(records.filter(keep) == kept);
        }
    }
}

/// A subscriber that has just been registered is swept exactly when it has
/// been silent for longer than the timeout: its target is among the swept
/// ones if and only if the time since its registration exceeds the timeout.
/// In a registry that held no one else, the sweep returns nothing in the one
/// case and exactly that target in the other.
pub proof fn law_sweep_after_register(
    records: Seq<ClientRecord>,
    record: ClientRecord,
    timeout: u64,
    now: u64,
)
    requires
        targets_of(records).no_duplicates(),
    ensures
        targets_of(expired(registered(records, record), timeout, now)).contains(record.target)
            <==> record.is_expired(timeout, now),
        records.len() == 0 ==> targets_of(expired(registered(records, record), timeout, now)) == (
        if record.is_expired(timeout, now) {
            seq![record.target]
        } else {
            Seq::<UdpAddr>::empty()
        }),
{
    let gone = |r: ClientRecord| r.is_expired(timeout, now);
    let after = registered(records, record);
    let swept = after.filter(gone);
    let at = place_of(records, record.target);
    lemma_place_of(records, record.target);
    assert(after[at] == record);
    assert forall|j: int| 0 <= j < after.len() && j != at implies (#[trigger] after[j]).target
        != record.target by {
        if at < records.len() {
            assert(after[j] == records[j]);
            assert(targets_of(records)[j] != targets_of(records)[at]);
        } else {
            assert(after[j] == records[j]);
            if records[j].target == record.target {
                assert(has_target(records, record.target));
            }
        }
    }
    if record.is_expired(timeout, now) {
        Seq::lemma_filter_contains(after, gone, at);
        let k = choose|k: int| 0 <= k < swept.len() && swept[k] == record;
        assert(targets_of(swept)[k] == record.target);
    }
    if targets_of(swept).contains(record.target) {
        let k = choose|k: int| 0 <= k < targets_of(swept).len() && targets_of(swept)[k]
            == record.target;
        Seq::lemma_filter_pred(after, gone, k);
        assert(swept.contains(swept[k]));
        Seq::lemma_filter_contains_rev(after, gone, swept[k]);
        let j = choose|j: int| 0 <= j < after.len() && after[j] == swept[k];
        assert(j == at);
    }
    if records.len() == 0 {
        assert(after == seq![record]);
        reveal(Seq::filter);
        assert(after.drop_last().filter(gone) == Seq::<ClientRecord>::empty());
        if record.is_expired(timeout, now) {
            assert(swept == seq![record]);
            assert(targets_of(swept) == seq![record.target]);
        } else {
            assert(swept == Seq::<ClientRecord>::empty());
            assert(targets_of(swept) == Seq::<UdpAddr>::empty());
        }
    }
}

/// A heartbeat for a target that is not registered changes nothing: the
/// records, and with them their number, stay as they are.
pub proof fn law_unknown_heartbeat(records: Seq<ClientRecord>, target: UdpAddr, now: u64)
    requires
        !has_target(records, target),
    ensures
        touched_at(records, place_of(records, target), now) == records,
{
    lemma_place_of(records, target);
}

// ---------------------------------------------------------------------------
// The streaming unit
// ---------------------------------------------------------------------------

/// Whether a streaming unit still runs. `Stopped` is final.
#[derive(Clone, Copy, Debug, PartialEq, Eq, Structural)]
pub enum StreamerState {
    Running,
    Stopped,
}

/// What a look at the stop signal found.
#[derive(Clone, Copy, Debug, PartialEq, Eq, Structural)]
pub enum StopPoll {
    /// A stop was signalled.
    Signalled,
    /// The sender of the signal is gone.
    Disconnected,
    /// Nothing was signalled.
    Empty,
}

/// What waiting for the next update brought.
#[derive(Debug)]
pub enum QuotePoll {
    Quote(StockQuote),
    /// The wait ran out.
    Timeout,
    /// No update will ever come.
    Disconnected,
}

/// What the unit's owner is to do next.
#[derive(Debug, PartialEq, Eq)]
pub enum StreamerAction {
    /// Send these bytes to the subscriber, then go on.
    Send(Vec<u8>),
    /// Go on.
    Continue,
    /// Leave the loop: the unit has stopped.
    Exit,
}

/// What a [`StreamerAction`] holds.
pub enum ActionView {
    Send(Seq<u8>),
    Continue,
    Exit,
}

impl View for StreamerAction {
    type V = ActionView;

    open spec fn view(&self) -> ActionView {
        match self {
            StreamerAction::Send(bytes) => ActionView::Send(bytes@),
            StreamerAction::Continue => ActionView::Continue,
            StreamerAction::Exit => ActionView::Exit,
        }
    }
}

/// The bytes that carry a quote: its text form in UTF-8.
pub open spec fn datagram_of(quote: QuoteView) -> Seq<u8> {
    vstd::utf8::encode_utf8(quote_text(quote))
}

/// The unit that decides what one subscriber is sent.
pub struct ClientStreamer {
    addr: UdpAddr,
    tickers: Tickers,
    state: StreamerState,
}

impl ClientStreamer {
    /// How long the owner waits for the next update before it looks at the
    /// stop signal again, in milliseconds.
    pub const QUOTE_POLL_INTERVAL: u64 = 10;

    pub closed spec fn target(self) -> UdpAddr {
        self.addr
    }

    pub closed spec fn topics(self) -> Seq<Seq<char>> {
        self.tickers@
    }

    pub closed spec fn spec_state(self) -> StreamerState {
        self.state
    }

    /// A running unit for the subscriber at `addr`.
    pub fn new(addr: UdpAddr, tickers: Tickers) -> (r: ClientStreamer)
        ensures
            r.target() == addr,
            r.topics() == tickers@,
            r.spec_state() == StreamerState::Running,
    {
        ClientStreamer { addr, tickers, state: StreamerState::Running }
    }

    pub fn addr(&self) -> (r: UdpAddr)
        ensures
            r == self.target(),
    {
        self.addr
    }

    pub fn tickers(&self) -> (r: &Tickers)
        ensures
            r@ == self.topics(),
    {
        &self.tickers
    }

    pub fn state(&self) -> (r: StreamerState)
        ensures
            r == self.spec_state(),
    {
        self.state
    }

    /// The first half of a round: the look at the stop signal. A signal, or
    /// the loss of its sender, stops the unit; the answer says whether the
    /// unit still runs.
    pub fn on_stop_poll(&mut self, poll: StopPoll) -> (running: bool)
        ensures
            final(self).target() == old(self).target(),
            final(self).topics() == old(self).topics(),
            final(self).spec_state() == (if old(self).spec_state() == StreamerState::Running
                && poll == StopPoll::Empty {
                StreamerState::Running
            } else {
                StreamerState::Stopped
            }),
            running == (final(self).spec_state() == StreamerState::Running),
    {
        match self.state {
            StreamerState::Stopped => false,
            StreamerState::Running => match poll {
                StopPoll::Empty => true,
                StopPoll::Signalled => {
                    self.state = StreamerState::Stopped;
                    false
                },
                StopPoll::Disconnected => {
                    self.state = StreamerState::Stopped;
                    false
                },
            },
        }
    }

    /// The second half of a round: what the wait for an update brought. An
    /// update for one of the subscriber's topics is to be sent, any other is
    /// dropped; the end of the updates stops the unit. A stopped unit sends
    /// nothing.
    pub fn on_quote_poll(&mut self, poll: &QuotePoll) -> (action: StreamerAction)
        ensures
            final(self).target() == old(self).target(),
            final(self).topics() == old(self).topics(),
            final(self).spec_state() == (if old(self).spec_state() == StreamerState::Running
                && !(poll is Disconnected) {
                StreamerState::Running
            } else {
                StreamerState::Stopped
            }),
            action@ == (if final(self).spec_state() == StreamerState::Stopped {
                ActionView::Exit
            } else {
                match poll {
                    QuotePoll::Quote(quote) => if old(self).topics().contains(quote@.ticker) {
                        ActionView::Send(datagram_of(quote@))
                    } else {
                        ActionView::Continue
                    },
                    _ => ActionView::Continue,
                }
            }),
    {
        match self.state {
            StreamerState::Stopped => StreamerAction::Exit,
            StreamerState::Running => match poll {
                QuotePoll::Quote(quote) => match self.maybe_send_quote(quote) {
                    Some(bytes) => StreamerAction::Send(bytes),
                    None => StreamerAction::Continue,
                },
                QuotePoll::Timeout => StreamerAction::Continue,
                QuotePoll::Disconnected => {
                    self.state = StreamerState::Stopped;
                    StreamerAction::Exit
                },
            },
        }
    }

    /// The datagram for `quote`, where the subscriber asked for its ticker.
    pub fn maybe_send_quote(&self, quote: &StockQuote) -> (r: Option<Vec<u8>>)
        ensures
            match r {
                Some(bytes) => self.topics().contains(quote@.ticker) && bytes@ == datagram_of(
                    quote@,
                ),
                None => !self.topics().contains(quote@.ticker),
            },
    {
        if !self.tickers.contains(quote.ticker.as_str()) {
            return None;
        }
        Some(quote.to_bytes())
    }
}

} // verus!
