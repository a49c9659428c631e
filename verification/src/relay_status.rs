//! Whether each relay is connected, and one alert when the whole pool has gone dark for too long.
//!
//! The alert about a blackout cannot be delivered while the blackout lasts: it waits in the outbox.
//! The status rows are what an operator reads in the meantime.

use crate::text::{cat2, cat5, decimal, decimal_text, owned};
use vstd::prelude::*;
use vstd::string::*;

verus! {

/// How long every relay must have been disconnected before the alert, in seconds.
pub const RELAY_BLACKOUT_ALERT_S: i64 = 900;

/// One relay of the pool. `last_connected_at` is empty for a relay that has never connected in this
/// process.
#[derive(Clone, Debug, PartialEq, Eq)]
pub struct RelayStatusRow {
    pub url: String,
    pub connected: bool,
    /// The pool's own word for the relay's state.
    pub status: String,
    pub last_connected_at: Option<i64>,
}

/// A count of seconds as a signed number; one of 2^63 or more comes out 2^64 less.
pub open spec fn as_signed(secs: u64) -> i64 {
    if secs <= i64::MAX {
        secs as i64
    } else {
        (secs - 0x1_0000_0000_0000_0000) as i64
    }
}

/// When a relay connected last; zero seconds mean that it never did.
pub open spec fn last_connection(secs: u64) -> Option<i64> {
    if secs == 0 {
        None
    } else {
        Some(as_signed(secs))
    }
}

/// Makes the row of one relay. Zero seconds mean that the relay has never connected.
pub fn project(url: String, status: &str, connected: bool, connected_at_secs: u64) -> (r: RelayStatusRow)
    ensures
        r.url == url,
        r.connected == connected,
        r.status@ == status@,
        r.last_connected_at == last_connection(connected_at_secs),
{
    let last_connected_at: Option<i64> = if connected_at_secs == 0 {
        None
    } else if connected_at_secs <= 0x7fff_ffff_ffff_ffff {
        Some(connected_at_secs as i64)
    } else {
        Some((connected_at_secs as i128 - 0x1_0000_0000_0000_0000) as i64)
    };
    RelayStatusRow { url, connected, status: owned(status), last_connected_at }
}

/// Whether there is a relay, and none is connected.
pub open spec fn dark(rows: Seq<RelayStatusRow>) -> bool {
    rows.len() > 0 && forall|i: int| 0 <= i < rows.len() ==> !(#[trigger] rows[i]).connected
}

/// Whether there is a relay, and none is connected. An empty pool is never a blackout.
pub fn all_disconnected(rows: &[RelayStatusRow]) -> (r: bool)
    ensures
        r == dark(rows@),
{
    let mut i: usize = 0;
    while i < rows.len()
        invariant
            i <= rows@.len(),
            forall|k: int| 0 <= k < i ==> !(#[trigger] rows@[k]).connected,
        decreases rows@.len() - i,
    {
        if rows[i].connected {
            return false;
        }
        i = i + 1;
    }
    rows.len() > 0
}

/// The last snapshot of the pool; at first an empty one.
#[derive(Debug)]
pub struct RelayStatusCell {
    rows: Vec<RelayStatusRow>,
}

impl RelayStatusCell {
    /// The rows of the last snapshot.
    pub closed spec fn rows(self) -> Seq<RelayStatusRow> {
        self.rows@
    }

    /// An empty snapshot.
    pub fn new() -> (r: RelayStatusCell)
        ensures
            r.rows() == Seq::<RelayStatusRow>::empty(),
    {
        RelayStatusCell { rows: Vec::new() }
    }

    /// Replaces the snapshot.
    pub fn set(&mut self, rows: Vec<RelayStatusRow>)
        ensures
            final(self).rows() == rows@,
    {
        self.rows = rows;
    }

    /// A copy of the snapshot.
    pub fn get(&self) -> (r: Vec<RelayStatusRow>)
        ensures
            r@ == self.rows(),
    {
        let mut out: Vec<RelayStatusRow> = Vec::new();
        let mut i: usize = 0;
        while i < self.rows.len()
            invariant
                i <= self.rows@.len(),
                out@ == self.rows@.take(i as int),
            decreases self.rows@.len() - i,
        {
            let row = &self.rows[i];
            out.push(
                RelayStatusRow {
                    url: row.url.clone(),
                    connected: row.connected,
                    status: row.status.clone(),
                    last_connected_at: row.last_connected_at,
                },
            );
            i = i + 1;
        }
        assert(self.rows@.take(i as int) =~= self.rows@);
        out
    }
}

impl Default for RelayStatusCell {
    fn default() -> (r: RelayStatusCell)
        ensures
            r.rows() == Seq::<RelayStatusRow>::empty(),
    {
        RelayStatusCell::new()
    }
}

/// When a blackout began, and whether its alert was raised.
pub struct Blackout {
    pub onset: Option<i64>,
    pub fired: bool,
}

impl Blackout {
    /// The state before anything was seen.
    pub open spec fn none() -> Blackout {
        Blackout { onset: None, fired: false }
    }

    /// The state after a snapshot, before the alert it calls for is raised.
    pub open spec fn seen(self, rows: Seq<RelayStatusRow>, now: i64) -> Blackout {
        if dark(rows) {
            Blackout {
                onset: if self.onset is Some {
                    self.onset
                } else {
                    Some(now)
                },
                ..self
            }
        } else {
            Blackout::none()
        }
    }

    /// Whether the alert is due: the blackout has lasted for long enough, and its alert was not
    /// raised yet.
    pub open spec fn due(self, now: i64) -> bool {
        self.onset matches Some(at) && !self.fired && now - at >= RELAY_BLACKOUT_ALERT_S
    }

    /// The state once the alert is raised.
    pub open spec fn raised(self) -> Blackout {
        Blackout { fired: true, ..self }
    }

    /// The state after a snapshot whose alert, if it is due, is raised at once.
    pub open spec fn observed(self, rows: Seq<RelayStatusRow>, now: i64) -> Blackout {
        let s = self.seen(rows, now);
        if s.due(now) {
            s.raised()
        } else {
            s
        }
    }
}

/// Watches for blackouts: raises one alert for each, once every relay has been disconnected for
/// [`RELAY_BLACKOUT_ALERT_S`] without a break. A single connected relay ends the blackout.
#[derive(Debug)]
pub struct RelayBlackoutMonitor {
    onset: Option<i64>,
    fired: bool,
}

impl View for RelayBlackoutMonitor {
    type V = Blackout;

    closed spec fn view(&self) -> Blackout {
        Blackout { onset: self.onset, fired: self.fired }
    }
}

impl Default for RelayBlackoutMonitor {
    fn default() -> (r: RelayBlackoutMonitor)
        ensures
            r@ == Blackout::none(),
    {
        RelayBlackoutMonitor::new()
    }
}

impl RelayBlackoutMonitor {
    /// A monitor that has seen nothing yet.
    pub fn new() -> (r: RelayBlackoutMonitor)
        ensures
            r@ == Blackout::none(),
    {
        RelayBlackoutMonitor { onset: None, fired: false }
    }

    /// Takes in a snapshot and says whether the alert is due, without counting it as raised.
    pub fn onset_due(&mut self, rows: &[RelayStatusRow], now: i64) -> (r: bool)
        ensures
            final(self)@ == old(self)@.seen(rows@, now),
            r == final(self)@.due(now),
    {
        if all_disconnected(rows) {
            let at: i64 = match self.onset {
                Some(at) => at,
                None => now,
            };
            self.onset = Some(at);
            !self.fired && now as i128 - at as i128 >= RELAY_BLACKOUT_ALERT_S as i128
        } else {
            self.onset = None;
            self.fired = false;
            false
        }
    }

    /// When the current blackout began.
    pub fn onset(&self) -> (r: Option<i64>)
        ensures
            r == self@.onset,
    {
        self.onset
    }

    /// Counts the alert as raised.
    pub fn mark_fired(&mut self)
        ensures
            final(self)@ == old(self)@.raised(),
    {
        self.fired = true;
    }

    /// Takes in a snapshot and says whether the alert is to be raised now, which counts it as raised.
    pub fn observe(&mut self, rows: &[RelayStatusRow], now: i64) -> (r: bool)
        ensures
            final(self)@ == old(self)@.observed(rows@, now),
            r == old(self)@.seen(rows@, now).due(now),
    {
        let due = self.onset_due(rows, now);
        if due {
            self.mark_fired();
        }
        due
    }
}

/// The subject of the alert about a blackout: one for each onset, so that a later blackout is a
/// subject of its own.
pub fn blackout_subject(onset: i64) -> (r: String)
    ensures
        r@ == "relay-pool@"@ + decimal(onset as int),
{
    let n = decimal_text(onset as i128);
    cat2("relay-pool@", &n)
}

/// The words of the alert about a blackout of a pool of so many relays.
pub fn blackout_detail(relays: usize) -> (r: String)
    ensures
        r@ == "all "@ + decimal(relays as int)
            + " configured relay(s) have been disconnected for over "@ + decimal(
            RELAY_BLACKOUT_ALERT_S as int / 60,
        )
            + "min. Inbound orders and outbound refund/billing DMs are not flowing. This alert itself queues until a relay reconnects — check relay reachability (`lnrent relays` reads the pool out-of-band)."@,
{
    let n = decimal_text(relays as i128);
    let m = decimal_text((RELAY_BLACKOUT_ALERT_S / 60) as i128);
    cat5(
        "all ",
        &n,
        " configured relay(s) have been disconnected for over ",
        &m,
        "min. Inbound orders and outbound refund/billing DMs are not flowing. This alert itself queues until a relay reconnects — check relay reachability (`lnrent relays` reads the pool out-of-band).",
    )
}

// ---- laws ------------------------------------------------------------------------------------

/// One look at the pool.
pub struct Look {
    pub rows: Seq<RelayStatusRow>,
    pub now: i64,
}

/// The state after a sequence of looks.
pub open spec fn after_looks(s: Blackout, looks: Seq<Look>) -> Blackout
    decreases looks.len(),
{
    if looks.len() == 0 {
        s
    } else {
        after_looks(s, looks.drop_last()).observed(looks.last().rows, looks.last().now)
    }
}

/// Whether the last of a sequence of looks raises the alert.
pub open spec fn raises(s: Blackout, looks: Seq<Look>) -> bool {
    looks.len() > 0 && after_looks(s, looks.drop_last()).seen(
        looks.last().rows,
        looks.last().now,
    ).due(looks.last().now)
}

/// Once the alert of a blackout is raised it is not raised again for as long as every look finds the
/// pool dark.
pub proof fn blackout_alerts_once(s: Blackout, looks: Seq<Look>)
    requires
        s.fired,
        s.onset is Some,
        forall|i: int| 0 <= i < looks.len() ==> dark((#[trigger] looks[i]).rows),
    ensures
        after_looks(s, looks) == s,
        !raises(s, looks),
    decreases looks.len(),
{
    if looks.len() > 0 {
        let init = looks.drop_last();
        assert forall|i: int| 0 <= i < init.len() implies dark((#[trigger] init[i]).rows) by {
            assert(dark(looks[i].rows));
        }
        blackout_alerts_once(s, init);
        assert(dark(looks[looks.len() - 1].rows));
    }
}

/// A blackout that lasts is noticed: from its first look on, the alert is raised by the first look
/// that comes [`RELAY_BLACKOUT_ALERT_S`] or more after that one, and by none before.
pub proof fn blackout_alerts_at_the_threshold(first: Look, between: Seq<Look>, last: Look)
    requires
        dark(first.rows),
        dark(last.rows),
        forall|i: int|
            0 <= i < between.len() ==> dark((#[trigger] between[i]).rows) && between[i].now
                - first.now < RELAY_BLACKOUT_ALERT_S,
    ensures
        raises(Blackout::none(), seq![first] + between + seq![last]) <==> last.now - first.now
            >= RELAY_BLACKOUT_ALERT_S,
{
    let looks = seq![first] + between;
    lemma_onset_held(first, between);
    assert((looks + seq![last]).drop_last() =~= looks);
}

proof fn lemma_onset_held(first: Look, between: Seq<Look>)
    requires
        dark(first.rows),
        forall|i: int|
            0 <= i < between.len() ==> dark((#[trigger] between[i]).rows) && between[i].now
                - first.now < RELAY_BLACKOUT_ALERT_S,
    ensures
        after_looks(Blackout::none(), seq![first] + between) == (Blackout {
            onset: Some(first.now),
            fired: false,
        }),
    decreases between.len(),
{
    let looks = seq![first] + between;
    if between.len() == 0 {
        assert(looks.drop_last() =~= Seq::empty());
        assert(looks.last() == first);
        assert(after_looks(Blackout::none(), looks.drop_last()) == Blackout::none());
    } else {
        let init = between.drop_last();
        assert forall|i: int| 0 <= i < init.len() implies dark((#[trigger] init[i]).rows)
            && init[i].now - first.now < RELAY_BLACKOUT_ALERT_S by {
            assert(dark(between[i].rows));
        }
        lemma_onset_held(first, init);
        assert(looks.drop_last() =~= seq![first] + init);
        assert(looks.last() == between[between.len() - 1]);
    }
}

/// A connected relay, or an empty pool, ends a blackout: the next one is alerted about anew.
pub proof fn connectivity_rearms(s: Blackout, rows: Seq<RelayStatusRow>, now: i64)
    requires
        !dark(rows),
    ensures
        s.observed(rows, now) == Blackout::none(),
        !s.seen(rows, now).due(now),
{
}

/// A count of seconds and the signed number that it comes out as differ by a multiple of 2^64; the same
/// where it is below 2^63.
pub proof fn signed_seconds_wrap_around(secs: u64)
    ensures
        as_signed(secs) == secs || as_signed(secs) == secs - 0x1_0000_0000_0000_0000,
        secs < 0x8000_0000_0000_0000 ==> as_signed(secs) == secs,
        secs >= 0x8000_0000_0000_0000 ==> as_signed(secs) < 0,
{
}

/// A pool is dark exactly where it has relays and none of them is connected: one more relay that is
/// connected lights it, and one that is not leaves a pool with relays as it is.
pub proof fn one_connected_relay_lights_the_pool(rows: Seq<RelayStatusRow>, r: RelayStatusRow)
    ensures
        !dark(Seq::<RelayStatusRow>::empty()),
        r.connected ==> !dark(rows.push(r)),
        !r.connected ==> (dark(rows.push(r)) <==> rows.len() == 0 || dark(rows)),
{
    let all = rows.push(r);
    assert(all[rows.len() as int] == r);
    if dark(all) {
        assert forall|i: int| 0 <= i < rows.len() implies !(#[trigger] rows[i]).connected by {
            assert(all[i] == rows[i]);
        }
    }
}

/// What a look at the pool leaves. A dark pool keeps the time at which it was first found dark, and one
/// that was found so only now has now as that time; the alert is due from fifteen minutes after it on,
/// once. A pool that is not dark leaves nothing.
pub proof fn blackout_is_timed_from_its_first_look(
    s: Blackout,
    rows: Seq<RelayStatusRow>,
    now: i64,
)
    ensures
        ({
            let from = if s.onset is Some {
                s.onset->0
            } else {
                now
            };
            let after = s.observed(rows, now);
            &&& dark(rows) ==> after.onset == Some(from)
            &&& dark(rows) ==> (s.seen(rows, now).due(now) <==> !s.fired && now - from >= 15 * 60)
            &&& dark(rows) ==> (after.fired <==> s.fired || now - from >= 15 * 60)
            &&& !dark(rows) ==> after.onset is None && !after.fired && !s.seen(rows, now).due(now)
        }),
{
}

/// A relay that connected at some second says so; only the second zero means that it never did.
pub proof fn only_zero_means_never_connected(secs: u64)
    ensures
        last_connection(secs) is None <==> secs == 0,
        0 < secs <= i64::MAX ==> (last_connection(secs) matches Some(at) && at == secs),
{
}

} // verus!
