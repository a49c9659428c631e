//! Whether the refunds that are owed could be paid: what they would cost against what the books hold,
//! and whether the gateway and the federation can be reached.

use crate::outside::bolt11;
use crate::refund::{gen_key, parse_whole_sat, pay_key, sat_result, whole_sat_of, PayStatus};
use crate::store::{RefundAttemptLiability, RefundReadinessLiability, RefundReadinessSource};
use crate::text::same;
use vstd::prelude::*;
use vstd::string::*;

verus! {

// ---- pricing one liability -------------------------------------------------------------------

/// Where pricing a pending refund stands.
#[derive(Debug)]
pub enum PriceStage {
    /// The status of its current payment.
    Status,
    /// That status is unknown: whether the payment was started.
    Started,
    /// What a payment would take of the books.
    Outlay,
    Finished(Result<u128, String>),
}

/// What pricing asks to be done next.
#[derive(Debug)]
pub enum PriceAsk {
    Status { key: String },
    Started { key: String },
    /// Ask the backend what refunding `gross_sat` takes, of which `pay_sat` reaches the buyer if that
    /// is fixed.
    Outlay { gross_sat: u64, pay_sat: Option<u64> },
    Done(Result<u128, String>),
}

/// What came of it.
#[derive(Debug)]
pub enum PriceEvent {
    Status(Result<PayStatus, String>),
    Started(Result<bool, String>),
    Outlay(Result<u128, String>),
}

/// Prices one pending refund: what is in flight or paid takes nothing more, and anything else takes
/// what the backend says.
#[derive(Debug)]
pub struct Pricing {
    pub key: String,
    pub gross_sat: u64,
    pub pay_sat: Option<u64>,
    pub stage: PriceStage,
}

/// The key and the payout by which a pending refund is priced, if it has an invoice: the one its
/// destination was resolved to, or else the destination itself where it is one.
pub open spec fn priced_by(
    external_id: Seq<char>,
    gross_sat: u64,
    gen: i64,
    resolved: bool,
    resolved_sat: Result<u64, Seq<char>>,
    dest_sat: Option<Result<u64, Seq<char>>>,
) -> Option<(Seq<char>, u64)> {
    if resolved {
        Some(
            (
                pay_key(external_id, gen as int),
                match resolved_sat {
                    Ok(n) => n,
                    Err(_) => gross_sat,
                },
            ),
        )
    } else {
        match dest_sat {
            Some(Ok(n)) => Some((pay_key(external_id, 0), n)),
            _ => None,
        }
    }
}

impl Pricing {
    /// Begins from the whole-satoshi amounts of the refund's two invoices.
    pub fn begin(
        external_id: &str,
        gross_sat: u64,
        gen: i64,
        resolved: bool,
        resolved_sat: Result<u64, String>,
        dest_sat: Option<Result<u64, String>>,
    ) -> (r: Pricing)
        ensures
            r.gross_sat == gross_sat,
            match priced_by(
                external_id@,
                gross_sat,
                gen,
                resolved,
                sat_result(resolved_sat),
                match dest_sat {
                    Some(d) => Some(sat_result(d)),
                    None => None,
                },
            ) {
                Some((key, pay)) => r.key@ == key && r.pay_sat == Some(pay) && r.stage is Status,
                None => r.pay_sat is None && r.stage is Outlay,
            },
    {
        if resolved {
            let pay: u64 = match resolved_sat {
                Ok(n) => n,
                Err(_) => gross_sat,
            };
            return Pricing {
                key: gen_key(external_id, gen),
                gross_sat,
                pay_sat: Some(pay),
                stage: PriceStage::Status,
            };
        }
        match dest_sat {
            Some(Ok(n)) => Pricing {
                key: gen_key(external_id, 0),
                gross_sat,
                pay_sat: Some(n),
                stage: PriceStage::Status,
            },
            _ => Pricing {
                key: String::new(),
                gross_sat,
                pay_sat: None,
                stage: PriceStage::Outlay,
            },
        }
    }

    /// Begins to price a pending refund.
    pub fn start(liability: &RefundReadinessLiability, refund: &RefundAttemptLiability) -> (r: Pricing)
        ensures
            r.gross_sat == liability.gross_sat,
            match priced_by(
                liability.external_id@,
                liability.gross_sat,
                refund.resolution_gen,
                refund.resolved_bolt11 is Some,
                whole_sat_of(
                    bolt11(
                        match refund.resolved_bolt11 {
                            Some(b) => b@,
                            None => Seq::empty(),
                        },
                    ),
                ),
                match refund.dest {
                    Some(d) => Some(whole_sat_of(bolt11(d@))),
                    None => None,
                },
            ) {
                Some((key, pay)) => r.key@ == key && r.pay_sat == Some(pay) && r.stage is Status,
                None => r.pay_sat is None && r.stage is Outlay,
            },
    {
        let persisted = match &refund.resolved_bolt11 {
            Some(b) => b.clone(),
            None => String::new(),
        };
        let dest_sat = match &refund.dest {
            Some(d) => Some(parse_whole_sat(d)),
            None => None,
        };
        Pricing::begin(
            &liability.external_id,
            liability.gross_sat,
            refund.resolution_gen,
            refund.resolved_bolt11.is_some(),
            parse_whole_sat(&persisted),
            dest_sat,
        )
    }

    /// What is to be done next.
    pub fn ask(&self) -> (r: PriceAsk)
        ensures
            r == price_ask(*self),
    {
        match &self.stage {
            PriceStage::Status => PriceAsk::Status { key: self.key.clone() },
            PriceStage::Started => PriceAsk::Started { key: self.key.clone() },
            PriceStage::Outlay => PriceAsk::Outlay {
                gross_sat: self.gross_sat,
                pay_sat: self.pay_sat,
            },
            PriceStage::Finished(Ok(n)) => PriceAsk::Done(Ok(*n)),
            PriceStage::Finished(Err(e)) => PriceAsk::Done(Err(e.clone())),
        }
    }

    /// Takes the answer to what was asked; any other answer is passed over.
    pub fn step(self, event: PriceEvent) -> (r: Pricing)
        ensures
            r == (Pricing { stage: next_price(self.stage, event), ..self }),
    {
        let stage = match (self.stage, event) {
            (PriceStage::Status, PriceEvent::Status(s)) => match s {
                Ok(PayStatus::Succeeded) | Ok(PayStatus::Pending) => PriceStage::Finished(Ok(0)),
                Ok(PayStatus::Unknown) => PriceStage::Started,
                Ok(PayStatus::Failed) => PriceStage::Outlay,
                Err(e) => PriceStage::Finished(Err(e)),
            },
            (PriceStage::Started, PriceEvent::Started(s)) => match s {
                Ok(true) => PriceStage::Finished(Ok(0)),
                Ok(false) => PriceStage::Outlay,
                Err(e) => PriceStage::Finished(Err(e)),
            },
            (PriceStage::Outlay, PriceEvent::Outlay(n)) => PriceStage::Finished(n),
            (stage, _) => stage,
        };
        Pricing { stage, ..self }
    }
}

/// What pricing asks for.
pub open spec fn price_ask(p: Pricing) -> PriceAsk {
    match p.stage {
        PriceStage::Status => PriceAsk::Status { key: p.key },
        PriceStage::Started => PriceAsk::Started { key: p.key },
        PriceStage::Outlay => PriceAsk::Outlay { gross_sat: p.gross_sat, pay_sat: p.pay_sat },
        PriceStage::Finished(r) => PriceAsk::Done(r),
    }
}

/// Where an answer leads.
pub open spec fn next_price(stage: PriceStage, event: PriceEvent) -> PriceStage {
    match (stage, event) {
        (PriceStage::Status, PriceEvent::Status(s)) => match s {
            Ok(PayStatus::Succeeded) => PriceStage::Finished(Ok(0)),
            Ok(PayStatus::Pending) => PriceStage::Finished(Ok(0)),
            Ok(PayStatus::Unknown) => PriceStage::Started,
            Ok(PayStatus::Failed) => PriceStage::Outlay,
            Err(e) => PriceStage::Finished(Err(e)),
        },
        (PriceStage::Started, PriceEvent::Started(s)) => match s {
            Ok(true) => PriceStage::Finished(Ok(0)),
            Ok(false) => PriceStage::Outlay,
            Err(e) => PriceStage::Finished(Err(e)),
        },
        (PriceStage::Outlay, PriceEvent::Outlay(n)) => PriceStage::Finished(n),
        (stage, _) => stage,
    }
}

/// What is in flight or paid takes nothing more of the books: a refund whose payment succeeded, is
/// pending, or is unknown but was started, is priced at nothing whatever an outlay would be. A refund
/// that failed, or was never started, is priced at its outlay.
pub proof fn payments_in_flight_cost_nothing(
    status: PayStatus,
    started: bool,
    outlay: Result<u128, String>,
)
    ensures
        ({
            let a = next_price(PriceStage::Status, PriceEvent::Status(Ok(status)));
            let b = next_price(a, PriceEvent::Started(Ok(started)));
            let c = next_price(b, PriceEvent::Outlay(outlay));
            if status == PayStatus::Succeeded || status == PayStatus::Pending || (status
                == PayStatus::Unknown && started) {
                c == PriceStage::Finished(Ok(0))
            } else {
                c == PriceStage::Finished(outlay)
            }
        }),
{
}

// ---- the report ------------------------------------------------------------------------------

/// What is wrong with refund coverage.
#[derive(Clone, Copy, Debug, PartialEq, Eq, Structural)]
pub enum RefundReadinessWarning {
    /// The federation cannot be reached: nothing can be invoiced, paid or reconciled.
    FederationDown,
    GatewayUnavailable,
    /// The books hold less than the refunds take.
    InsufficientBalance,
    /// A pending refund could not be priced, so coverage cannot be confirmed.
    Unpriceable,
    /// Parked refunds need an operator.
    ParkedManual,
}

/// The name of a warning.
pub open spec fn warning_name(w: RefundReadinessWarning) -> Seq<char> {
    match w {
        RefundReadinessWarning::FederationDown => "FederationDown"@,
        RefundReadinessWarning::GatewayUnavailable => "GatewayUnavailable"@,
        RefundReadinessWarning::InsufficientBalance => "InsufficientBalance"@,
        RefundReadinessWarning::Unpriceable => "Unpriceable"@,
        RefundReadinessWarning::ParkedManual => "ParkedManual"@,
    }
}

impl RefundReadinessWarning {
    /// The warning's name.
    pub fn as_str(self) -> (r: &'static str)
        ensures
            r@ == warning_name(self),
    {
        match self {
            RefundReadinessWarning::FederationDown => "FederationDown",
            RefundReadinessWarning::GatewayUnavailable => "GatewayUnavailable",
            RefundReadinessWarning::InsufficientBalance => "InsufficientBalance",
            RefundReadinessWarning::Unpriceable => "Unpriceable",
            RefundReadinessWarning::ParkedManual => "ParkedManual",
        }
    }
}

/// Whether the gateway and the federation could be reached, and the error where asking failed.
#[derive(Clone, Debug)]
pub struct RefundReadinessProbe {
    pub gateway_ok: bool,
    pub gateway_error: Option<String>,
    pub federation_ok: bool,
    pub federation_error: Option<String>,
}

/// The two answers put together (see [`RefundReadinessProbe::from_answers`]).
pub open spec fn probe_of(
    gateway: Result<bool, String>,
    federation: Result<bool, String>,
) -> RefundReadinessProbe {
    RefundReadinessProbe {
        gateway_ok: gateway matches Ok(ok) && ok,
        gateway_error: match gateway {
            Ok(_) => None,
            Err(e) => Some(e),
        },
        federation_ok: federation matches Ok(ok) && ok,
        federation_error: match federation {
            Ok(_) => None,
            Err(e) => Some(e),
        },
    }
}

impl RefundReadinessProbe {
    /// Puts the two answers together; no answer means that it could not be reached.
    pub fn from_answers(gateway: Result<bool, String>, federation: Result<bool, String>) -> (r:
        RefundReadinessProbe)
        ensures
            r == probe_of(gateway, federation),
    {
        let (gateway_ok, gateway_error) = match gateway {
            Ok(ok) => (ok, None),
            Err(e) => (false, Some(e)),
        };
        let (federation_ok, federation_error) = match federation {
            Ok(ok) => (ok, None),
            Err(e) => (false, Some(e)),
        };
        RefundReadinessProbe { gateway_ok, gateway_error, federation_ok, federation_error }
    }

    /// Whether the gateway could be reached.
    pub fn gateway_ok(&self) -> (r: bool)
        ensures
            r == self.gateway_ok,
    {
        self.gateway_ok
    }

    /// Whether the federation could be reached.
    pub fn federation_ok(&self) -> (r: bool)
        ensures
            r == self.federation_ok,
    {
        self.federation_ok
    }
}

/// Refund coverage at one moment.
#[derive(Clone, Copy, Debug, PartialEq, Eq, Structural)]
pub struct RefundReadinessReport {
    pub liability_count: usize,
    pub gross_liability_sat: u128,
    /// What the refunds take of the books.
    pub required_msat: u128,
    /// What the books hold at least.
    pub expected_msat: u128,
    pub gateway_ok: bool,
    pub federation_ok: bool,
    pub parked_count: usize,
    pub unpriceable_count: usize,
    pub warning: Option<RefundReadinessWarning>,
}

impl Default for RefundReadinessReport {
    fn default() -> (r: RefundReadinessReport)
        ensures
            r == (RefundReadinessReport {
                liability_count: 0,
                gross_liability_sat: 0,
                required_msat: 0,
                expected_msat: 0,
                gateway_ok: true,
                federation_ok: true,
                parked_count: 0,
                unpriceable_count: 0,
                warning: None,
            }),
    {
        RefundReadinessReport {
            liability_count: 0,
            gross_liability_sat: 0,
            required_msat: 0,
            expected_msat: 0,
            gateway_ok: true,
            federation_ok: true,
            parked_count: 0,
            unpriceable_count: 0,
            warning: None,
        }
    }
}

/// How a liability enters the report.
pub enum Weight {
    /// A refund that needs an operator.
    Parked,
    /// A refund in a state that calls for nothing.
    Ignored,
    /// A refund that could not be priced.
    Unpriceable,
    /// So many millisatoshis.
    Takes(u128),
}

/// How a liability enters the report, given what pricing it came to; only a pending refund is priced,
/// and what is no refund yet would take its whole gross.
pub open spec fn weight(l: RefundReadinessLiability, price: Result<u128, String>) -> Weight {
    match l.source {
        RefundReadinessSource::RefundAttempt(a) => if a.status@ == "FAILED"@ {
            Weight::Parked
        } else if a.status@ != "PENDING"@ {
            Weight::Ignored
        } else {
            match price {
                Ok(n) => Weight::Takes(n),
                Err(_) => Weight::Unpriceable,
            }
        },
        _ => Weight::Takes((l.gross_sat as int * 1000) as u128),
    }
}

/// Sums over the liabilities.
pub struct Totals {
    pub gross: nat,
    pub required: nat,
    pub parked: nat,
    pub unpriceable: nat,
}

/// The sums over a sequence of liabilities and their prices.
pub open spec fn totals(ls: Seq<RefundReadinessLiability>, prices: Seq<Result<u128, String>>) -> Totals
    decreases ls.len(),
{
    if ls.len() == 0 {
        Totals { gross: 0, required: 0, parked: 0, unpriceable: 0 }
    } else {
        let t = totals(ls.drop_last(), prices.drop_last());
        let w = weight(ls.last(), prices.last());
        Totals {
            gross: t.gross + ls.last().gross_sat as nat,
            required: t.required + (match w {
                Weight::Takes(n) => n as nat,
                _ => 0nat,
            }),
            parked: t.parked + (if w is Parked {
                1nat
            } else {
                0nat
            }),
            unpriceable: t.unpriceable + (if w is Unpriceable {
                1nat
            } else {
                0nat
            }),
        }
    }
}

/// The one warning that a report gives: an unreachable federation first, then the gateway, then the
/// balance, then a price that is missing, then parked refunds.
pub open spec fn warning_of(r: RefundReadinessReport) -> Option<RefundReadinessWarning> {
    if !r.federation_ok {
        Some(RefundReadinessWarning::FederationDown)
    } else if !r.gateway_ok {
        Some(RefundReadinessWarning::GatewayUnavailable)
    } else if r.expected_msat < r.required_msat {
        Some(RefundReadinessWarning::InsufficientBalance)
    } else if r.unpriceable_count > 0 {
        Some(RefundReadinessWarning::Unpriceable)
    } else if r.parked_count > 0 {
        Some(RefundReadinessWarning::ParkedManual)
    } else {
        None
    }
}

fn warn(r: RefundReadinessReport) -> (w: Option<RefundReadinessWarning>)
    ensures
        w == warning_of(r),
{
    if !r.federation_ok {
        Some(RefundReadinessWarning::FederationDown)
    } else if !r.gateway_ok {
        Some(RefundReadinessWarning::GatewayUnavailable)
    } else if r.expected_msat < r.required_msat {
        Some(RefundReadinessWarning::InsufficientBalance)
    } else if r.unpriceable_count > 0 {
        Some(RefundReadinessWarning::Unpriceable)
    } else if r.parked_count > 0 {
        Some(RefundReadinessWarning::ParkedManual)
    } else {
        None
    }
}

/// `n`, or the largest 128-bit number where it is more.
pub open spec fn capped(n: nat) -> u128 {
    if n <= u128::MAX {
        n as u128
    } else {
        u128::MAX
    }
}

/// Whether a liability is a pending refund, which has to be priced.
pub open spec fn is_pending_refund(l: RefundReadinessLiability) -> bool {
    l.source matches RefundReadinessSource::RefundAttempt(a) && a.status@ == "PENDING"@
}

/// Whether a liability is a pending refund, which has to be priced.
pub fn needs_price(l: &RefundReadinessLiability) -> (r: bool)
    ensures
        r == is_pending_refund(*l),
{
    match &l.source {
        RefundReadinessSource::RefundAttempt(a) => same(&a.status, "PENDING"),
        _ => false,
    }
}

/// Whether a report holds the sums over the liabilities and their prices, and what else it was told.
pub open spec fn is_sum_of(
    r: RefundReadinessReport,
    ls: Seq<RefundReadinessLiability>,
    prices: Seq<Result<u128, String>>,
    expected_msat: u128,
    probe: RefundReadinessProbe,
) -> bool {
    let t = totals(ls, prices);
    &&& r.liability_count == ls.len()
    &&& r.gross_liability_sat == t.gross
    &&& r.required_msat == capped(t.required)
    &&& r.parked_count == t.parked
    &&& r.unpriceable_count == t.unpriceable
    &&& r.expected_msat == expected_msat
    &&& r.gateway_ok == probe.gateway_ok
    &&& r.federation_ok == probe.federation_ok
}

/// The warning of a report that may be over nothing: then only an unreachable federation is warned about.
pub open spec fn warning_with_probe(r: RefundReadinessReport) -> Option<RefundReadinessWarning> {
    if r.liability_count > 0 {
        warning_of(r)
    } else if r.federation_ok {
        None
    } else {
        Some(RefundReadinessWarning::FederationDown)
    }
}

/// The report over liabilities and what pricing each came to; the price of one that is no pending
/// refund is not looked at. What the refunds take is capped at the largest number.
pub fn refund_readiness_report_from_liabilities(
    liabilities: &Vec<RefundReadinessLiability>,
    prices: &Vec<Result<u128, String>>,
    expected_msat: u128,
    probe: &RefundReadinessProbe,
) -> (r: RefundReadinessReport)
    requires
        prices@.len() == liabilities@.len(),
    ensures
        is_sum_of(r, liabilities@, prices@, expected_msat, *probe),
        r.warning == warning_of(r),
{
    let mut gross: u128 = 0;
    let mut required: u128 = 0;
    let mut parked: usize = 0;
    let mut unpriceable: usize = 0;
    let mut i: usize = 0;
    proof {
        reveal_strlit("FAILED");
        reveal_strlit("PENDING");
        assert(liabilities@.take(0) =~= Seq::empty());
    }
    while i < liabilities.len()
        invariant
            i <= liabilities@.len(),
            prices@.len() == liabilities@.len(),
            gross == totals(liabilities@.take(i as int), prices@.take(i as int)).gross,
            required == capped(totals(liabilities@.take(i as int), prices@.take(i as int)).required),
            parked == totals(liabilities@.take(i as int), prices@.take(i as int)).parked,
            unpriceable == totals(liabilities@.take(i as int), prices@.take(i as int)).unpriceable,
            gross <= i * 0xffff_ffff_ffff_ffff,
            parked <= i,
            unpriceable <= i,
        decreases liabilities@.len() - i,
    {
        let l = &liabilities[i];
        proof {
            assert(liabilities@.take(i + 1).drop_last() =~= liabilities@.take(i as int));
            assert(prices@.take(i + 1).drop_last() =~= prices@.take(i as int));
            assert(i * 0xffff_ffff_ffff_ffff + 0xffff_ffff_ffff_ffff == (i + 1)
                * 0xffff_ffff_ffff_ffff) by (nonlinear_arith);
            assert((i + 1) * 0xffff_ffff_ffff_ffff <= 0xffff_ffff_ffff_ffff
                * 0xffff_ffff_ffff_ffff) by (nonlinear_arith)
                requires
                    i + 1 <= 0xffff_ffff_ffff_ffff,
            ;
        }
        gross = gross + l.gross_sat as u128;
        match &l.source {
            RefundReadinessSource::RefundAttempt(a) => {
                if same(&a.status, "FAILED") {
                    parked = parked + 1;
                } else if same(&a.status, "PENDING") {
                    match &prices[i] {
                        Ok(n) => {
                            required = required.saturating_add(*n);
                        },
                        Err(_) => {
                            unpriceable = unpriceable + 1;
                        },
                    }
                }
            },
            RefundReadinessSource::PaidUndeliveredOrder
            | RefundReadinessSource::UnreconciledSettlement => {
                required = required.saturating_add(l.gross_sat as u128 * 1000);
            },
        }
        i = i + 1;
    }
    proof {
        assert(liabilities@.take(i as int) =~= liabilities@);
        assert(prices@.take(i as int) =~= prices@);
    }
    let r = RefundReadinessReport {
        liability_count: liabilities.len(),
        gross_liability_sat: gross,
        required_msat: required,
        expected_msat,
        gateway_ok: probe.gateway_ok,
        federation_ok: probe.federation_ok,
        parked_count: parked,
        unpriceable_count: unpriceable,
        warning: None,
    };
    let warning = warn(r);
    RefundReadinessReport { warning, ..r }
}

/// The report where nothing is owed: coverage is no question, and only an unreachable federation is
/// warned about.
pub fn idle_report(expected_msat: u128, probe: &RefundReadinessProbe) -> (r: RefundReadinessReport)
    ensures
        r == (RefundReadinessReport {
            liability_count: 0,
            gross_liability_sat: 0,
            required_msat: 0,
            expected_msat,
            gateway_ok: probe.gateway_ok,
            federation_ok: probe.federation_ok,
            parked_count: 0,
            unpriceable_count: 0,
            warning: if probe.federation_ok {
                None
            } else {
                Some(RefundReadinessWarning::FederationDown)
            },
        }),
{
    let warning = if probe.federation_ok {
        None
    } else {
        Some(RefundReadinessWarning::FederationDown)
    };
    RefundReadinessReport {
        liability_count: 0,
        gross_liability_sat: 0,
        required_msat: 0,
        expected_msat,
        gateway_ok: probe.gateway_ok,
        federation_ok: probe.federation_ok,
        parked_count: 0,
        unpriceable_count: 0,
        warning,
    }
}

/// The report over the liabilities, if there are any, and else the idle one.
pub fn refund_readiness_report_with_probe(
    liabilities: &Vec<RefundReadinessLiability>,
    prices: &Vec<Result<u128, String>>,
    expected_msat: u128,
    probe: &RefundReadinessProbe,
) -> (r: RefundReadinessReport)
    requires
        prices@.len() == liabilities@.len(),
    ensures
        is_sum_of(r, liabilities@, prices@, expected_msat, *probe),
        r.warning == warning_with_probe(r),
{
    if liabilities.len() == 0 {
        idle_report(expected_msat, probe)
    } else {
        refund_readiness_report_from_liabilities(liabilities, prices, expected_msat, probe)
    }
}

/// How loud a line of the log is.
#[derive(Clone, Copy, Debug, PartialEq, Eq, Structural)]
pub enum Loudness {
    Error,
    Warn,
    Info,
}

/// Whether the log says anything of a report.
pub open spec fn is_logged(r: RefundReadinessReport) -> bool {
    r.liability_count > 0 || r.warning == Some(RefundReadinessWarning::FederationDown)
}

/// How loud a report is logged.
pub open spec fn loudness_of(warning: Option<RefundReadinessWarning>) -> Loudness {
    match warning {
        None => Loudness::Info,
        Some(RefundReadinessWarning::FederationDown) => Loudness::Error,
        Some(_) => Loudness::Warn,
    }
}

/// What the log says of a report: nothing where nothing is owed, unless the federation cannot be
/// reached.
pub fn readiness_log(r: &RefundReadinessReport) -> (line: Option<(Loudness, &'static str)>)
    ensures
        line is Some <==> is_logged(*r),
        line matches Some(l) ==> l.0 == loudness_of(r.warning),
        line matches Some(l) ==> match r.warning {
            Some(RefundReadinessWarning::FederationDown) => l.0 == Loudness::Error && l.1@
                == "refund readiness ALARM: the FEDERATION is unreachable (guardians down / no consensus) — no invoices, payments, or refunds can settle; investigate the federation"@,
            Some(RefundReadinessWarning::GatewayUnavailable) => l.0 == Loudness::Warn && l.1@
                == "refund readiness warning: gateway unreachable: cannot create invoices or pay refunds"@,
            Some(RefundReadinessWarning::InsufficientBalance) => l.0 == Loudness::Warn && l.1@
                == "refund readiness warning: ledger expected holdings are below required refund outlay"@,
            Some(RefundReadinessWarning::ParkedManual) => l.0 == Loudness::Warn && l.1@
                == "refund readiness warning: parked refund liabilities require manual handling"@,
            Some(RefundReadinessWarning::Unpriceable) => l.0 == Loudness::Warn && l.1@
                == "refund readiness warning: a pending refund liability could not be priced; coverage unconfirmed"@,
            None => l.0 == Loudness::Info && l.1@ == "refund liabilities covered"@,
        },
{
    let down = match r.warning {
        Some(RefundReadinessWarning::FederationDown) => true,
        _ => false,
    };
    if r.liability_count == 0 && !down {
        return None;
    }
    Some(
        match r.warning {
            Some(RefundReadinessWarning::FederationDown) => (
                Loudness::Error,
                "refund readiness ALARM: the FEDERATION is unreachable (guardians down / no consensus) — no invoices, payments, or refunds can settle; investigate the federation",
            ),
            Some(RefundReadinessWarning::GatewayUnavailable) => (
                Loudness::Warn,
                "refund readiness warning: gateway unreachable: cannot create invoices or pay refunds",
            ),
            Some(RefundReadinessWarning::InsufficientBalance) => (
                Loudness::Warn,
                "refund readiness warning: ledger expected holdings are below required refund outlay",
            ),
            Some(RefundReadinessWarning::ParkedManual) => (
                Loudness::Warn,
                "refund readiness warning: parked refund liabilities require manual handling",
            ),
            Some(RefundReadinessWarning::Unpriceable) => (
                Loudness::Warn,
                "refund readiness warning: a pending refund liability could not be priced; coverage unconfirmed",
            ),
            None => (Loudness::Info, "refund liabilities covered"),
        },
    )
}

/// What the operator's money view shows of a report; the two reachability figures are those of the
/// moment at which it is asked for.
#[derive(Clone, Copy, Debug, PartialEq, Eq)]
pub struct MoneyValue {
    pub expected_msat: u128,
    pub gateway_ok: bool,
    pub federation_ok: bool,
    pub liability_count: usize,
    pub gross_liability_sat: u128,
    pub required_msat: u128,
    pub parked_count: usize,
    pub ready: bool,
    pub warning: Option<&'static str>,
}

/// Whether this is the money view of a report.
pub open spec fn is_money_view(
    v: MoneyValue,
    r: RefundReadinessReport,
    gateway_ok: bool,
    federation_ok: bool,
) -> bool {
    &&& v.expected_msat == r.expected_msat
    &&& v.gateway_ok == gateway_ok
    &&& v.federation_ok == federation_ok
    &&& v.liability_count == r.liability_count
    &&& v.gross_liability_sat == r.gross_liability_sat
    &&& v.required_msat == r.required_msat
    &&& v.parked_count == r.parked_count
    &&& v.ready == (r.warning is None)
    &&& v.warning is Some <==> r.warning is Some
}

impl RefundReadinessReport {
    /// The money view of the report: ready where it warns about nothing.
    pub fn to_money_value(&self, gateway_ok: bool, federation_ok: bool) -> (r: MoneyValue)
        ensures
            is_money_view(r, *self, gateway_ok, federation_ok),
            self.warning matches Some(w) ==> r.warning->0@ == warning_name(w),
    {
        let warning = match self.warning {
            Some(w) => Some(w.as_str()),
            None => None,
        };
        MoneyValue {
            expected_msat: self.expected_msat,
            gateway_ok,
            federation_ok,
            liability_count: self.liability_count,
            gross_liability_sat: self.gross_liability_sat,
            required_msat: self.required_msat,
            parked_count: self.parked_count,
            ready: self.warning.is_none(),
            warning,
        }
    }
}

/// A report only says that refunds are covered where they are: everything can be reached, every
/// pending refund was priced, none is parked, and the books hold what the refunds take.
pub proof fn covered_means_covered(r: RefundReadinessReport)
    ensures
        warning_of(r) is None <==> r.federation_ok && r.gateway_ok && r.required_msat
            <= r.expected_msat && r.unpriceable_count == 0 && r.parked_count == 0,
{
}

/// What one liability takes, in millisatoshis: a thousand times its gross where it is no refund yet,
/// its price where it is a pending refund that has one, and nothing otherwise.
pub open spec fn cost(l: RefundReadinessLiability, price: Result<u128, String>) -> int {
    match l.source {
        RefundReadinessSource::PaidUndeliveredOrder => 1000 * l.gross_sat,
        RefundReadinessSource::UnreconciledSettlement => 1000 * l.gross_sat,
        RefundReadinessSource::RefundAttempt(a) => if a.status@ == "PENDING"@ && price is Ok {
            price->Ok_0 as int
        } else {
            0
        },
    }
}

/// The sums of a report, liability by liability: the gross of all of them; what each of them takes;
/// each failed refund among the parked; and each pending one without a price among the unpriceable.
pub proof fn report_adds_up_liability_by_liability(
    ls: Seq<RefundReadinessLiability>,
    prices: Seq<Result<u128, String>>,
)
    requires
        ls.len() == prices.len(),
    ensures
        ({
            let t = totals(ls, prices);
            let both = ls.zip_with(prices);
            &&& t.gross == ls.fold_left(
                0int,
                |sum: int, l: RefundReadinessLiability| sum + l.gross_sat,
            )
            &&& t.required == both.fold_left(
                0int,
                |sum: int, x: (RefundReadinessLiability, Result<u128, String>)|
                    sum + cost(x.0, x.1),
            )
            &&& t.parked == ls.fold_left(
                0int,
                |n: int, l: RefundReadinessLiability|
                    if l.source matches RefundReadinessSource::RefundAttempt(a) && a.status@
                        == "FAILED"@ {
                        n + 1
                    } else {
                        n
                    },
            )
            &&& t.unpriceable == both.fold_left(
                0int,
                |n: int, x: (RefundReadinessLiability, Result<u128, String>)|
                    if x.1 is Err && (x.0.source matches RefundReadinessSource::RefundAttempt(a)
                        && a.status@ == "PENDING"@) {
                        n + 1
                    } else {
                        n
                    },
            )
        }),
    decreases ls.len(),
{
    reveal_with_fuel(Seq::fold_left, 2);
    reveal_strlit("FAILED");
    reveal_strlit("PENDING");
    assert("FAILED"@[0] == 'F' && "PENDING"@[0] == 'P');
    if ls.len() > 0 {
        let both = ls.zip_with(prices);
        report_adds_up_liability_by_liability(ls.drop_last(), prices.drop_last());
        assert(both.drop_last() =~= ls.drop_last().zip_with(prices.drop_last()));
        assert(both.last() == (ls.last(), prices.last()));
        let l = ls.last();
        assert(l.gross_sat as int * 1000 <= u128::MAX);
    }
}

/// What the refunds take is at least a thousand times the gross of all that is no refund yet, whether it
/// is an order that was paid and not delivered or a settlement that was not reconciled. It is that and
/// the prices of the pending refunds together, below the largest number.
pub proof fn report_requires_all_that_is_no_refund_yet(
    ls: Seq<RefundReadinessLiability>,
    prices: Seq<Result<u128, String>>,
)
    requires
        ls.len() == prices.len(),
    ensures
        ({
            let owed = ls.fold_left(
                0int,
                |sum: int, l: RefundReadinessLiability|
                    if l.source is PaidUndeliveredOrder || l.source is UnreconciledSettlement {
                        sum + l.gross_sat
                    } else {
                        sum
                    },
            );
            let priced = ls.zip_with(prices).fold_left(
                0int,
                |sum: int, x: (RefundReadinessLiability, Result<u128, String>)|
                    if x.1 is Ok && (x.0.source matches RefundReadinessSource::RefundAttempt(a)
                        && a.status@ == "PENDING"@) {
                        sum + x.1->Ok_0
                    } else {
                        sum
                    },
            );
            let required = capped(totals(ls, prices).required);
            &&& owed >= 0
            &&& priced >= 0
            &&& totals(ls, prices).required == 1000 * owed + priced
            &&& 1000 * owed + priced <= u128::MAX ==> required == 1000 * owed + priced
            &&& 1000 * owed + priced > u128::MAX ==> required == u128::MAX
            &&& 1000 * owed <= u128::MAX ==> required >= 1000 * owed
        }),
    decreases ls.len(),
{
    reveal_with_fuel(Seq::fold_left, 2);
    reveal_strlit("FAILED");
    reveal_strlit("PENDING");
    assert("FAILED"@[0] == 'F' && "PENDING"@[0] == 'P');
    if ls.len() > 0 {
        let both = ls.zip_with(prices);
        report_requires_all_that_is_no_refund_yet(ls.drop_last(), prices.drop_last());
        assert(both.drop_last() =~= ls.drop_last().zip_with(prices.drop_last()));
        assert(both.last() == (ls.last(), prices.last()));
        let l = ls.last();
        assert(l.gross_sat as int * 1000 <= u128::MAX);
    }
}

/// A report that warns of nothing means that the books hold at least a thousand times the gross of every
/// liability that is no refund yet, and at least the price of every pending refund, that each of these
/// has a price, and that none has failed.
pub proof fn quiet_report_covers_every_liability(
    ls: Seq<RefundReadinessLiability>,
    prices: Seq<Result<u128, String>>,
    expected_msat: u128,
    probe: RefundReadinessProbe,
    r: RefundReadinessReport,
    i: int,
)
    requires
        ls.len() == prices.len(),
        is_sum_of(r, ls, prices, expected_msat, probe),
        warning_of(r) is None,
        0 <= i < ls.len(),
    ensures
        probe.federation_ok,
        probe.gateway_ok,
        r.expected_msat == expected_msat,
        ls[i].source is PaidUndeliveredOrder ==> r.expected_msat >= 1000 * ls[i].gross_sat,
        ls[i].source is UnreconciledSettlement ==> r.expected_msat >= 1000 * ls[i].gross_sat,
        ls[i].source matches RefundReadinessSource::RefundAttempt(a) ==> {
            &&& a.status@ != "FAILED"@
            &&& a.status@ == "PENDING"@ ==> prices[i] is Ok && r.expected_msat >= prices[i]->Ok_0
        },
{
    lemma_totals_hold_each(ls, prices, i);
    reveal_strlit("FAILED");
    reveal_strlit("PENDING");
    assert("FAILED"@[0] == 'F' && "PENDING"@[0] == 'P');
}

proof fn lemma_totals_hold_each(
    ls: Seq<RefundReadinessLiability>,
    prices: Seq<Result<u128, String>>,
    i: int,
)
    requires
        ls.len() == prices.len(),
        0 <= i < ls.len(),
    ensures
        weight(ls[i], prices[i]) matches Weight::Takes(n) ==> totals(ls, prices).required >= n,
        weight(ls[i], prices[i]) is Parked ==> totals(ls, prices).parked > 0,
        weight(ls[i], prices[i]) is Unpriceable ==> totals(ls, prices).unpriceable > 0,
    decreases ls.len(),
{
    if i < ls.len() - 1 {
        lemma_totals_hold_each(ls.drop_last(), prices.drop_last(), i);
    }
}

/// Which warning a report gives where there is more than one reason: what cannot be reached comes before
/// what is not covered, the federation before the gateway; a balance that is too low comes before a
/// missing price, and that before what is parked.
pub proof fn warnings_in_their_order(r: RefundReadinessReport)
    ensures
        ({
            let w = warning_of(r);
            let short = r.expected_msat < r.required_msat;
            &&& w == Some(RefundReadinessWarning::FederationDown) <==> !r.federation_ok
            &&& w == Some(RefundReadinessWarning::GatewayUnavailable) <==> r.federation_ok
                && !r.gateway_ok
            &&& w == Some(RefundReadinessWarning::InsufficientBalance) <==> r.federation_ok
                && r.gateway_ok && short
            &&& w == Some(RefundReadinessWarning::Unpriceable) <==> r.federation_ok && r.gateway_ok
                && !short && r.unpriceable_count > 0
            &&& w == Some(RefundReadinessWarning::ParkedManual) <==> r.federation_ok && r.gateway_ok
                && !short && r.unpriceable_count == 0 && r.parked_count > 0
        }),
{
}

/// A refund without an answer from the backend has no price; its price is never made up.
pub proof fn no_answer_is_no_price(e: String, status: PriceEvent)
    ensures
        next_price(PriceStage::Status, PriceEvent::Status(Err(e))) == PriceStage::Finished(Err(e)),
        next_price(PriceStage::Started, PriceEvent::Started(Err(e))) == PriceStage::Finished(Err(e)),
        next_price(PriceStage::Outlay, PriceEvent::Outlay(Err(e))) == PriceStage::Finished(Err(e)),
        !(status is Status) ==> next_price(PriceStage::Status, status) == PriceStage::Status,
        !(status is Started) ==> next_price(PriceStage::Started, status) == PriceStage::Started,
        !(status is Outlay) ==> next_price(PriceStage::Outlay, status) == PriceStage::Outlay,
{
}

/// By what a pending refund is priced: the invoice it was resolved to, under the key of its generation
/// and with that invoice's amount, or the gross where that has no whole one; or else its destination,
/// under the bare key, where that is an invoice of a whole amount; or else by nothing but its gross.
pub proof fn refund_is_priced_by_what_would_be_paid(
    external_id: Seq<char>,
    gross_sat: u64,
    gen: i64,
    resolved_sat: Result<u64, Seq<char>>,
    dest_sat: Option<Result<u64, Seq<char>>>,
    sat: u64,
)
    ensures
        resolved_sat == Ok::<u64, Seq<char>>(sat) ==> priced_by(
            external_id,
            gross_sat,
            gen,
            true,
            resolved_sat,
            dest_sat,
        ) == Some((pay_key(external_id, gen as int), sat)),
        resolved_sat is Err ==> priced_by(
            external_id,
            gross_sat,
            gen,
            true,
            resolved_sat,
            dest_sat,
        ) == Some((pay_key(external_id, gen as int), gross_sat)),
        priced_by(external_id, gross_sat, gen, false, resolved_sat, Some(Ok(sat))) == Some(
            ("refund:"@ + external_id, sat),
        ),
        !(dest_sat matches Some(Ok(_))) ==> priced_by(
            external_id,
            gross_sat,
            gen,
            false,
            resolved_sat,
            dest_sat,
        ) is None,
{
}

/// Something counts as reached only where it answered that it is; an error is kept, and means that it
/// could not be reached.
pub proof fn no_answer_means_out_of_reach(
    gateway: Result<bool, String>,
    federation: Result<bool, String>,
)
    ensures
        ({
            let p = probe_of(gateway, federation);
            &&& p.gateway_ok <==> gateway == Ok::<bool, String>(true)
            &&& p.federation_ok <==> federation == Ok::<bool, String>(true)
            &&& gateway matches Err(e) ==> p.gateway_error == Some(e)
            &&& gateway is Ok ==> p.gateway_error is None
            &&& federation matches Err(e) ==> p.federation_error == Some(e)
            &&& federation is Ok ==> p.federation_error is None
        }),
{
}

/// A report repeats what it was told and counts every liability. Where there is none, nothing is
/// required and only an unreachable federation is warned about.
pub proof fn report_repeats_what_it_was_told(
    r: RefundReadinessReport,
    ls: Seq<RefundReadinessLiability>,
    prices: Seq<Result<u128, String>>,
    expected_msat: u128,
    probe: RefundReadinessProbe,
)
    requires
        is_sum_of(r, ls, prices, expected_msat, probe),
    ensures
        r.liability_count == ls.len(),
        r.expected_msat == expected_msat,
        r.gateway_ok == probe.gateway_ok,
        r.federation_ok == probe.federation_ok,
        ls.len() == 0 ==> r.required_msat == 0 && r.gross_liability_sat == 0 && r.parked_count == 0
            && r.unpriceable_count == 0,
        ls.len() == 0 ==> (warning_with_probe(r) is None <==> probe.federation_ok),
        ls.len() == 0 && !probe.federation_ok ==> warning_with_probe(r) == Some(
            RefundReadinessWarning::FederationDown,
        ),
        ls.len() > 0 ==> warning_with_probe(r) == warning_of(r),
{
}

/// The log is silent exactly where nothing is owed and the federation is not known to be out of reach.
/// Only that is an error, every other warning is one, and a report that warns of nothing is a note.
pub proof fn loudness_by_warning(r: RefundReadinessReport)
    ensures
        !is_logged(r) <==> r.liability_count == 0 && r.warning != Some(
            RefundReadinessWarning::FederationDown,
        ),
        loudness_of(r.warning) == Loudness::Error <==> r.warning == Some(
            RefundReadinessWarning::FederationDown,
        ),
        loudness_of(r.warning) == Loudness::Info <==> r.warning is None,
{
}

/// The money view shows the figures of the report and is ready exactly where the report warns of
/// nothing; whether the gateway and the federation can be reached is what it was told.
pub proof fn money_view_is_ready_without_a_warning(
    v: MoneyValue,
    r: RefundReadinessReport,
    gateway_ok: bool,
    federation_ok: bool,
)
    requires
        is_money_view(v, r, gateway_ok, federation_ok),
    ensures
        v.ready <==> r.warning is None,
        v.ready <==> v.warning is None,
        v.expected_msat == r.expected_msat,
        v.required_msat == r.required_msat,
        v.gross_liability_sat == r.gross_liability_sat,
        v.liability_count == r.liability_count,
        v.parked_count == r.parked_count,
        v.gateway_ok == gateway_ok,
        v.federation_ok == federation_ok,
{
}

/// Which liabilities are priced: the pending refunds, and these alone take their price.
pub proof fn only_pending_refunds_are_priced(
    l: RefundReadinessLiability,
    a: Result<u128, String>,
    b: Result<u128, String>,
)
    ensures
        is_pending_refund(l) <==> (l.source matches RefundReadinessSource::RefundAttempt(x)
            && x.status@ == "PENDING"@),
        !is_pending_refund(l) ==> weight(l, a) == weight(l, b),
        is_pending_refund(l) ==> (a matches Ok(n) ==> weight(l, a) == Weight::Takes(n)),
{
    reveal_strlit("FAILED");
    reveal_strlit("PENDING");
    assert("FAILED"@[0] == 'F' && "PENDING"@[0] == 'P');
}

/// Pricing asks only about its own payment, under its own key, and for the outlay of its own gross and
/// payout; it is done exactly where it has a price or a reason for having none.
pub proof fn pricing_asks_about_its_own_refund(p: Pricing)
    ensures
        price_ask(p) matches PriceAsk::Status { key } ==> key == p.key && p.stage is Status,
        price_ask(p) matches PriceAsk::Started { key } ==> key == p.key && p.stage is Started,
        price_ask(p) matches PriceAsk::Outlay { gross_sat, pay_sat } ==> gross_sat == p.gross_sat
            && pay_sat == p.pay_sat && p.stage is Outlay,
        price_ask(p) matches PriceAsk::Done(r) ==> p.stage == PriceStage::Finished(r),
        p.stage is Finished ==> price_ask(p) is Done,
{
}

/// Every warning has a name of its own, and it is the one that the operator knows it by.
pub proof fn warnings_have_names_of_their_own(
    a: RefundReadinessWarning,
    b: RefundReadinessWarning,
)
    ensures
        warning_name(a) == warning_name(b) ==> a == b,
        warning_name(RefundReadinessWarning::FederationDown) == "FederationDown"@,
        warning_name(RefundReadinessWarning::GatewayUnavailable) == "GatewayUnavailable"@,
        warning_name(RefundReadinessWarning::InsufficientBalance) == "InsufficientBalance"@,
        warning_name(RefundReadinessWarning::Unpriceable) == "Unpriceable"@,
        warning_name(RefundReadinessWarning::ParkedManual) == "ParkedManual"@,
{
    reveal_strlit("FederationDown");
    reveal_strlit("GatewayUnavailable");
    reveal_strlit("InsufficientBalance");
    reveal_strlit("Unpriceable");
    reveal_strlit("ParkedManual");
    assert("FederationDown"@[0] == 'F');
    assert("GatewayUnavailable"@[0] == 'G');
    assert("InsufficientBalance"@[0] == 'I');
    assert("Unpriceable"@[0] == 'U');
    assert("ParkedManual"@[0] == 'P');
}

} // verus!
