//! Resuming a suspended subscription after a paid renewal.
//!
//! The recipe's resume hook runs outside of any transaction: with a few tries, and then the
//! subscription becomes active. A hook that fails for good puts the subscription back to what it was
//! before the renewal, and records a refund for every renewal that was paid meanwhile. It never
//! destroys the instance or releases the reservation.

use crate::documents::{doc_view, find_value, value_of};
use crate::outside::{
    json, members_view, parse_json, JsonDoc, JsonDocView, JsonMember, JsonValue, JsonView,
};
use crate::refund::sub_id;
use crate::store::texts;
use crate::tables::{
    any, events_added, first_where, holds_text, is_event, is_text, lemma_filter_next,
    lemma_first_where, lemma_first_where_at, opt_view, Event, EventDetail, EventKind, Instance,
    RefundAttempt, RefundStatus, SubState, Subscription, Tables,
};
use crate::text::{cat2, cat3, owned, same, trim, trimmed};
use vstd::prelude::*;
use vstd::string::*;

verus! {

/// How often the resume hook is tried.
pub const RESUME_ATTEMPTS: u32 = 3;

/// How long to wait before the hook is tried again, in milliseconds.
pub const RESUME_RETRY_BACKOFF_MS: u64 = 250;

/// What became of one subscription that was to be resumed.
#[derive(Clone, Copy, Debug, PartialEq, Eq, Structural)]
pub enum ResumeOutcome {
    /// The hook succeeded and the subscription is active.
    Active,
    /// The hook failed for good; the subscription is suspended again and the renewal is refunded.
    SuspendedRefundPending,
    /// It was not this driver's to resume, or something else resolved it first.
    Skipped,
}

/// The instance of a subscription, as the hook sees it.
#[derive(Clone, Debug)]
pub struct ResumeInstance {
    pub id: String,
    pub box_id: Option<String>,
    pub kind: Option<String>,
    pub handles_json: Option<String>,
    pub state: Option<String>,
}

/// A subscription that may be resumed.
#[derive(Clone, Debug)]
pub struct ResumeTarget {
    pub state: SubState,
    pub buyer_hex: String,
    pub recipe_id: Option<String>,
    pub refund_dest: Option<String>,
    pub renew_lead_s: i64,
    pub retention_s: i64,
    pub instance: Option<ResumeInstance>,
}

/// An optional number, or zero.
pub open spec fn or_zero(n: Option<i64>) -> i64 {
    match n {
        Some(x) => x,
        None => 0,
    }
}

fn number_or_zero(n: Option<i64>) -> (r: i64)
    ensures
        r == or_zero(n),
{
    match n {
        Some(x) => x,
        None => 0,
    }
}

/// Being the instance with this id.
pub open spec fn instance_id(id: Seq<char>) -> spec_fn(Instance) -> bool {
    |n: Instance| n.id@ == id
}

/// Whether a target has the subscription's instance, if that is there.
pub open spec fn has_instance_of(r: Option<ResumeInstance>, id: Option<String>, instances: Seq<Instance>) -> bool {
    match id {
        Some(i) => {
            let at = first_where(instances, instance_id(i@)) as int;
            if at < instances.len() {
                &&& r matches Some(x)
                &&& x.id == instances[at].id
                &&& x.box_id == instances[at].box_id
                &&& x.kind == instances[at].kind
                &&& x.handles_json == instances[at].handles_json
                &&& x.state == instances[at].state
            } else {
                r is None
            }
        },
        None => r is None,
    }
}

/// Whether a target stands for a subscription.
pub open spec fn is_target_of(r: ResumeTarget, s: Subscription, instances: Seq<Instance>) -> bool {
    &&& r.state == s.state
    &&& r.buyer_hex@ == (match s.buyer_pubkey {
        Some(b) => b@,
        None => Seq::empty(),
    })
    &&& r.recipe_id == s.recipe_id
    &&& r.refund_dest == s.refund_dest
    &&& r.renew_lead_s == or_zero(s.renew_lead_s)
    &&& r.retention_s == or_zero(s.retention_s)
    &&& has_instance_of(r.instance, s.instance_id, instances)
}

fn load_instance(instances: &Vec<Instance>, id: &Option<String>) -> (r: Option<ResumeInstance>)
    ensures
        has_instance_of(r, *id, instances@),
{
    match id {
        None => None,
        Some(s) => {
            let ghost p = instance_id(s@);
            let mut i: usize = 0;
            while i < instances.len()
                invariant
                    i <= instances@.len(),
                    *id == Some(*s),
                    p == instance_id(s@),
                    forall|k: int| 0 <= k < i ==> !p(#[trigger] instances@[k]),
                decreases instances@.len() - i,
            {
                let n = &instances[i];
                if same(&n.id, s) {
                    proof {
                        lemma_first_where_at(instances@, p, i as int);
                    }
                    return Some(
                        ResumeInstance {
                            id: n.id.clone(),
                            box_id: n.box_id.clone(),
                            kind: n.kind.clone(),
                            handles_json: n.handles_json.clone(),
                            state: n.state.clone(),
                        },
                    );
                }
                i = i + 1;
            }
            proof {
                lemma_first_where_at(instances@, p, i as int);
            }
            None
        },
    }
}

/// Whether this is the subscription with this id, as a target, if there is one.
pub open spec fn is_target_with_id(r: Option<ResumeTarget>, t: Tables, id: Seq<char>) -> bool {
    let at = first_where(t.subscriptions@, sub_id(id)) as int;
    if at < t.subscriptions@.len() {
        r matches Some(x) && is_target_of(x, t.subscriptions@[at], t.instances@)
    } else {
        r is None
    }
}

/// The subscription with this id, as a target.
pub fn load_target(t: &Tables, id: &str) -> (r: Option<ResumeTarget>)
    ensures
        is_target_with_id(r, *t, id@),
{
    let ghost p = sub_id(id@);
    let mut i: usize = 0;
    while i < t.subscriptions.len()
        invariant
            i <= t.subscriptions@.len(),
            p == sub_id(id@),
            forall|k: int| 0 <= k < i ==> !p(#[trigger] t.subscriptions@[k]),
        decreases t.subscriptions@.len() - i,
    {
        let s = &t.subscriptions[i];
        if same(&s.id, id) {
            proof {
                lemma_first_where_at(t.subscriptions@, p, i as int);
            }
            let buyer_hex = match &s.buyer_pubkey {
                Some(b) => b.clone(),
                None => String::new(),
            };
            return Some(
                ResumeTarget {
                    state: s.state,
                    buyer_hex,
                    recipe_id: s.recipe_id.clone(),
                    refund_dest: s.refund_dest.clone(),
                    renew_lead_s: number_or_zero(s.renew_lead_s),
                    retention_s: number_or_zero(s.retention_s),
                    instance: load_instance(&t.instances, &s.instance_id),
                },
            );
        }
        i = i + 1;
    }
    proof {
        lemma_first_where_at(t.subscriptions@, p, i as int);
    }
    None
}

/// Being a subscription that waits to be resumed by this recipe.
pub open spec fn waits_for(recipe_id: Seq<char>) -> spec_fn(Subscription) -> bool {
    |s: Subscription| s.state == SubState::Resuming && is_text(s.recipe_id, recipe_id)
}

/// The ids of the subscriptions that wait to be resumed by this recipe.
pub fn resuming_ids(t: &Tables, recipe_id: &str) -> (r: Vec<String>)
    ensures
        r@ == t.subscriptions@.filter(waits_for(recipe_id@)).map_values(|s: Subscription| s.id),
{
    let ghost p = waits_for(recipe_id@);
    let mut out: Vec<String> = Vec::new();
    let mut i: usize = 0;
    proof {
        reveal(Seq::filter);
        assert(t.subscriptions@.take(0) =~= Seq::empty());
    }
    while i < t.subscriptions.len()
        invariant
            i <= t.subscriptions@.len(),
            p == waits_for(recipe_id@),
            out@.len() == t.subscriptions@.take(i as int).filter(p).len(),
            forall|k: int|
                0 <= k < out@.len() ==> #[trigger] out@[k] == t.subscriptions@.take(
                    i as int,
                ).filter(p)[k].id,
        decreases t.subscriptions@.len() - i,
    {
        let s = &t.subscriptions[i];
        proof {
            lemma_filter_next(t.subscriptions@, p, i as int);
        }
        if s.state == SubState::Resuming && holds_text(&s.recipe_id, recipe_id) {
            out.push(s.id.clone());
        }
        i = i + 1;
    }
    proof {
        assert(t.subscriptions@.take(i as int) =~= t.subscriptions@);
        assert(out@ =~= t.subscriptions@.filter(p).map_values(|s: Subscription| s.id));
    }
    out
}

/// What is done about a target.
#[derive(Clone, Copy, Debug, PartialEq, Eq, Structural)]
pub enum DriveStep {
    Skip,
    /// Run the hook on the target's instance.
    RunHook,
    /// There is no instance to run it on.
    Fail,
}

/// What is done about a target (see [`drive_step`]).
pub open spec fn step_for(target: Option<ResumeTarget>, recipe_id: Seq<char>) -> DriveStep {
    match target {
        None => DriveStep::Skip,
        Some(t) => if t.state != SubState::Resuming || !is_text(t.recipe_id, recipe_id) {
            DriveStep::Skip
        } else if t.instance is None {
            DriveStep::Fail
        } else {
            DriveStep::RunHook
        },
    }
}

/// Decides what is done about a target: only one that waits to be resumed, by this recipe, is driven.
pub fn drive_step(target: &Option<ResumeTarget>, recipe_id: &str) -> (r: DriveStep)
    ensures
        r == step_for(*target, recipe_id@),
{
    match target {
        None => DriveStep::Skip,
        Some(t) => {
            if t.state != SubState::Resuming || !holds_text(&t.recipe_id, recipe_id) {
                DriveStep::Skip
            } else if t.instance.is_none() {
                DriveStep::Fail
            } else {
                DriveStep::RunHook
            }
        },
    }
}

/// What is done after a try of the hook.
#[derive(Clone, Copy, Debug, PartialEq, Eq, Structural)]
pub enum HookStep {
    Succeeded,
    /// Try again after so many milliseconds.
    RetryAfter(u64),
    GiveUp,
}

/// What is done after the try with this number, counted from one.
pub open spec fn hook_step(attempt: u32, succeeded: bool) -> HookStep {
    if succeeded {
        HookStep::Succeeded
    } else if attempt < RESUME_ATTEMPTS {
        HookStep::RetryAfter(RESUME_RETRY_BACKOFF_MS)
    } else {
        HookStep::GiveUp
    }
}

/// Decides what is done after the try with this number, counted from one.
pub fn after_try(attempt: u32, succeeded: bool) -> (r: HookStep)
    ensures
        r == hook_step(attempt, succeeded),
{
    if succeeded {
        HookStep::Succeeded
    } else if attempt < RESUME_ATTEMPTS {
        HookStep::RetryAfter(RESUME_RETRY_BACKOFF_MS)
    } else {
        HookStep::GiveUp
    }
}

/// Being a subscription that was driven to an end.
pub open spec fn was_driven() -> spec_fn(ResumeOutcome) -> bool {
    |o: ResumeOutcome| o != ResumeOutcome::Skipped
}

/// How many of the subscriptions of one recovery were driven to an end.
pub fn driven_count(outcomes: &Vec<ResumeOutcome>) -> (n: usize)
    ensures
        n == outcomes@.filter(was_driven()).len(),
{
    let ghost p = was_driven();
    let mut n: usize = 0;
    let mut i: usize = 0;
    proof {
        reveal(Seq::filter);
        assert(outcomes@.take(0) =~= Seq::empty());
    }
    while i < outcomes.len()
        invariant
            i <= outcomes@.len(),
            n <= i,
            p == was_driven(),
            n == outcomes@.take(i as int).filter(p).len(),
        decreases outcomes@.len() - i,
    {
        proof {
            lemma_filter_next(outcomes@, p, i as int);
        }
        if outcomes[i] != ResumeOutcome::Skipped {
            n = n + 1;
        }
        i = i + 1;
    }
    assert(outcomes@.take(i as int) =~= outcomes@);
    n
}

/// What the resume hook is told: the subscription, its buyer, the instance, and the instance's
/// handles where they are a JSON document.
#[derive(Clone, Debug)]
pub struct LifecycleInput {
    pub subscription_id: String,
    pub buyer_pubkey: String,
    pub instance_id: String,
    pub box_id: Option<String>,
    pub kind: Option<String>,
    pub state: Option<String>,
    /// The handles as JSON text; `None` stands for `null`.
    pub handles_json: Option<String>,
}

/// Whether this is what the resume hook is told (see [`lifecycle_input`]).
pub open spec fn is_input_of(
    input: LifecycleInput,
    id: Seq<char>,
    buyer_hex: Seq<char>,
    instance: ResumeInstance,
) -> bool {
    &&& input.subscription_id@ == id
    &&& input.buyer_pubkey@ == buyer_hex
    &&& input.instance_id == instance.id
    &&& input.box_id == instance.box_id
    &&& input.kind == instance.kind
    &&& input.state == instance.state
    &&& input.handles_json == match instance.handles_json {
        Some(raw) => if json(raw@) is Ok {
            Some(raw)
        } else {
            None
        },
        None => None,
    }
}

/// What the resume hook is told. Handles that are no JSON document are left out.
pub fn lifecycle_input(id: &str, buyer_hex: &str, instance: &ResumeInstance) -> (r: LifecycleInput)
    ensures
        is_input_of(r, id@, buyer_hex@, *instance),
{
    let handles_json = match &instance.handles_json {
        Some(raw) => match parse_json(raw) {
            Ok(_) => Some(raw.clone()),
            Err(_) => None,
        },
        None => None,
    };
    LifecycleInput {
        subscription_id: owned(id),
        buyer_pubkey: owned(buyer_hex),
        instance_id: instance.id.clone(),
        box_id: instance.box_id.clone(),
        kind: instance.kind.clone(),
        state: instance.state.clone(),
        handles_json,
    }
}

// ---- becoming active -------------------------------------------------------------------------

/// Whether a subscription has this id and waits to be resumed.
pub open spec fn is_resuming(s: Subscription, id: Seq<char>) -> bool {
    s.id@ == id && s.state == SubState::Resuming
}

/// Being the subscription with this id that waits to be resumed.
pub open spec fn resuming(id: Seq<char>) -> spec_fn(Subscription) -> bool {
    |s: Subscription| is_resuming(s, id)
}

/// The timers that a subscription gets back.
#[derive(Clone, Copy, Debug, PartialEq, Eq, Structural)]
pub struct Timers {
    pub paid_through: Option<i64>,
    pub soft_date: Option<i64>,
    pub next_deadline: Option<i64>,
    pub suspend_not_before: Option<i64>,
}

/// A subscription that waited to be resumed, in its next state: active, or suspended with the given
/// timers.
pub open spec fn resolved(s: Subscription, timers: Option<Timers>, now: i64) -> Subscription {
    match timers {
        None => Subscription { state: SubState::Active, updated_at: Some(now), ..s },
        Some(t) => Subscription {
            state: SubState::Suspended,
            paid_through: t.paid_through,
            soft_date: t.soft_date,
            next_deadline: t.next_deadline,
            suspend_not_before: t.suspend_not_before,
            updated_at: Some(now),
            ..s
        },
    }
}

/// The subscriptions with the one that waited to be resumed in its next state.
pub open spec fn with_resolved(subs: Seq<Subscription>, id: Seq<char>, timers: Option<Timers>, now: i64) -> Seq<
    Subscription,
> {
    subs.map_values(
        |s: Subscription|
            if is_resuming(s, id) {
                resolved(s, timers, now)
            } else {
                s
            },
    )
}

fn resolve(subs: &mut Vec<Subscription>, id: &str, timers: Option<Timers>, now: i64) -> (r: bool)
    ensures
        final(subs)@ == with_resolved(old(subs)@, id@, timers, now),
        r == any(old(subs)@, resuming(id@)),
{
    let mut found = false;
    let mut i: usize = 0;
    while i < subs.len()
        invariant
            i <= subs@.len(),
            subs@.len() == old(subs)@.len(),
            forall|k: int|
                0 <= k < i ==> #[trigger] subs@[k] == with_resolved(old(subs)@, id@, timers, now)[k],
            forall|k: int| i <= k < subs@.len() ==> #[trigger] subs@[k] == old(subs)@[k],
            !found ==> forall|k: int| 0 <= k < i ==> !is_resuming(#[trigger] old(subs)@[k], id@),
            found ==> any(old(subs)@, resuming(id@)),
        decreases subs@.len() - i,
    {
        assert(subs@[i as int] == old(subs)@[i as int]);
        if same(&subs[i].id, id) && subs[i].state == SubState::Resuming {
            assert(resuming(id@)(old(subs)@[i as int]));
            match timers {
                None => {
                    subs[i].state = SubState::Active;
                },
                Some(t) => {
                    subs[i].state = SubState::Suspended;
                    subs[i].paid_through = t.paid_through;
                    subs[i].soft_date = t.soft_date;
                    subs[i].next_deadline = t.next_deadline;
                    subs[i].suspend_not_before = t.suspend_not_before;
                },
            }
            subs[i].updated_at = Some(now);
            found = true;
        }
        i = i + 1;
    }
    assert(subs@ =~= with_resolved(old(subs)@, id@, timers, now));
    found
}

fn is_waiting(subs: &Vec<Subscription>, id: &str) -> (r: bool)
    ensures
        r == any(subs@, resuming(id@)),
{
    let mut i: usize = 0;
    while i < subs.len()
        invariant
            i <= subs@.len(),
            forall|k: int| 0 <= k < i ==> !resuming(id@)(#[trigger] subs@[k]),
        decreases subs@.len() - i,
    {
        if same(&subs[i].id, id) && subs[i].state == SubState::Resuming {
            assert(resuming(id@)(subs@[i as int]));
            return true;
        }
        i = i + 1;
    }
    false
}

/// Whether `new` is `old` with the subscription made active and that journaled, if it still waited to be
/// resumed, and `r` what became of it.
pub open spec fn made_active(
    old: Tables,
    new: Tables,
    id: Seq<char>,
    now: i64,
    r: ResumeOutcome,
) -> bool {
    if any(old.subscriptions@, resuming(id)) {
        &&& r == ResumeOutcome::Active
        &&& new.subscriptions@ == with_resolved(old.subscriptions@, id, None, now)
        &&& events_added(old, new, 1)
        &&& is_event(new.events@.last(), Some(id), EventKind::ResumeActive, now)
        &&& new.events@.last().detail is Empty
        &&& new == (Tables {
            subscriptions: new.subscriptions,
            events: new.events,
            next_event_id: new.next_event_id,
            ..old
        })
    } else {
        r == ResumeOutcome::Skipped && new == old
    }
}

/// Makes a subscription active, if it still waits to be resumed.
pub fn mark_active(t: &mut Tables, id: &str, now: i64) -> (r: ResumeOutcome)
    requires
        old(t).next_event_id < i64::MAX,
    ensures
        made_active(*old(t), *final(t), id@, now, r),
{
    if !is_waiting(&t.subscriptions, id) {
        return ResumeOutcome::Skipped;
    }
    let _ = resolve(&mut t.subscriptions, id, None, now);
    t.journal(Some(owned(id)), EventKind::ResumeActive, EventDetail::Empty, now);
    ResumeOutcome::Active
}

// ---- the baselines of paid renewals ----------------------------------------------------------

/// What a paid renewal of a suspended subscription journals: the payment, and the timers from before
/// it.
#[derive(Clone, Debug)]
pub struct RenewResumeBaseline {
    pub external_id: String,
    pub amount_sat: Option<i64>,
    pub previous_paid_through: Option<i64>,
    pub previous_suspend_not_before: Option<i64>,
}

/// [`RenewResumeBaseline`] as a mathematical value.
pub struct BaselineView {
    pub external_id: Seq<char>,
    pub amount_sat: Option<i64>,
    pub previous_paid_through: Option<i64>,
    pub previous_suspend_not_before: Option<i64>,
}

impl View for RenewResumeBaseline {
    type V = BaselineView;

    open spec fn view(&self) -> BaselineView {
        BaselineView {
            external_id: self.external_id@,
            amount_sat: self.amount_sat,
            previous_paid_through: self.previous_paid_through,
            previous_suspend_not_before: self.previous_suspend_not_before,
        }
    }
}

/// Baselines by their views.
pub open spec fn baseline_views(bs: Seq<RenewResumeBaseline>) -> Seq<BaselineView> {
    bs.map_values(|b: RenewResumeBaseline| b@)
}

/// Why a baseline could not be read.
#[derive(Clone, Debug)]
pub enum BaselineError {
    /// The entry is no JSON document; the parser's words.
    NotJson(String),
    /// A member is missing or of the wrong type.
    BadMember(&'static str),
}

/// [`BaselineError`] as a mathematical value.
pub enum BaselineFault {
    NotJson(Seq<char>),
    BadMember(Seq<char>),
}

impl View for BaselineError {
    type V = BaselineFault;

    open spec fn view(&self) -> BaselineFault {
        match self {
            BaselineError::NotJson(e) => BaselineFault::NotJson(e@),
            BaselineError::BadMember(m) => BaselineFault::BadMember(m@),
        }
    }
}

/// An optional number under a key: none where it is missing or null, and a fault where it is anything
/// but a 64-bit number.
pub open spec fn optional_number(members: Seq<(Seq<char>, JsonView)>, key: Seq<char>) -> Result<
    Option<i64>,
    BaselineFault,
> {
    match value_of(members, key) {
        None => Ok(None),
        Some(JsonView::Null) => Ok(None),
        Some(JsonView::Number { unsigned, signed: Some(n) }) => Ok(Some(n)),
        Some(_) => Err(BaselineFault::BadMember(key)),
    }
}

/// The baseline that a document holds. A document without both of the earlier timers is of an older
/// form and is passed over.
pub open spec fn baseline_of(doc: Result<JsonDocView, Seq<char>>) -> Result<
    Option<BaselineView>,
    BaselineFault,
> {
    match doc {
        Err(e) => Err(BaselineFault::NotJson(e)),
        Ok(JsonDocView::Other) => Ok(None),
        Ok(JsonDocView::Object(m)) => if value_of(m, "previous_paid_through"@) is None || value_of(
            m,
            "previous_suspend_not_before"@,
        ) is None {
            Ok(None)
        } else {
            match value_of(m, "external_id"@) {
                Some(JsonView::Text(ext)) => match (
                    optional_number(m, "amount_sat"@),
                    optional_number(m, "previous_paid_through"@),
                    optional_number(m, "previous_suspend_not_before"@),
                ) {
                    (Ok(amount_sat), Ok(paid), Ok(floor)) => Ok(
                        Some(
                            BaselineView {
                                external_id: ext,
                                amount_sat,
                                previous_paid_through: paid,
                                previous_suspend_not_before: floor,
                            },
                        ),
                    ),
                    (Err(e), _, _) => Err(e),
                    (_, Err(e), _) => Err(e),
                    (_, _, Err(e)) => Err(e),
                },
                _ => Err(BaselineFault::BadMember("external_id"@)),
            }
        },
    }
}

/// A result whose two sides are taken by their views.
pub open spec fn baseline_result(r: Result<Option<RenewResumeBaseline>, BaselineError>) -> Result<
    Option<BaselineView>,
    BaselineFault,
> {
    match r {
        Ok(Some(b)) => Ok(Some(b@)),
        Ok(None) => Ok(None),
        Err(e) => Err(e@),
    }
}

fn read_number(members: &Vec<JsonMember>, key: &'static str) -> (r: Result<
    Option<i64>,
    BaselineError,
>)
    ensures
        optional_number(members_view(members@), key@) == match r {
            Ok(n) => Ok::<Option<i64>, BaselineFault>(n),
            Err(e) => Err(e@),
        },
{
    match find_value(members, key) {
        None => Ok(None),
        Some(JsonValue::Null) => Ok(None),
        Some(JsonValue::Number { unsigned: _, signed: Some(n) }) => Ok(Some(*n)),
        Some(_) => Err(BaselineError::BadMember(key)),
    }
}

/// The baseline that a parsed document holds.
pub fn baseline_from(doc: Result<JsonDoc, String>) -> (r: Result<
    Option<RenewResumeBaseline>,
    BaselineError,
>)
    ensures
        baseline_result(r) == baseline_of(doc_view(doc)),
{
    match doc {
        Err(e) => Err(BaselineError::NotJson(e)),
        Ok(JsonDoc::Other) => Ok(None),
        Ok(JsonDoc::Object(m)) => {
            if find_value(&m, "previous_paid_through").is_none() || find_value(
                &m,
                "previous_suspend_not_before",
            ).is_none() {
                return Ok(None);
            }
            let external_id = match find_value(&m, "external_id") {
                Some(JsonValue::Text(ext)) => ext.clone(),
                _ => {
                    return Err(BaselineError::BadMember("external_id"));
                },
            };
            let amount_sat: Option<i64> = match read_number(&m, "amount_sat") {
                Ok(n) => n,
                Err(e) => {
                    return Err(e);
                },
            };
            let previous_paid_through: Option<i64> = match read_number(&m, "previous_paid_through") {
                Ok(n) => n,
                Err(e) => {
                    return Err(e);
                },
            };
            let previous_suspend_not_before: Option<i64> = match read_number(
                &m,
                "previous_suspend_not_before",
            ) {
                Ok(n) => n,
                Err(e) => {
                    return Err(e);
                },
            };
            Ok(
                Some(
                    RenewResumeBaseline {
                        external_id,
                        amount_sat,
                        previous_paid_through,
                        previous_suspend_not_before,
                    },
                ),
            )
        },
    }
}

/// The baseline that an entry of the event log holds.
pub fn parse_renew_resume_baseline(raw: &str) -> (r: Result<
    Option<RenewResumeBaseline>,
    BaselineError,
>)
    ensures
        baseline_result(r) == baseline_of(json(raw@)),
{
    baseline_from(parse_json(raw))
}

/// Whether an event resolves the renewals of a subscription.
pub open spec fn is_resolution(e: Event, id: Seq<char>) -> bool {
    is_text(e.subscription_id, id) && (e.kind == EventKind::ResumeActive || e.kind
        == EventKind::ResumeFailed)
}

/// The id of the last event that resolved the renewals of a subscription, at least zero.
pub open spec fn last_resolution(events: Seq<Event>, id: Seq<char>) -> Option<i64>
    decreases events.len(),
{
    if events.len() == 0 {
        None
    } else {
        let rest = last_resolution(events.drop_last(), id);
        let e = events.last();
        if is_resolution(e, id) {
            match rest {
                Some(n) => Some(
                    if n >= e.id {
                        n
                    } else {
                        e.id
                    },
                ),
                None => Some(e.id),
            }
        } else {
            rest
        }
    }
}

/// Whether an event is a paid renewal that nothing resolved yet.
pub open spec fn is_unresolved_renewal(e: Event, id: Seq<char>, after: i64) -> bool {
    is_text(e.subscription_id, id) && e.kind == EventKind::RenewResume && e.id > after
}

/// The baseline that an event holds: only a raw document can hold one.
pub open spec fn event_baseline(e: Event) -> Result<Option<BaselineView>, BaselineFault> {
    match e.detail {
        EventDetail::Raw(raw) => baseline_of(json(raw@)),
        _ => Ok(None),
    }
}

/// The baselines of the renewals that nothing resolved yet, or the first fault among them.
pub open spec fn baselines(events: Seq<Event>, id: Seq<char>, after: i64) -> Result<
    Seq<BaselineView>,
    BaselineFault,
>
    decreases events.len(),
{
    if events.len() == 0 {
        Ok(Seq::empty())
    } else {
        match baselines(events.drop_last(), id, after) {
            Err(e) => Err(e),
            Ok(s) => if is_unresolved_renewal(events.last(), id, after) {
                match event_baseline(events.last()) {
                    Err(e) => Err(e),
                    Ok(Some(b)) => Ok(s.push(b)),
                    Ok(None) => Ok(s),
                }
            } else {
                Ok(s)
            },
        }
    }
}

fn find_last_resolution(t: &Tables, id: &str) -> (r: i64)
    ensures
        r == or_zero(last_resolution(t.events@, id@)),
{
    let mut last: Option<i64> = None;
    let mut i: usize = 0;
    assert(t.events@.take(0) =~= Seq::empty());
    while i < t.events.len()
        invariant
            i <= t.events@.len(),
            last == last_resolution(t.events@.take(i as int), id@),
        decreases t.events@.len() - i,
    {
        let e = &t.events[i];
        assert(t.events@.take(i + 1).drop_last() =~= t.events@.take(i as int));
        if holds_text(&e.subscription_id, id) && (e.kind == EventKind::ResumeActive || e.kind
            == EventKind::ResumeFailed) {
            last =
            match last {
                Some(n) => Some(
                    if n >= e.id {
                        n
                    } else {
                        e.id
                    },
                ),
                None => Some(e.id),
            };
        }
        i = i + 1;
    }
    assert(t.events@.take(i as int) =~= t.events@);
    number_or_zero(last)
}

/// Once a fault is among the first events, it is the fault of all of them.
proof fn lemma_fault_stays(events: Seq<Event>, n: int, id: Seq<char>, after: i64)
    requires
        0 <= n <= events.len(),
        baselines(events.take(n), id, after) is Err,
    ensures
        baselines(events, id, after) == baselines(events.take(n), id, after),
    decreases events.len() - n,
{
    if n == events.len() {
        assert(events.take(n) =~= events);
    } else {
        let init = events.drop_last();
        assert(init.take(n) =~= events.take(n));
        lemma_fault_stays(init, n, id, after);
    }
}

/// The baselines of the renewals that were paid since the subscription's renewals were last resolved, or
/// the first fault among them.
pub open spec fn pending_baselines(events: Seq<Event>, id: Seq<char>) -> Result<
    Seq<BaselineView>,
    BaselineFault,
> {
    baselines(events, id, or_zero(last_resolution(events, id)))
}

/// The baselines of the renewals that were paid since the subscription's renewals were last resolved.
pub fn pending_renew_resumes(t: &Tables, id: &str) -> (r: Result<
    Vec<RenewResumeBaseline>,
    BaselineError,
>)
    ensures
        pending_baselines(t.events@, id@) == match r {
            Ok(bs) => Ok::<Seq<BaselineView>, BaselineFault>(baseline_views(bs@)),
            Err(e) => Err(e@),
        },
{
    let after: i64 = find_last_resolution(t, id);
    let mut out: Vec<RenewResumeBaseline> = Vec::new();
    let mut i: usize = 0;
    proof {
        assert(t.events@.take(0) =~= Seq::empty());
        assert(baseline_views(out@) =~= Seq::empty());
    }
    while i < t.events.len()
        invariant
            i <= t.events@.len(),
            after == or_zero(last_resolution(t.events@, id@)),
            baselines(t.events@.take(i as int), id@, after) == Ok::<
                Seq<BaselineView>,
                BaselineFault,
            >(baseline_views(out@)),
        decreases t.events@.len() - i,
    {
        let e = &t.events[i];
        assert(t.events@.take(i + 1).drop_last() =~= t.events@.take(i as int));
        assert(t.events@.take(i + 1).last() == *e);
        if holds_text(&e.subscription_id, id) && e.kind == EventKind::RenewResume && e.id > after {
            if let EventDetail::Raw(raw) = &e.detail {
                match parse_renew_resume_baseline(raw) {
                    Err(fault) => {
                        proof {
                            lemma_fault_stays(t.events@, i + 1, id@, after);
                        }
                        return Err(fault);
                    },
                    Ok(Some(b)) => {
                        let ghost before = out@;
                        out.push(b);
                        assert(baseline_views(out@) =~= baseline_views(before).push(b@));
                    },
                    Ok(None) => {},
                }
            }
        }
        i = i + 1;
    }
    assert(t.events@.take(i as int) =~= t.events@);
    Ok(out)
}

/// What is wrong with the renewals of a subscription, if anything is: there is none, or one has no
/// external id.
pub open spec fn renewals_fault(id: Seq<char>, bs: Seq<BaselineView>) -> Option<Seq<char>> {
    if bs.len() == 0 {
        Some("resume: RESUMING sub `"@ + id + "` has no renew_resume journal baseline"@)
    } else if any(bs, |b: BaselineView| trimmed(b.external_id).len() == 0) {
        Some("resume: RESUMING sub `"@ + id + "` has an empty renewal external_id"@)
    } else {
        None
    }
}

/// Checks that there are renewals, each with an external id.
pub fn validate_renewals(id: &str, renewals: &Vec<RenewResumeBaseline>) -> (r: Result<(), String>)
    ensures
        renewals_fault(id@, baseline_views(renewals@)) == match r {
            Ok(()) => None,
            Err(e) => Some(e@),
        },
{
    if renewals.len() == 0 {
        return Err(
            cat3("resume: RESUMING sub `", id, "` has no renew_resume journal baseline"),
        );
    }
    let mut i: usize = 0;
    while i < renewals.len()
        invariant
            renewals@.len() > 0,
            i <= renewals@.len(),
            forall|k: int|
                0 <= k < i ==> trimmed((#[trigger] renewals@[k]).external_id@).len() != 0,
        decreases renewals@.len() - i,
    {
        let clean = trim(&renewals[i].external_id);
        if clean.as_str().is_empty() {
            proof {
                let bs = baseline_views(renewals@);
                assert(trimmed(bs[i as int].external_id).len() == 0);
            }
            return Err(cat3("resume: RESUMING sub `", id, "` has an empty renewal external_id"));
        }
        i = i + 1;
    }
    proof {
        let bs = baseline_views(renewals@);
        assert forall|k: int| 0 <= k < bs.len() implies trimmed(
            (#[trigger] bs[k]).external_id,
        ).len() != 0 by {
            assert(trimmed(renewals@[k].external_id@).len() != 0);
        }
    }
    Ok(())
}

// ---- failing for good ------------------------------------------------------------------------

/// The timers from before the first renewal, as wide numbers: the soft date lies the renewal lead
/// before what was paid for, and the deadline the retention after the later of that and the
/// suspension floor.
pub open spec fn restored(b: BaselineView, renew_lead_s: i64, retention_s: i64) -> (
    Option<int>,
    Option<int>,
) {
    match b.previous_paid_through {
        Some(pt) => (
            Some(pt - renew_lead_s),
            Some(
                (match b.previous_suspend_not_before {
                    Some(floor) => if floor > pt {
                        floor
                    } else {
                        pt
                    },
                    None => pt,
                }) + retention_s,
            ),
        ),
        None => (None, None),
    }
}

/// Whether the restored timers can be stored.
pub open spec fn timers_fit(b: BaselineView, renew_lead_s: i64, retention_s: i64) -> bool {
    let r = restored(b, renew_lead_s, retention_s);
    &&& r.0 matches Some(x) ==> i64::MIN <= x <= i64::MAX
    &&& r.1 matches Some(x) ==> i64::MIN <= x <= i64::MAX
}

/// The timers that a subscription gets back.
pub open spec fn restored_timers(b: BaselineView, renew_lead_s: i64, retention_s: i64) -> Timers {
    let r = restored(b, renew_lead_s, retention_s);
    Timers {
        paid_through: b.previous_paid_through,
        soft_date: match r.0 {
            Some(x) => Some(x as i64),
            None => None,
        },
        next_deadline: match r.1 {
            Some(x) => Some(x as i64),
            None => None,
        },
        suspend_not_before: b.previous_suspend_not_before,
    }
}

/// Being the refund with this key.
pub open spec fn refund_key_is(key: Seq<char>) -> spec_fn(RefundAttempt) -> bool {
    |a: RefundAttempt| a.idempotency_key@ == key
}

/// Being the baseline of this payment.
pub open spec fn baseline_ext(ext: Seq<char>) -> spec_fn(BaselineView) -> bool {
    |b: BaselineView| b.external_id == ext
}

/// The renewals for which a refund is new: not in the ledger yet, and each payment once.
pub open spec fn new_refunds(ledger: Seq<RefundAttempt>, bs: Seq<BaselineView>) -> Seq<BaselineView>
    decreases bs.len(),
{
    if bs.len() == 0 {
        Seq::empty()
    } else {
        let rest = new_refunds(ledger, bs.drop_last());
        let b = bs.last();
        if any(ledger, refund_key_is("refund:"@ + b.external_id)) || any(
            rest,
            baseline_ext(b.external_id),
        ) {
            rest
        } else {
            rest.push(b)
        }
    }
}

/// Whether a row of the ledger is the new refund of a renewal.
pub open spec fn is_renewal_refund(
    a: RefundAttempt,
    b: BaselineView,
    id: Seq<char>,
    dest: Option<String>,
    now: i64,
) -> bool {
    &&& opt_view(a.id) == Some("ref-"@ + b.external_id)
    &&& opt_view(a.subscription_id) == Some(id)
    &&& a.dest == dest
    &&& a.amount_sat == b.amount_sat
    &&& a.idempotency_key@ == "refund:"@ + b.external_id
    &&& a.backend_payment_id is None
    &&& a.status == RefundStatus::Pending
    &&& a.attempts == Some(0i64)
    &&& a.resolved_bolt11 is None
    &&& a.resolved_expiry is None
    &&& a.resolution_gen == 0
    &&& a.created_at == Some(now)
    &&& a.updated_at == Some(now)
}

/// Whether `new` is the ledger `old` with a refund for each renewal that has none yet.
pub open spec fn renewals_refunded(
    old: Seq<RefundAttempt>,
    new: Seq<RefundAttempt>,
    bs: Seq<BaselineView>,
    id: Seq<char>,
    dest: Option<String>,
    now: i64,
) -> bool {
    let fresh = new_refunds(old, bs);
    &&& new.len() == old.len() + fresh.len()
    &&& new.take(old.len() as int) == old
    &&& forall|i: int|
        0 <= i < fresh.len() ==> is_renewal_refund(
            new[old.len() + i],
            #[trigger] fresh[i],
            id,
            dest,
            now,
        )
}

/// The ids under which renewals are refunded.
pub open spec fn refund_ids(bs: Seq<BaselineView>) -> Seq<Seq<char>> {
    bs.map_values(|b: BaselineView| "ref-"@ + b.external_id)
}

/// The external ids of renewals.
pub open spec fn external_ids(bs: Seq<BaselineView>) -> Seq<Seq<char>> {
    bs.map_values(|b: BaselineView| b.external_id)
}

/// Whether `new` is `old` with the failed resume recorded: the subscription is suspended with the
/// timers from before the first renewal, each renewal is refunded, and all of it is journaled.
pub open spec fn failure_written(
    old: Tables,
    new: Tables,
    w: ResumeFailureWrite,
    bs: Seq<BaselineView>,
) -> bool {
    let id = w.subscription_id@;
    &&& new.subscriptions@ == with_resolved(
        old.subscriptions@,
        id,
        Some(restored_timers(bs[0], w.renew_lead_s, w.retention_s)),
        w.now,
    )
    &&& renewals_refunded(old.refunds@, new.refunds@, bs, id, w.dest, w.now)
    &&& events_added(old, new, 1)
    &&& is_event(new.events@.last(), Some(id), EventKind::ResumeFailed, w.now)
    &&& new.events@.last().detail matches EventDetail::ResumeFailed {
        external_ids: e,
        refund_ids: r,
    }
    &&& texts(e@) == external_ids(bs)
    &&& texts(r@) == refund_ids(bs)
    &&& new == (Tables {
        subscriptions: new.subscriptions,
        refunds: new.refunds,
        events: new.events,
        next_event_id: new.next_event_id,
        ..old
    })
}

/// What a failed resume writes.
#[derive(Clone, Debug)]
pub struct ResumeFailureWrite {
    pub subscription_id: String,
    pub dest: Option<String>,
    pub renew_lead_s: i64,
    pub retention_s: i64,
    pub now: i64,
}

fn has_key(rows: &Vec<RefundAttempt>, key: &str) -> (r: bool)
    ensures
        r == any(rows@, refund_key_is(key@)),
{
    let mut i: usize = 0;
    while i < rows.len()
        invariant
            i <= rows@.len(),
            forall|k: int| 0 <= k < i ==> !refund_key_is(key@)(#[trigger] rows@[k]),
        decreases rows@.len() - i,
    {
        if same(&rows[i].idempotency_key, key) {
            assert(refund_key_is(key@)(rows@[i as int]));
            return true;
        }
        i = i + 1;
    }
    false
}

/// A key is in the ledger where it was before, or where one of the refunds that were added has it.
proof fn lemma_key_present(
    old: Seq<RefundAttempt>,
    new: Seq<RefundAttempt>,
    bs: Seq<BaselineView>,
    id: Seq<char>,
    dest: Option<String>,
    now: i64,
    ext: Seq<char>,
)
    requires
        renewals_refunded(old, new, bs, id, dest, now),
    ensures
        any(new, refund_key_is("refund:"@ + ext)) == (any(old, refund_key_is("refund:"@ + ext))
            || any(new_refunds(old, bs), baseline_ext(ext))),
{
    let p = refund_key_is("refund:"@ + ext);
    let fresh = new_refunds(old, bs);
    if any(new, p) {
        let k = choose|k: int| 0 <= k < new.len() && p(#[trigger] new[k]);
        if k < old.len() {
            assert(new.take(old.len() as int)[k] == new[k]);
            assert(p(old[k]));
        } else {
            let b = fresh[k - old.len()];
            assert(is_renewal_refund(new[old.len() + (k - old.len())], b, id, dest, now));
            assert(("refund:"@ + b.external_id).skip("refund:"@.len() as int) =~= b.external_id);
            assert(("refund:"@ + ext).skip("refund:"@.len() as int) =~= ext);
            assert(baseline_ext(ext)(fresh[k - old.len()]));
        }
    }
    if any(old, p) {
        let k = choose|k: int| 0 <= k < old.len() && p(#[trigger] old[k]);
        assert(new.take(old.len() as int)[k] == new[k]);
        assert(p(new[k]));
    }
    if any(fresh, baseline_ext(ext)) {
        let k = choose|k: int| 0 <= k < fresh.len() && baseline_ext(ext)(#[trigger] fresh[k]);
        assert(is_renewal_refund(new[old.len() + k], fresh[k], id, dest, now));
        assert(p(new[old.len() + k]));
    }
}

impl ResumeFailureWrite {
    /// What a failed resume of the target writes.
    pub fn new(id: &str, t: &ResumeTarget, now: i64) -> (r: ResumeFailureWrite)
        ensures
            r.subscription_id@ == id@,
            r.dest == t.refund_dest,
            r.renew_lead_s == t.renew_lead_s,
            r.retention_s == t.retention_s,
            r.now == now,
    {
        ResumeFailureWrite {
            subscription_id: owned(id),
            dest: t.refund_dest.clone(),
            renew_lead_s: t.renew_lead_s,
            retention_s: t.retention_s,
            now,
        }
    }

    fn timers(&self, first: &RenewResumeBaseline) -> (r: Timers)
        requires
            timers_fit(first@, self.renew_lead_s, self.retention_s),
        ensures
            r == restored_timers(first@, self.renew_lead_s, self.retention_s),
    {
        match first.previous_paid_through {
            Some(pt) => {
                let from: i64 = match first.previous_suspend_not_before {
                    Some(floor) => {
                        if floor > pt {
                            floor
                        } else {
                            pt
                        }
                    },
                    None => pt,
                };
                Timers {
                    paid_through: Some(pt),
                    soft_date: Some(pt - self.renew_lead_s),
                    next_deadline: Some(from + self.retention_s),
                    suspend_not_before: first.previous_suspend_not_before,
                }
            },
            None => Timers {
                paid_through: None,
                soft_date: None,
                next_deadline: None,
                suspend_not_before: first.previous_suspend_not_before,
            },
        }
    }

    fn refund_renewals(&self, rows: &mut Vec<RefundAttempt>, renewals: &Vec<RenewResumeBaseline>)
        ensures
            renewals_refunded(
                old(rows)@,
                final(rows)@,
                baseline_views(renewals@),
                self.subscription_id@,
                self.dest,
                self.now,
            ),
    {
        let ghost bs = baseline_views(renewals@);
        let ghost before = rows@;
        let mut i: usize = 0;
        proof {
            assert(bs.take(0) =~= Seq::empty());
            assert(rows@.take(before.len() as int) =~= before);
        }
        while i < renewals.len()
            invariant
                i <= renewals@.len(),
                bs == baseline_views(renewals@),
                before == old(rows)@,
                renewals_refunded(
                    before,
                    rows@,
                    bs.take(i as int),
                    self.subscription_id@,
                    self.dest,
                    self.now,
                ),
            decreases renewals@.len() - i,
        {
            let b = &renewals[i];
            let key = cat2("refund:", &b.external_id);
            let ghost so_far = rows@;
            proof {
                assert(bs.take(i + 1).drop_last() =~= bs.take(i as int));
                assert(bs.take(i + 1).last() == b@);
                lemma_key_present(
                    before,
                    rows@,
                    bs.take(i as int),
                    self.subscription_id@,
                    self.dest,
                    self.now,
                    b.external_id@,
                );
            }
            if !has_key(rows, &key) {
                rows.push(
                    RefundAttempt {
                        id: Some(cat2("ref-", &b.external_id)),
                        subscription_id: Some(self.subscription_id.clone()),
                        dest: self.dest.clone(),
                        amount_sat: b.amount_sat,
                        idempotency_key: key,
                        backend_payment_id: None,
                        status: RefundStatus::Pending,
                        attempts: Some(0),
                        resolved_bolt11: None,
                        resolved_expiry: None,
                        resolution_gen: 0,
                        created_at: Some(self.now),
                        updated_at: Some(self.now),
                    },
                );
                proof {
                    let fresh = new_refunds(before, bs.take(i as int));
                    let next = new_refunds(before, bs.take(i + 1));
                    assert(next == fresh.push(b@));
                    assert(rows@.take(before.len() as int) =~= so_far.take(before.len() as int));
                    assert forall|k: int| 0 <= k < next.len() implies is_renewal_refund(
                        rows@[before.len() + k],
                        #[trigger] next[k],
                        self.subscription_id@,
                        self.dest,
                        self.now,
                    ) by {
                        if k < fresh.len() {
                            assert(next[k] == fresh[k]);
                            assert(rows@[before.len() + k] == so_far[before.len() + k]);
                        }
                    }
                }
            }
            i = i + 1;
        }
        assert(bs.take(i as int) =~= bs);
    }

    /// Suspends the subscription again, with the timers from before its first renewal, and refunds
    /// its renewals, if it still waits to be resumed. Says whether it did.
    pub fn write(self, t: &mut Tables, renewals: &Vec<RenewResumeBaseline>) -> (r: bool)
        requires
            renewals@.len() > 0,
            timers_fit(renewals@[0]@, self.renew_lead_s, self.retention_s),
            old(t).next_event_id < i64::MAX,
        ensures
            r == any(old(t).subscriptions@, resuming(self.subscription_id@)),
            r ==> failure_written(*old(t), *final(t), self, baseline_views(renewals@)),
            !r ==> *final(t) == *old(t),
    {
        if !is_waiting(&t.subscriptions, &self.subscription_id) {
            return false;
        }
        let timers = self.timers(&renewals[0]);
        let _ = resolve(&mut t.subscriptions, &self.subscription_id, Some(timers), self.now);
        self.refund_renewals(&mut t.refunds, renewals);
        let mut exts: Vec<String> = Vec::new();
        let mut ids: Vec<String> = Vec::new();
        let mut i: usize = 0;
        while i < renewals.len()
            invariant
                i <= renewals@.len(),
                exts@.len() == i,
                ids@.len() == i,
                forall|k: int|
                    0 <= k < i ==> (#[trigger] exts@[k])@ == renewals@[k].external_id@,
                forall|k: int|
                    0 <= k < i ==> (#[trigger] ids@[k])@ == "ref-"@ + renewals@[k].external_id@,
            decreases renewals@.len() - i,
        {
            exts.push(renewals[i].external_id.clone());
            ids.push(cat2("ref-", &renewals[i].external_id));
            i = i + 1;
        }
        proof {
            let bs = baseline_views(renewals@);
            assert(texts(exts@) =~= external_ids(bs));
            assert(texts(ids@) =~= refund_ids(bs));
        }
        t.journal(
            Some(self.subscription_id.clone()),
            EventKind::ResumeFailed,
            EventDetail::ResumeFailed { external_ids: exts, refund_ids: ids },
            self.now,
        );
        true
    }
}

/// Why a failed resume could not be written.
#[derive(Clone, Debug)]
pub enum ResumeError {
    Baseline(BaselineError),
    /// There is no renewal, or one has no external id.
    Renewals(String),
    /// The timers from before the renewal cannot be stored.
    Timers,
}

fn fits(b: &RenewResumeBaseline, renew_lead_s: i64, retention_s: i64) -> (r: bool)
    ensures
        r == timers_fit(b@, renew_lead_s, retention_s),
{
    match b.previous_paid_through {
        Some(pt) => {
            let from: i64 = match b.previous_suspend_not_before {
                Some(floor) => {
                    if floor > pt {
                        floor
                    } else {
                        pt
                    }
                },
                None => pt,
            };
            pt.checked_sub(renew_lead_s).is_some() && from.checked_add(retention_s).is_some()
        },
        None => true,
    }
}

/// Whether `new` is `old` with the failed resume of a target recorded, and `r` what became of it. Nothing
/// is recorded where the renewals cannot be read or refunded, where the timers cannot be stored, or where
/// the subscription no longer waits.
pub open spec fn resume_failed(
    old: Tables,
    new: Tables,
    id: Seq<char>,
    target: ResumeTarget,
    now: i64,
    r: Result<ResumeOutcome, ResumeError>,
) -> bool {
    match pending_baselines(old.events@, id) {
        Err(f) => (r matches Err(ResumeError::Baseline(e)) && e@ == f) && new == old,
        Ok(bs) => match renewals_fault(id, bs) {
            Some(m) => (r matches Err(ResumeError::Renewals(e)) && e@ == m) && new == old,
            None => if !timers_fit(bs[0], target.renew_lead_s, target.retention_s) {
                (r matches Err(ResumeError::Timers)) && new == old
            } else if any(old.subscriptions@, resuming(id)) {
                &&& r matches Ok(ResumeOutcome::SuspendedRefundPending)
                &&& exists|w: ResumeFailureWrite|
                    {
                        &&& w.subscription_id@ == id
                        &&& w.dest == target.refund_dest
                        &&& w.renew_lead_s == target.renew_lead_s
                        &&& w.retention_s == target.retention_s
                        &&& w.now == now
                        &&& #[trigger] failure_written(old, new, w, bs)
                    }
            } else {
                (r matches Ok(ResumeOutcome::Skipped)) && new == old
            },
        },
    }
}

/// Records that the resume of a target failed for good, if it still waits to be resumed.
pub fn fail_to_suspended_refund(t: &mut Tables, id: &str, target: &ResumeTarget, now: i64) -> (r: Result<
    ResumeOutcome,
    ResumeError,
>)
    requires
        old(t).next_event_id < i64::MAX,
    ensures
        resume_failed(*old(t), *final(t), id@, *target, now, r),
{
    let renewals = match pending_renew_resumes(t, id) {
        Ok(bs) => bs,
        Err(e) => {
            return Err(ResumeError::Baseline(e));
        },
    };
    match validate_renewals(id, &renewals) {
        Ok(()) => {},
        Err(e) => {
            return Err(ResumeError::Renewals(e));
        },
    }
    proof {
        assert(baseline_views(renewals@)[0] == renewals@[0]@);
    }
    if !fits(&renewals[0], target.renew_lead_s, target.retention_s) {
        return Err(ResumeError::Timers);
    }
    let w = ResumeFailureWrite::new(id, target, now);
    let ghost written = w;
    if w.write(t, &renewals) {
        assert(failure_written(*old(t), *t, written, baseline_views(renewals@)));
        Ok(ResumeOutcome::SuspendedRefundPending)
    } else {
        Ok(ResumeOutcome::Skipped)
    }
}

// ---- laws ------------------------------------------------------------------------------------

/// Once a resume is resolved, either way, the subscription no longer waits, so driving it again
/// changes nothing.
pub proof fn resume_resolves_once(
    subs: Seq<Subscription>,
    id: Seq<char>,
    timers: Option<Timers>,
    now: i64,
)
    ensures
        !any(with_resolved(subs, id, timers, now), resuming(id)),
{
    let after = with_resolved(subs, id, timers, now);
    assert forall|i: int| 0 <= i < after.len() implies !resuming(id)(#[trigger] after[i]) by {
        assert(subs[i].id@ == after[i].id@);
    }
}

/// A failed resume leaves the instance and the reservation alone, and never marks the subscription
/// itself as due for a refund: it only moves from waiting to suspended.
pub proof fn failed_resume_is_detached(
    old: Tables,
    new: Tables,
    w: ResumeFailureWrite,
    bs: Seq<BaselineView>,
    i: int,
)
    requires
        failure_written(old, new, w, bs),
        0 <= i < old.subscriptions@.len(),
    ensures
        new.instances == old.instances,
        new.reservations == old.reservations,
        new.subscriptions@[i] != old.subscriptions@[i] ==> old.subscriptions@[i].state
            == SubState::Resuming && new.subscriptions@[i].state == SubState::Suspended,
{
}

/// Every renewal has a refund in the ledger once the failed resume is recorded, and no payment has
/// two: the refunds that were added have keys of their own, which none of the earlier rows has.
pub proof fn every_renewal_is_refunded_once(
    old: Seq<RefundAttempt>,
    new: Seq<RefundAttempt>,
    bs: Seq<BaselineView>,
    id: Seq<char>,
    dest: Option<String>,
    now: i64,
)
    requires
        renewals_refunded(old, new, bs, id, dest, now),
    ensures
        forall|i: int|
            0 <= i < bs.len() ==> any(
                new,
                refund_key_is("refund:"@ + (#[trigger] bs[i]).external_id),
            ),
        forall|i: int, j: int|
            0 <= i < j < new.len() && j >= old.len() ==> (#[trigger] new[i]).idempotency_key@ != (
            #[trigger] new[j]).idempotency_key@,
{
    let fresh = new_refunds(old, bs);
    lemma_new_refunds(old, bs);
    assert forall|i: int| 0 <= i < bs.len() implies any(
        new,
        refund_key_is("refund:"@ + (#[trigger] bs[i]).external_id),
    ) by {
        lemma_key_present(old, new, bs, id, dest, now, bs[i].external_id);
    }
    let n = "refund:"@.len() as int;
    assert forall|i: int, j: int| 0 <= i < j < new.len() && j >= old.len() implies (
    #[trigger] new[i]).idempotency_key@ != (#[trigger] new[j]).idempotency_key@ by {
        let b = fresh[j - old.len()];
        assert(is_renewal_refund(new[old.len() + (j - old.len())], b, id, dest, now));
        assert(("refund:"@ + b.external_id).skip(n) =~= b.external_id);
        if i < old.len() {
            assert(new.take(old.len() as int)[i] == new[i]);
            assert(!any(old, refund_key_is("refund:"@ + b.external_id)));
            assert(!refund_key_is("refund:"@ + b.external_id)(old[i]));
        } else {
            let a = fresh[i - old.len()];
            assert(is_renewal_refund(new[old.len() + (i - old.len())], a, id, dest, now));
            assert(("refund:"@ + a.external_id).skip(n) =~= a.external_id);
            assert(a.external_id != b.external_id);
        }
    }
}

proof fn lemma_new_refunds(ledger: Seq<RefundAttempt>, bs: Seq<BaselineView>)
    ensures
        forall|i: int|
            0 <= i < bs.len() ==> any(
                ledger,
                refund_key_is("refund:"@ + (#[trigger] bs[i]).external_id),
            ) || any(new_refunds(ledger, bs), baseline_ext(bs[i].external_id)),
        forall|i: int|
            0 <= i < new_refunds(ledger, bs).len() ==> !any(
                ledger,
                refund_key_is("refund:"@ + (#[trigger] new_refunds(ledger, bs)[i]).external_id),
            ),
        forall|i: int, j: int|
            0 <= i < j < new_refunds(ledger, bs).len() ==> (#[trigger] new_refunds(
                ledger,
                bs,
            )[i]).external_id != (#[trigger] new_refunds(ledger, bs)[j]).external_id,
    decreases bs.len(),
{
    if bs.len() > 0 {
        let init = bs.drop_last();
        let rest = new_refunds(ledger, init);
        let all = new_refunds(ledger, bs);
        let b = bs.last();
        lemma_new_refunds(ledger, init);
        assert forall|i: int| 0 <= i < bs.len() implies any(
            ledger,
            refund_key_is("refund:"@ + (#[trigger] bs[i]).external_id),
        ) || any(all, baseline_ext(bs[i].external_id)) by {
            if i < init.len() {
                assert(init[i] == bs[i]);
                if any(rest, baseline_ext(bs[i].external_id)) {
                    let k = choose|k: int|
                        0 <= k < rest.len() && baseline_ext(bs[i].external_id)(#[trigger] rest[k]);
                    assert(baseline_ext(bs[i].external_id)(all[k]));
                }
            } else if all.len() > rest.len() {
                assert(baseline_ext(b.external_id)(all[rest.len() as int]));
            }
        }
        if all.len() > rest.len() {
            assert forall|i: int, j: int| 0 <= i < j < all.len() implies (
            #[trigger] all[i]).external_id != (#[trigger] all[j]).external_id by {
                if j == rest.len() {
                    assert(!baseline_ext(b.external_id)(rest[i]));
                }
            }
        }
    }
}

/// What the subscriptions hold once a failed resume is written. The one that waited is suspended, with
/// what it was paid through and the suspension floor from before the first renewal. Where it was paid
/// through some time, its soft date lies the renewal lead before that, and its deadline the retention
/// after the later of that and the floor, or after that where there is no floor. Everything else of it,
/// and every other subscription, is as it was.
pub proof fn failed_resume_restores_the_timers(
    old: Tables,
    new: Tables,
    w: ResumeFailureWrite,
    bs: Seq<BaselineView>,
    i: int,
)
    requires
        failure_written(old, new, w, bs),
        timers_fit(bs[0], w.renew_lead_s, w.retention_s),
        0 <= i < old.subscriptions@.len(),
    ensures
        new.subscriptions@.len() == old.subscriptions@.len(),
        ({
            let s = old.subscriptions@[i];
            let x = new.subscriptions@[i];
            if s.id@ == w.subscription_id@ && s.state == SubState::Resuming {
                &&& x.state == SubState::Suspended
                &&& x.paid_through == bs[0].previous_paid_through
                &&& x.suspend_not_before == bs[0].previous_suspend_not_before
                &&& bs[0].previous_paid_through is None ==> x.soft_date is None && x.next_deadline
                    is None
                &&& bs[0].previous_paid_through matches Some(pt) ==> {
                    &&& x.soft_date is Some
                    &&& x.soft_date->0 == pt - w.renew_lead_s
                    &&& x.next_deadline is Some
                    &&& x.next_deadline->0 - w.retention_s >= pt
                    &&& bs[0].previous_suspend_not_before matches Some(floor) ==> {
                        &&& x.next_deadline->0 - w.retention_s >= floor
                        &&& x.next_deadline->0 - w.retention_s == pt || x.next_deadline->0
                            - w.retention_s == floor
                    }
                    &&& bs[0].previous_suspend_not_before is None ==> x.next_deadline->0
                        - w.retention_s == pt
                }
                &&& x == (Subscription {
                    state: x.state,
                    paid_through: x.paid_through,
                    soft_date: x.soft_date,
                    next_deadline: x.next_deadline,
                    suspend_not_before: x.suspend_not_before,
                    updated_at: Some(w.now),
                    ..s
                })
            } else {
                x == s
            }
        }),
{
}

/// The restored timers can be stored exactly where there are none, or where the soft date and the
/// deadline are both 64-bit numbers.
pub proof fn timers_fit_where_both_can_be_stored(b: BaselineView, renew_lead_s: i64, retention_s: i64)
    ensures
        b.previous_paid_through is None ==> timers_fit(b, renew_lead_s, retention_s),
        b.previous_paid_through matches Some(pt) ==> {
            let from = if b.previous_suspend_not_before is Some && b.previous_suspend_not_before->0
                >= pt {
                b.previous_suspend_not_before->0 as int
            } else {
                pt as int
            };
            timers_fit(b, renew_lead_s, retention_s) <==> i64::MIN <= pt - renew_lead_s <= i64::MAX
                && i64::MIN <= from + retention_s <= i64::MAX
        },
{
}

/// A resumed subscription is active and keeps its timers; every other subscription is as it was.
pub proof fn resumed_subscription_is_active(
    subs: Seq<Subscription>,
    id: Seq<char>,
    now: i64,
    i: int,
)
    requires
        0 <= i < subs.len(),
    ensures
        ({
            let s = subs[i];
            let x = with_resolved(subs, id, None, now)[i];
            if s.id@ == id && s.state == SubState::Resuming {
                x == (Subscription { state: SubState::Active, updated_at: Some(now), ..s })
            } else {
                x == s
            }
        }),
{
}

/// Each refund that a failed resume adds is one of a renewal, the first of its payment: pending, of the
/// renewal's amount, to the subscription's destination, under the key and the id of that payment, with
/// no attempt counted and nothing resolved.
pub proof fn added_refund_is_of_a_renewal(
    old: Seq<RefundAttempt>,
    new: Seq<RefundAttempt>,
    bs: Seq<BaselineView>,
    id: Seq<char>,
    dest: Option<String>,
    now: i64,
    j: int,
)
    requires
        renewals_refunded(old, new, bs, id, dest, now),
        old.len() <= j < new.len(),
    ensures
        exists|i: int|
            {
                &&& 0 <= i < bs.len()
                &&& new[j].idempotency_key@ == "refund:"@ + (#[trigger] bs[i]).external_id
                &&& new[j].id matches Some(x)
                &&& x@ == "ref-"@ + bs[i].external_id
                &&& new[j].amount_sat == bs[i].amount_sat
                &&& forall|k: int|
                    0 <= k < i ==> (#[trigger] bs[k]).external_id != bs[i].external_id
            },
        new[j].subscription_id matches Some(x) && x@ == id,
        new[j].dest == dest,
        new[j].status == RefundStatus::Pending,
        new[j].attempts == Some(0i64),
        new[j].backend_payment_id is None,
        new[j].resolved_bolt11 is None,
        new[j].resolved_expiry is None,
        new[j].resolution_gen == 0,
        new[j].created_at == Some(now),
        new[j].updated_at == Some(now),
{
    let fresh = new_refunds(old, bs);
    let f = fresh[j - old.len()];
    lemma_new_refund_is_first(old, bs, j - old.len());
    assert(is_renewal_refund(new[old.len() + (j - old.len())], f, id, dest, now));
}

proof fn lemma_new_refund_is_first(ledger: Seq<RefundAttempt>, bs: Seq<BaselineView>, n: int)
    requires
        0 <= n < new_refunds(ledger, bs).len(),
    ensures
        exists|i: int|
            {
                &&& 0 <= i < bs.len()
                &&& #[trigger] bs[i] == new_refunds(ledger, bs)[n]
                &&& forall|k: int|
                    0 <= k < i ==> (#[trigger] bs[k]).external_id != bs[i].external_id
            },
    decreases bs.len(),
{
    let init = bs.drop_last();
    let rest = new_refunds(ledger, init);
    if n < rest.len() {
        lemma_new_refund_is_first(ledger, init, n);
        let i = choose|i: int|
            {
                &&& 0 <= i < init.len()
                &&& #[trigger] init[i] == rest[n]
                &&& forall|k: int|
                    0 <= k < i ==> (#[trigger] init[k]).external_id != init[i].external_id
            };
        assert(bs[i] == init[i]);
        assert forall|k: int| 0 <= k < i implies (#[trigger] bs[k]).external_id
            != bs[i].external_id by {
            assert(init[k] == bs[k]);
        }
    } else {
        let b = bs.last();
        assert(bs[bs.len() - 1] == b);
        lemma_new_refunds(ledger, init);
        assert forall|k: int| 0 <= k < bs.len() - 1 implies (#[trigger] bs[k]).external_id
            != b.external_id by {
            assert(init[k] == bs[k]);
        }
    }
}

/// The last resolution of a subscription's renewals is the largest id among the events that say that it
/// was resumed or that resuming it failed; there is none exactly where there is no such event.
pub proof fn last_resolution_is_the_largest(events: Seq<Event>, id: Seq<char>)
    ensures
        ({
            let resolves = |e: Event|
                (e.subscription_id matches Some(s) && s@ == id) && (e.kind
                    == EventKind::ResumeActive || e.kind == EventKind::ResumeFailed);
            match last_resolution(events, id) {
                Some(n) => {
                    &&& exists|i: int|
                        0 <= i < events.len() && resolves(#[trigger] events[i]) && events[i].id == n
                    &&& forall|i: int|
                        0 <= i < events.len() && resolves(#[trigger] events[i]) ==> events[i].id <= n
                },
                None => forall|i: int| 0 <= i < events.len() ==> !resolves(#[trigger] events[i]),
            }
        }),
    decreases events.len(),
{
    let resolves = |e: Event|
        (e.subscription_id matches Some(s) && s@ == id) && (e.kind == EventKind::ResumeActive
            || e.kind == EventKind::ResumeFailed);
    if events.len() > 0 {
        let init = events.drop_last();
        last_resolution_is_the_largest(init, id);
        let e = events.last();
        assert(events[events.len() - 1] == e);
        assert(resolves(e) == is_resolution(e, id));
        assert forall|i: int| 0 <= i < init.len() implies #[trigger] events[i] == init[i] by {}
        if let Some(n) = last_resolution(init, id) {
            let i = choose|i: int|
                0 <= i < init.len() && resolves(#[trigger] init[i]) && init[i].id == n;
            assert(resolves(events[i]) && events[i].id == n);
        }
    }
}

/// What is gathered of the renewals that were paid since. Where it can be read, it is what the events
/// of those renewals hold and nothing else, the first of them first; where it cannot, one of them
/// cannot be read.
pub proof fn renewals_are_gathered_in_order(events: Seq<Event>, id: Seq<char>, after: i64)
    ensures
        ({
            let pays = |e: Event|
                (e.subscription_id matches Some(s) && s@ == id) && e.kind == EventKind::RenewResume
                    && e.id > after;
            match baselines(events, id, after) {
                Ok(bs) => {
                    &&& forall|i: int|
                        0 <= i < events.len() && pays(#[trigger] events[i]) ==> event_baseline(
                            events[i],
                        ) is Ok
                    &&& forall|i: int|
                        0 <= i < events.len() && pays(#[trigger] events[i]) ==> (event_baseline(
                            events[i],
                        )->Ok_0 matches Some(b) ==> bs.contains(b))
                    &&& forall|j: int|
                        0 <= j < bs.len() ==> exists|i: int|
                            {
                                &&& 0 <= i < events.len()
                                &&& pays(#[trigger] events[i])
                                &&& event_baseline(events[i]) == Ok::<
                                    Option<BaselineView>,
                                    BaselineFault,
                                >(Some(#[trigger] bs[j]))
                            }
                    &&& bs.len() > 0 ==> exists|i: int|
                        {
                            &&& 0 <= i < events.len()
                            &&& pays(#[trigger] events[i])
                            &&& event_baseline(events[i]) == Ok::<Option<BaselineView>, BaselineFault>(
                                Some(bs[0]),
                            )
                            &&& forall|k: int|
                                0 <= k < i && pays(#[trigger] events[k]) ==> event_baseline(
                                    events[k],
                                ) == Ok::<Option<BaselineView>, BaselineFault>(None)
                        }
                },
                Err(f) => exists|i: int|
                    0 <= i < events.len() && pays(#[trigger] events[i]) && event_baseline(events[i])
                        == Err::<Option<BaselineView>, BaselineFault>(f),
            }
        }),
    decreases events.len(),
{
    let pays = |e: Event|
        (e.subscription_id matches Some(s) && s@ == id) && e.kind == EventKind::RenewResume && e.id
            > after;
    if events.len() > 0 {
        let init = events.drop_last();
        renewals_are_gathered_in_order(init, id, after);
        let e = events.last();
        let last = events.len() - 1;
        assert(events[last] == e);
        assert(pays(e) == is_unresolved_renewal(e, id, after));
        assert forall|i: int| 0 <= i < init.len() implies #[trigger] events[i] == init[i] by {}
        match baselines(init, id, after) {
            Err(f) => {
                let i = choose|i: int|
                    0 <= i < init.len() && pays(#[trigger] init[i]) && event_baseline(init[i])
                        == Err::<Option<BaselineView>, BaselineFault>(f);
                assert(pays(events[i]));
            },
            Ok(s) => {
                if let Ok(bs) = baselines(events, id, after) {
                    assert forall|i: int|
                        0 <= i < events.len() && pays(#[trigger] events[i]) implies (event_baseline(
                        events[i],
                    )->Ok_0 matches Some(b) ==> bs.contains(b)) by {
                        if let Some(b) = event_baseline(events[i])->Ok_0 {
                            if i < last {
                                assert(init[i] == events[i]);
                                assert(s.contains(b));
                                let k = choose|k: int| 0 <= k < s.len() && s[k] == b;
                                assert(bs[k] == b);
                            } else {
                                assert(bs[bs.len() - 1] == b);
                            }
                        }
                    }
                    assert forall|j: int| 0 <= j < bs.len() implies exists|i: int|
                        {
                            &&& 0 <= i < events.len()
                            &&& pays(#[trigger] events[i])
                            &&& event_baseline(events[i]) == Ok::<Option<BaselineView>, BaselineFault>(
                                Some(#[trigger] bs[j]),
                            )
                        } by {
                        if j < s.len() {
                            assert(bs[j] == s[j]);
                            let i = choose|i: int|
                                {
                                    &&& 0 <= i < init.len()
                                    &&& pays(#[trigger] init[i])
                                    &&& event_baseline(init[i]) == Ok::<
                                        Option<BaselineView>,
                                        BaselineFault,
                                    >(Some(s[j]))
                                };
                            assert(pays(events[i]));
                        } else {
                            assert(pays(events[last]));
                        }
                    }
                    if s.len() > 0 {
                        let i = choose|i: int|
                            {
                                &&& 0 <= i < init.len()
                                &&& pays(#[trigger] init[i])
                                &&& event_baseline(init[i]) == Ok::<
                                    Option<BaselineView>,
                                    BaselineFault,
                                >(Some(s[0]))
                                &&& forall|k: int|
                                    0 <= k < i && pays(#[trigger] init[k]) ==> event_baseline(
                                        init[k],
                                    ) == Ok::<Option<BaselineView>, BaselineFault>(None)
                            };
                        assert(pays(events[i]));
                        assert(bs[0] == s[0]);
                        assert forall|k: int| 0 <= k < i && pays(#[trigger] events[k]) implies event_baseline(
                            events[k],
                        ) == Ok::<Option<BaselineView>, BaselineFault>(None) by {
                            assert(init[k] == events[k]);
                        }
                    } else if bs.len() > 0 {
                        assert(pays(events[last]));
                        assert forall|k: int|
                            0 <= k < last && pays(#[trigger] events[k]) implies event_baseline(
                            events[k],
                        ) == Ok::<Option<BaselineView>, BaselineFault>(None) by {
                            assert(init[k] == events[k]);
                            assert(event_baseline(init[k]) is Ok);
                            if let Some(b) = event_baseline(init[k])->Ok_0 {
                                assert(s.contains(b));
                            }
                        }
                    }
                }
            },
        }
    }
}

/// A document of a renewal holds a baseline exactly where it names both of the earlier timers, its
/// external id is a text, and each of its three numbers is a 64-bit number, null or, for the amount,
/// missing. The baseline is what the document says. One that lacks either of the timers is passed over.
pub proof fn baseline_is_what_the_document_says(m: Seq<(Seq<char>, JsonView)>, b: BaselineView)
    ensures
        ({
            let paid = value_of(m, "previous_paid_through"@);
            let floor = value_of(m, "previous_suspend_not_before"@);
            let amount = value_of(m, "amount_sat"@);
            let ext = value_of(m, "external_id"@);
            let r = baseline_of(Ok(JsonDocView::Object(m)));
            let says = |v: Option<JsonView>, n: Option<i64>|
                match v {
                    Some(JsonView::Number { unsigned, signed: Some(x) }) => n == Some(x),
                    Some(JsonView::Null) => n is None,
                    None => n is None,
                    _ => false,
                };
            &&& paid is None || floor is None ==> r == Ok::<Option<BaselineView>, BaselineFault>(None)
            &&& r == Ok::<Option<BaselineView>, BaselineFault>(Some(b)) <==> {
                &&& paid is Some
                &&& floor is Some
                &&& ext == Some(JsonView::Text(b.external_id))
                &&& says(amount, b.amount_sat)
                &&& says(paid, b.previous_paid_through)
                &&& says(floor, b.previous_suspend_not_before)
            }
        }),
{
    let r = baseline_of(Ok(JsonDocView::Object(m)));
    if let Ok(Some(x)) = r {
        if x.external_id == b.external_id && x.amount_sat == b.amount_sat && x.previous_paid_through
            == b.previous_paid_through && x.previous_suspend_not_before
            == b.previous_suspend_not_before {
            assert(x == b);
        }
    }
}

/// What is driven stands for its subscription, with nothing made up: the timers are zero where the
/// subscription has none, and the instance is the first one with the subscription's instance id, if
/// there is one.
pub proof fn target_is_its_subscription(
    r: ResumeTarget,
    s: Subscription,
    instances: Seq<Instance>,
    n: int,
)
    requires
        is_target_of(r, s, instances),
    ensures
        r.state == s.state,
        s.buyer_pubkey matches Some(b) ==> r.buyer_hex@ == b@,
        s.buyer_pubkey is None ==> r.buyer_hex@.len() == 0,
        r.recipe_id == s.recipe_id,
        r.refund_dest == s.refund_dest,
        s.renew_lead_s matches Some(x) ==> r.renew_lead_s == x,
        s.renew_lead_s is None ==> r.renew_lead_s == 0,
        s.retention_s matches Some(x) ==> r.retention_s == x,
        s.retention_s is None ==> r.retention_s == 0,
        s.instance_id is None ==> r.instance is None,
        s.instance_id matches Some(id) ==> {
            &&& 0 <= n < instances.len() && instances[n].id@ == id@ && (forall|k: int|
                0 <= k < n ==> (#[trigger] instances[k]).id@ != id@) ==> {
                &&& r.instance matches Some(x)
                &&& x.id == instances[n].id
                &&& x.box_id == instances[n].box_id
                &&& x.kind == instances[n].kind
                &&& x.handles_json == instances[n].handles_json
                &&& x.state == instances[n].state
            }
            &&& (forall|k: int| 0 <= k < instances.len() ==> (#[trigger] instances[k]).id@ != id@)
                ==> r.instance is None
        },
{
    if let Some(id) = s.instance_id {
        let p = instance_id(id@);
        lemma_first_where(instances, p);
        if 0 <= n < instances.len() && instances[n].id@ == id@ && (forall|k: int|
            0 <= k < n ==> (#[trigger] instances[k]).id@ != id@) {
            lemma_first_where_at(instances, p, n);
        }
        let m = first_where(instances, p) as int;
        if m < instances.len() {
            assert(p(instances[m]));
        }
    }
}

/// Renewals can be refunded exactly where there is at least one and each has an external id that is
/// more than white space.
pub proof fn renewals_need_an_external_id(id: Seq<char>, bs: Seq<BaselineView>)
    ensures
        renewals_fault(id, bs) is None <==> bs.len() > 0 && (forall|i: int|
            0 <= i < bs.len() ==> trimmed((#[trigger] bs[i]).external_id).len() > 0),
{
    let p = |b: BaselineView| trimmed(b.external_id).len() == 0;
    if any(bs, p) {
        let i = choose|i: int| 0 <= i < bs.len() && p(#[trigger] bs[i]);
        assert(trimmed(bs[i].external_id).len() == 0);
    } else {
        assert forall|i: int| 0 <= i < bs.len() implies trimmed((#[trigger] bs[i]).external_id).len()
            > 0 by {
            assert(!p(bs[i]));
        }
    }
}

/// Which targets are driven: those that wait to be resumed by this very recipe. The hook is run where
/// there is an instance to run it on, and the resume fails where there is none.
pub proof fn only_waiting_targets_of_the_recipe_are_driven(
    target: Option<ResumeTarget>,
    recipe_id: Seq<char>,
)
    ensures
        ({
            let driven = target is Some && target->0.state == SubState::Resuming && (
            target->0.recipe_id matches Some(x) && x@ == recipe_id);
            let step = step_for(target, recipe_id);
            &&& step is Skip <==> !driven
            &&& step is RunHook <==> driven && target->0.instance is Some
            &&& step is Fail <==> driven && target->0.instance is None
        }),
{
}

/// The hook is tried three times at most, a quarter of a second apart, and never again once it
/// succeeded.
pub proof fn hook_is_tried_three_times(attempt: u32, succeeded: bool)
    ensures
        hook_step(attempt, succeeded) is Succeeded <==> succeeded,
        hook_step(attempt, succeeded) is GiveUp <==> !succeeded && attempt >= 3,
        hook_step(attempt, succeeded) matches HookStep::RetryAfter(ms) ==> ms == 250,
{
}

/// What the hook is told is of its own subscription, buyer and instance; its handles are passed on word
/// for word, and only where they are a JSON document.
pub proof fn hook_is_told_of_its_instance(
    input: LifecycleInput,
    id: Seq<char>,
    buyer_hex: Seq<char>,
    instance: ResumeInstance,
)
    requires
        is_input_of(input, id, buyer_hex, instance),
    ensures
        input.subscription_id@ == id,
        input.buyer_pubkey@ == buyer_hex,
        input.instance_id == instance.id,
        input.box_id == instance.box_id,
        input.kind == instance.kind,
        input.state == instance.state,
        input.handles_json is Some <==> instance.handles_json is Some && json(
            instance.handles_json->0@,
        ) is Ok,
        input.handles_json is Some ==> input.handles_json == instance.handles_json,
{
}

/// Making a subscription active, from the outside: where none with this id waits nothing changes at
/// all; where one does it is active, one event says so, and no money and no instance is touched.
pub proof fn only_a_waiting_subscription_is_made_active(
    old: Tables,
    new: Tables,
    id: Seq<char>,
    now: i64,
    r: ResumeOutcome,
    i: int,
)
    requires
        made_active(old, new, id, now, r),
        0 <= i < old.subscriptions@.len(),
    ensures
        ({
            let s = old.subscriptions@[i];
            let waits = exists|k: int|
                0 <= k < old.subscriptions@.len() && (#[trigger] old.subscriptions@[k]).id@ == id
                    && old.subscriptions@[k].state == SubState::Resuming;
            &&& r == (if waits {
                ResumeOutcome::Active
            } else {
                ResumeOutcome::Skipped
            })
            &&& !waits ==> new == old
            &&& waits ==> {
                &&& new.subscriptions@[i].state == (if s.id@ == id && s.state == SubState::Resuming {
                    SubState::Active
                } else {
                    s.state
                })
                &&& new.subscriptions@[i].paid_through == s.paid_through
                &&& new.subscriptions@[i].next_deadline == s.next_deadline
                &&& new.events@.len() == old.events@.len() + 1
                &&& new.events@.last().kind == EventKind::ResumeActive
                &&& new.events@.last().at == Some(now)
                &&& new.events@.last().subscription_id is Some
                &&& new.events@.last().subscription_id->0@ == id
                &&& new.events@.last().detail is Empty
            }
            &&& new.refunds == old.refunds
            &&& new.reservations == old.reservations
            &&& new.instances == old.instances
            &&& new.outbox == old.outbox
        }),
{
    lemma_waits(old.subscriptions@, id);
}

proof fn lemma_waits(subs: Seq<Subscription>, id: Seq<char>)
    ensures
        any(subs, resuming(id)) <==> exists|k: int|
            0 <= k < subs.len() && (#[trigger] subs[k]).id@ == id && subs[k].state
                == SubState::Resuming,
{
    let p = resuming(id);
    if any(subs, p) {
        let k = choose|k: int| 0 <= k < subs.len() && p(#[trigger] subs[k]);
        assert(subs[k].id@ == id);
    }
    assert forall|k: int|
        0 <= k < subs.len() && (#[trigger] subs[k]).id@ == id && subs[k].state
            == SubState::Resuming implies any(subs, p) by {
        assert(p(subs[k]));
    }
}

/// Recording a failed resume, from the outside. Nothing changes where it reports an error, and where no
/// subscription with this id waits, which it skips. Where one does, it is suspended, each renewal has a
/// refund to the target's destination, and one event names every renewal and every refund of theirs.
pub proof fn failed_resume_is_recorded_or_nothing_is(
    old: Tables,
    new: Tables,
    id: Seq<char>,
    target: ResumeTarget,
    now: i64,
    r: Result<ResumeOutcome, ResumeError>,
    i: int,
    j: int,
)
    requires
        resume_failed(old, new, id, target, now, r),
    ensures
        ({
            let waits = exists|k: int|
                0 <= k < old.subscriptions@.len() && (#[trigger] old.subscriptions@[k]).id@ == id
                    && old.subscriptions@[k].state == SubState::Resuming;
            &&& r is Err ==> new == old
            &&& r matches Ok(o) ==> o == (if waits {
                ResumeOutcome::SuspendedRefundPending
            } else {
                ResumeOutcome::Skipped
            })
            &&& r is Ok && !waits ==> new == old
            &&& r is Ok && waits ==> {
                &&& pending_baselines(old.events@, id) is Ok
                &&& 0 <= i < old.subscriptions@.len() && old.subscriptions@[i].id@ == id
                    && old.subscriptions@[i].state == SubState::Resuming ==> {
                    let first = pending_baselines(old.events@, id)->Ok_0[0];
                    &&& new.subscriptions@[i].state == SubState::Suspended
                    &&& new.subscriptions@[i].paid_through == first.previous_paid_through
                    &&& first.previous_paid_through matches Some(pt) ==> {
                        &&& new.subscriptions@[i].soft_date is Some
                        &&& new.subscriptions@[i].soft_date->0 == pt - target.renew_lead_s
                        &&& new.subscriptions@[i].next_deadline is Some
                        &&& new.subscriptions@[i].next_deadline->0 >= pt + target.retention_s
                        &&& first.previous_suspend_not_before is None
                            ==> new.subscriptions@[i].next_deadline->0 == pt + target.retention_s
                    }
                }
                &&& old.refunds@.len() <= j < new.refunds@.len() ==> {
                    &&& new.refunds@[j].dest == target.refund_dest
                    &&& new.refunds@[j].status == RefundStatus::Pending
                    &&& new.refunds@[j].subscription_id is Some
                    &&& new.refunds@[j].subscription_id->0@ == id
                }
                &&& new.events@.len() == old.events@.len() + 1
                &&& new.events@.last().kind == EventKind::ResumeFailed
                &&& new.events@.last().at == Some(now)
                &&& new.events@.last().subscription_id is Some
                &&& new.events@.last().subscription_id->0@ == id
                &&& new.events@.last().detail matches EventDetail::ResumeFailed {
                    external_ids,
                    refund_ids,
                }
                &&& external_ids@.len() > 0
                &&& refund_ids@.len() == external_ids@.len()
                &&& forall|k: int|
                    0 <= k < refund_ids@.len() ==> (#[trigger] refund_ids@[k])@ == "ref-"@
                        + external_ids@[k]@
            }
            &&& new.instances == old.instances
            &&& new.reservations == old.reservations
            &&& new.invoices == old.invoices
        }),
{
    lemma_waits(old.subscriptions@, id);
    if r is Ok && any(old.subscriptions@, resuming(id)) {
        let bs = pending_baselines(old.events@, id)->Ok_0;
        let w = choose|w: ResumeFailureWrite|
            {
                &&& w.subscription_id@ == id
                &&& w.dest == target.refund_dest
                &&& w.renew_lead_s == target.renew_lead_s
                &&& w.retention_s == target.retention_s
                &&& w.now == now
                &&& #[trigger] failure_written(old, new, w, bs)
            };
        if old.refunds@.len() <= j < new.refunds@.len() {
            added_refund_is_of_a_renewal(old.refunds@, new.refunds@, bs, id, w.dest, now, j);
        }
        if 0 <= i < old.subscriptions@.len() {
            failed_resume_restores_the_timers(old, new, w, bs, i);
        }
        if let EventDetail::ResumeFailed { external_ids: e, refund_ids: f } = new.events@.last().detail {
            assert(texts(e@).len() == e@.len());
            assert(texts(f@).len() == f@.len());
            assert forall|k: int| 0 <= k < f@.len() implies (#[trigger] f@[k])@ == "ref-"@ + e@[k]@ by {
                assert(texts(f@)[k] == f@[k]@);
                assert(texts(e@)[k] == e@[k]@);
                assert(refund_ids(bs)[k] == "ref-"@ + bs[k].external_id);
                assert(external_ids(bs)[k] == bs[k].external_id);
            }
        }
    }
}

/// A target is loaded exactly where there is a subscription with its id, and stands for the first one.
pub proof fn target_is_found_by_its_id(r: Option<ResumeTarget>, t: Tables, id: Seq<char>, n: int)
    requires
        is_target_with_id(r, t, id),
        0 <= n <= t.subscriptions@.len(),
        forall|k: int| 0 <= k < n ==> (#[trigger] t.subscriptions@[k]).id@ != id,
        n < t.subscriptions@.len() ==> t.subscriptions@[n].id@ == id,
    ensures
        r is Some <==> n < t.subscriptions@.len(),
        r matches Some(x) ==> x.state == t.subscriptions@[n].state && is_target_of(
            x,
            t.subscriptions@[n],
            t.instances@,
        ),
{
    lemma_first_where_at(t.subscriptions@, sub_id(id), n);
}

/// Which subscriptions a recovery looks at: those that wait to be resumed, of this recipe.
pub proof fn recovery_looks_at_what_waits(s: Subscription, recipe_id: Seq<char>)
    ensures
        waits_for(recipe_id)(s) <==> s.state == SubState::Resuming && s.recipe_id is Some
            && s.recipe_id->0@ == recipe_id,
{
}

/// A subscription counts as driven unless it was skipped.
pub proof fn what_was_not_skipped_was_driven(o: ResumeOutcome)
    ensures
        was_driven()(o) <==> o == ResumeOutcome::Active || o == ResumeOutcome::SuspendedRefundPending,
{
}

/// Only a raw document can hold a baseline, and it is read as the JSON it is.
pub proof fn baseline_is_read_from_a_raw_document(e: Event, raw: String)
    ensures
        e.detail == EventDetail::Raw(raw) ==> event_baseline(e) == baseline_of(json(raw@)),
        !(e.detail is Raw) ==> event_baseline(e) == Ok::<Option<BaselineView>, BaselineFault>(None),
        baseline_of(Ok(JsonDocView::Other)) == Ok::<Option<BaselineView>, BaselineFault>(None),
        json(raw@) is Err ==> (baseline_of(json(raw@)) matches Err(BaselineFault::NotJson(_))),
{
}

/// What waits to be resolved is what was paid since: each baseline is of a renewal whose event has a
/// larger id than every event that resolved the subscription's renewals.
pub proof fn pending_renewals_were_paid_since(events: Seq<Event>, id: Seq<char>, j: int, r: int)
    requires
        pending_baselines(events, id) is Ok,
        0 <= j < pending_baselines(events, id)->Ok_0.len(),
    ensures
        exists|i: int|
            {
                &&& 0 <= i < events.len()
                &&& (#[trigger] events[i]).kind == EventKind::RenewResume
                &&& events[i].subscription_id is Some
                &&& events[i].subscription_id->0@ == id
                &&& events[i].id > 0 || last_resolution(events, id) is Some
                &&& event_baseline(events[i]) == Ok::<Option<BaselineView>, BaselineFault>(
                    Some(pending_baselines(events, id)->Ok_0[j]),
                )
                &&& 0 <= r < events.len() && (events[r].kind == EventKind::ResumeActive
                    || events[r].kind == EventKind::ResumeFailed) && events[r].subscription_id is Some
                    && events[r].subscription_id->0@ == id ==> events[r].id < events[i].id
            },
{
    let after = or_zero(last_resolution(events, id));
    let bs = pending_baselines(events, id)->Ok_0;
    let pays = |e: Event|
        (e.subscription_id matches Some(s) && s@ == id) && e.kind == EventKind::RenewResume && e.id
            > after;
    renewals_are_gathered_in_order(events, id, after);
    last_resolution_is_the_largest(events, id);
    let i = choose|i: int|
        {
            &&& 0 <= i < events.len()
            &&& pays(#[trigger] events[i])
            &&& event_baseline(events[i]) == Ok::<Option<BaselineView>, BaselineFault>(Some(bs[j]))
        };
    assert(pays(events[i]));
    assert(events[i].kind == EventKind::RenewResume);
    if 0 <= r < events.len() && is_resolution(events[r], id) {
        let resolves = |e: Event|
            (e.subscription_id matches Some(s) && s@ == id) && (e.kind == EventKind::ResumeActive
                || e.kind == EventKind::ResumeFailed);
        assert(resolves(events[r]));
    }
}

} // verus!
