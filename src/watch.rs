use vstd::prelude::*;

use crate::api::{ListEvent, WatchListEvent, WatchSingleEvent};
use crate::json::Json;
use crate::store::{apply_event, FieldStore, ObjectStore, StoreMap};

verus! {

/// What a view watches: a collection (`name` is `None`) or one object in it.
/// A change of any part restarts the subscription.
#[derive(Debug)]
pub struct Selector {
    pub group: String,
    pub kind: String,
    pub name: Option<String>,
}

/// A selector as a mathematical value.
pub struct SelectorView {
    pub group: Seq<char>,
    pub kind: Seq<char>,
    pub name: Option<Seq<char>>,
}

impl View for Selector {
    type V = SelectorView;

    open spec fn view(&self) -> SelectorView {
        SelectorView {
            group: self.group@,
            kind: self.kind@,
            name: match &self.name {
                Some(n) => Some(n@),
                None => None,
            },
        }
    }
}

impl Selector {
    /// Whether both select the same target.
    pub fn same_as(&self, other: &Selector) -> (r: bool)
        ensures
            r == (self@ == other@),
    {
        let names = match (&self.name, &other.name) {
            (Some(a), Some(b)) => *a == *b,
            (None, None) => true,
            _ => false,
        };
        self.group == other.group && self.kind == other.kind && names
    }
}

/// Where the current subscription stands.
#[derive(Clone, Copy, Debug, PartialEq, Eq, Structural)]
pub enum Phase {
    /// No subscription: never started, or torn down.
    Idle,
    /// Asked for; the transport has not confirmed it yet.
    Starting,
    /// Events are flowing.
    Active,
    /// Ended by an error; its later items are ignored.
    Stopped,
}

/// What the owner must do after a selector change: cancel the subscription
/// with token `cancel`, if any, and open a new one that carries token `open`.
#[derive(Clone, Copy, Debug, PartialEq, Eq, Structural)]
pub struct Restart {
    pub cancel: Option<u64>,
    pub open: u64,
}

/// A restart as a mathematical value.
pub struct RestartView {
    pub cancel: Option<int>,
    pub open: int,
}

impl View for Restart {
    type V = RestartView;

    open spec fn view(&self) -> RestartView {
        RestartView {
            cancel: match self.cancel {
                Some(t) => Some(t as int),
                None => None,
            },
            open: self.open as int,
        }
    }
}

/// The bookkeeping of one subscription slot, as a mathematical value.
pub struct SubscriptionView {
    pub selector: Option<SelectorView>,
    /// The token of the newest subscription; every restart raises it.
    pub generation: int,
    pub phase: Phase,
    pub error: Option<Seq<char>>,
}

/// A subscription that may still deliver.
pub open spec fn is_live(phase: Phase) -> bool {
    phase == Phase::Starting || phase == Phase::Active
}

/// Selecting a target: nothing happens while the same target is being watched;
/// otherwise the live subscription, if any, is cancelled and a new one starts.
pub open spec fn sub_select(s: SubscriptionView, sel: SelectorView) -> (
    SubscriptionView,
    Option<RestartView>,
) {
    if s.selector == Some(sel) && s.phase != Phase::Idle {
        (s, None)
    } else {
        let open = s.generation + 1;
        (
            SubscriptionView {
                selector: Some(sel),
                generation: open,
                phase: Phase::Starting,
                error: None,
            },
            Some(
                RestartView {
                    cancel: if is_live(s.phase) {
                        Some(s.generation)
                    } else {
                        None
                    },
                    open,
                },
            ),
        )
    }
}

/// An item is taken only from the current subscription while it is live.
pub open spec fn sub_accepts(s: SubscriptionView, token: int) -> bool {
    token == s.generation && is_live(s.phase)
}

/// The transport confirmed subscription `token`.
pub open spec fn sub_opened(s: SubscriptionView, token: int) -> SubscriptionView {
    if token == s.generation && s.phase == Phase::Starting {
        SubscriptionView { phase: Phase::Active, ..s }
    } else {
        s
    }
}

/// Tearing down: the live subscription, if any, is to be cancelled.
pub open spec fn sub_destroy(s: SubscriptionView) -> (SubscriptionView, Option<int>) {
    (
        SubscriptionView { phase: Phase::Idle, ..s },
        if is_live(s.phase) {
            Some(s.generation)
        } else {
            None
        },
    )
}

/// One subscription slot: which target it follows, the token of its newest
/// subscription, and how that subscription stands.
pub struct Subscription {
    selector: Option<Selector>,
    generation: u64,
    phase: Phase,
    error: Option<String>,
}

impl View for Subscription {
    type V = SubscriptionView;

    closed spec fn view(&self) -> SubscriptionView {
        SubscriptionView {
            selector: match &self.selector {
                Some(s) => Some(s@),
                None => None,
            },
            generation: self.generation as int,
            phase: self.phase,
            error: match &self.error {
                Some(e) => Some(e@),
                None => None,
            },
        }
    }
}

impl Subscription {
    /// An empty slot: no target, no subscription.
    pub fn new() -> (r: Self)
        ensures
            r@.selector is None,
            r@.generation == 0,
            r@.phase == Phase::Idle,
            r@.error is None,
    {
        Subscription { selector: None, generation: 0, phase: Phase::Idle, error: None }
    }

    /// The token of the newest subscription.
    pub fn token(&self) -> (r: u64)
        ensures
            r as int == self@.generation,
    {
        self.generation
    }

    /// How the newest subscription stands.
    pub fn phase(&self) -> (r: Phase)
        ensures
            r == self@.phase,
    {
        self.phase
    }

    /// The error that ended the current subscription, if one did.
    pub fn error(&self) -> (r: Option<&String>)
        ensures
            match r {
                Some(e) => self@.error == Some(e@),
                None => self@.error is None,
            },
    {
        match &self.error {
            Some(e) => Some(e),
            None => None,
        }
    }

    /// Follows `sel`, as [`sub_select`] describes.
    pub fn select(&mut self, sel: Selector) -> (r: Option<Restart>)
        requires
            old(self)@.generation < u64::MAX,
        ensures
            (final(self)@, match r {
                Some(x) => Some(x@),
                None => None,
            }) == sub_select(old(self)@, sel@),
    {
        let same = match &self.selector {
            Some(current) => current.same_as(&sel),
            None => false,
        };
        if same && self.phase != Phase::Idle {
            return None;
        }
        let cancel = if self.phase == Phase::Starting || self.phase == Phase::Active {
            Some(self.generation)
        } else {
            None
        };
        self.generation = self.generation + 1;
        self.selector = Some(sel);
        self.phase = Phase::Starting;
        self.error = None;
        Some(Restart { cancel, open: self.generation })
    }

    /// Whether an item of subscription `token` is to be taken.
    pub fn accepts(&self, token: u64) -> (r: bool)
        ensures
            r == sub_accepts(self@, token as int),
    {
        token == self.generation && (self.phase == Phase::Starting || self.phase == Phase::Active)
    }

    /// The transport confirmed subscription `token`.
    pub fn opened(&mut self, token: u64)
        ensures
            final(self)@ == sub_opened(old(self)@, token as int),
    {
        if token == self.generation && self.phase == Phase::Starting {
            self.phase = Phase::Active;
        }
    }

    /// Records that the current subscription delivered an event.
    fn mark_active(&mut self)
        requires
            is_live(old(self)@.phase),
        ensures
            final(self)@ == (SubscriptionView { phase: Phase::Active, ..old(self)@ }),
    {
        self.phase = Phase::Active;
    }

    /// Records the error that ends the current subscription.
    fn fail(&mut self, message: String)
        ensures
            final(self)@ == (SubscriptionView {
                phase: Phase::Stopped,
                error: Some(message@),
                ..old(self)@
            }),
    {
        self.phase = Phase::Stopped;
        self.error = Some(message);
    }

    /// Tears the slot down; the result is the subscription to cancel, if one is live.
    pub fn destroy(&mut self) -> (r: Option<u64>)
        ensures
            (final(self)@, match r {
                Some(t) => Some(t as int),
                None => None,
            }) == sub_destroy(old(self)@),
    {
        let live = self.phase == Phase::Starting || self.phase == Phase::Active;
        self.phase = Phase::Idle;
        if live {
            Some(self.generation)
        } else {
            None
        }
    }
}

/// A collection view: its subscription slot and the store its events fill.
pub struct ListWatchView {
    pub sub: SubscriptionView,
    pub store: StoreMap,
}

/// What a subscription delivers: an event, or the error that ends it.
pub open spec fn item_view(item: Result<WatchListEvent, String>) -> Result<ListEvent, Seq<char>> {
    match item {
        Ok(e) => Ok(e@),
        Err(m) => Err(m@),
    }
}

/// A restart, if any, as a mathematical value.
pub open spec fn restart_view(r: Option<Restart>) -> Option<RestartView> {
    match r {
        Some(x) => Some(x@),
        None => None,
    }
}

/// A selector change that restarts the subscription also empties the store.
pub open spec fn list_select(w: ListWatchView, sel: SelectorView) -> (ListWatchView, Option<RestartView>) {
    let (sub, restart) = sub_select(w.sub, sel);
    if restart is Some {
        (ListWatchView { sub, store: Map::empty() }, restart)
    } else {
        (w, None)
    }
}

/// An item from a superseded or ended subscription changes nothing; an event
/// from the current one goes to the store, and an error ends it.
pub open spec fn list_deliver(w: ListWatchView, token: int, item: Result<ListEvent, Seq<char>>) -> (
    ListWatchView,
    bool,
) {
    if !sub_accepts(w.sub, token) {
        (w, false)
    } else {
        match item {
            Ok(e) => {
                let (store, changed) = apply_event(w.store, e);
                (ListWatchView { sub: SubscriptionView { phase: Phase::Active, ..w.sub }, store }, changed)
            },
            Err(m) => (
                ListWatchView {
                    sub: SubscriptionView { phase: Phase::Stopped, error: Some(m), ..w.sub },
                    store: w.store,
                },
                true,
            ),
        }
    }
}

/// One input to a collection view.
pub enum ListInput {
    Select(SelectorView),
    Opened(int),
    Deliver(int, Result<ListEvent, Seq<char>>),
    Destroy,
}

/// A collection view after one input.
pub open spec fn list_step(w: ListWatchView, input: ListInput) -> ListWatchView {
    match input {
        ListInput::Select(sel) => list_select(w, sel).0,
        ListInput::Opened(token) => ListWatchView { sub: sub_opened(w.sub, token), store: w.store },
        ListInput::Deliver(token, item) => list_deliver(w, token, item).0,
        ListInput::Destroy => ListWatchView { sub: sub_destroy(w.sub).0, store: w.store },
    }
}

/// The view after a sequence of inputs, in order.
pub open spec fn list_run(w: ListWatchView, inputs: Seq<ListInput>) -> ListWatchView
    decreases inputs.len(),
{
    if inputs.len() == 0 {
        w
    } else {
        list_step(list_run(w, inputs.drop_last()), inputs.last())
    }
}

/// A collection view: one subscription at a time, and the objects it delivered.
pub struct ListWatch {
    sub: Subscription,
    store: ObjectStore,
}

impl View for ListWatch {
    type V = ListWatchView;

    closed spec fn view(&self) -> ListWatchView {
        ListWatchView { sub: self.sub@, store: self.store@ }
    }
}

impl ListWatch {
    /// The store is well formed.
    pub closed spec fn wf(&self) -> bool {
        self.store.wf()
    }

    /// A view with no target and an empty store.
    pub fn new() -> (r: Self)
        ensures
            r.wf(),
            r@.sub.selector is None,
            r@.sub.generation == 0,
            r@.sub.phase == Phase::Idle,
            r@.sub.error is None,
            r@.store == Map::<Seq<char>, Json>::empty(),
    {
        ListWatch { sub: Subscription::new(), store: ObjectStore::new() }
    }

    /// The subscription slot.
    pub fn subscription(&self) -> (r: &Subscription)
        ensures
            r@ == self@.sub,
    {
        &self.sub
    }

    /// The objects delivered so far.
    pub fn store(&self) -> (r: &ObjectStore)
        requires
            self.wf(),
        ensures
            r.wf(),
            r@ == self@.store,
    {
        &self.store
    }

    /// Follows `sel`. When that restarts the subscription, the store is
    /// emptied and the result says which subscription to cancel and which to open.
    pub fn select(&mut self, sel: Selector) -> (r: Option<Restart>)
        requires
            old(self).wf(),
            old(self)@.sub.generation < u64::MAX,
        ensures
            final(self).wf(),
            (final(self)@, restart_view(r)) == list_select(old(self)@, sel@),
    {
        let r = self.sub.select(sel);
        if r.is_some() {
            self.store.reset();
        }
        r
    }

    /// The transport confirmed subscription `token`.
    pub fn opened(&mut self, token: u64)
        requires
            old(self).wf(),
        ensures
            final(self).wf(),
            final(self)@ == list_step(old(self)@, ListInput::Opened(token as int)),
    {
        self.sub.opened(token);
    }

    /// Handles an item that subscription `token` delivered; the result says
    /// whether what the view shows changed.
    pub fn update(&mut self, token: u64, item: Result<WatchListEvent, String>) -> (changed: bool)
        requires
            old(self).wf(),
        ensures
            final(self).wf(),
            (final(self)@, changed) == list_deliver(old(self)@, token as int, item_view(item)),
    {
        if !self.sub.accepts(token) {
            return false;
        }
        match item {
            Ok(event) => {
                self.sub.mark_active();
                self.store.update(event)
            },
            Err(message) => {
                self.sub.fail(message);
                true
            },
        }
    }

    /// Tears the view down; the result is the subscription to cancel, if one is live.
    pub fn destroy(&mut self) -> (r: Option<u64>)
        requires
            old(self).wf(),
        ensures
            final(self).wf(),
            final(self)@ == list_step(old(self)@, ListInput::Destroy),
            (match r {
                Some(t) => Some(t as int),
                None => None,
            }) == sub_destroy(old(self)@.sub).1,
    {
        self.sub.destroy()
    }
}

/// No input lowers the token of the newest subscription.
pub proof fn lemma_generation_never_drops(w: ListWatchView, inputs: Seq<ListInput>)
    ensures
        list_run(w, inputs).sub.generation >= w.sub.generation,
    decreases inputs.len(),
{
    if inputs.len() > 0 {
        lemma_generation_never_drops(w, inputs.drop_last());
    }
}

/// Once a selector change has restarted the subscription, nothing that the
/// previous subscription delivers can change the view, however many inputs
/// (including events of the new subscription) came in between.
pub proof fn lemma_superseded_subscription_is_ignored(
    w: ListWatchView,
    sel: SelectorView,
    inputs: Seq<ListInput>,
    item: Result<ListEvent, Seq<char>>,
)
    requires
        list_select(w, sel).1 is Some,
    ensures
        ({
            let later = list_run(list_select(w, sel).0, inputs);
            list_deliver(later, w.sub.generation, item) == (later, false)
        }),
{
    lemma_generation_never_drops(list_select(w, sel).0, inputs);
}

/// A single-object view: its subscription slot and the field values delivered.
pub struct ObjectWatch {
    sub: Subscription,
    fields: FieldStore,
}

/// A single-object view as a mathematical value.
pub struct ObjectWatchView {
    pub sub: SubscriptionView,
    pub fields: StoreMap,
}

impl View for ObjectWatch {
    type V = ObjectWatchView;

    closed spec fn view(&self) -> ObjectWatchView {
        ObjectWatchView { sub: self.sub@, fields: self.fields@ }
    }
}

impl ObjectWatch {
    /// The field store is well formed.
    pub closed spec fn wf(&self) -> bool {
        self.fields.wf()
    }

    /// A view with no target and no field values.
    pub fn new() -> (r: Self)
        ensures
            r.wf(),
            r@.sub.selector is None,
            r@.sub.generation == 0,
            r@.sub.phase == Phase::Idle,
            r@.sub.error is None,
            r@.fields == Map::<Seq<char>, Json>::empty(),
    {
        ObjectWatch { sub: Subscription::new(), fields: FieldStore::new() }
    }

    /// The subscription slot.
    pub fn subscription(&self) -> (r: &Subscription)
        ensures
            r@ == self@.sub,
    {
        &self.sub
    }

    /// The field values delivered so far.
    pub fn fields(&self) -> (r: &FieldStore)
        requires
            self.wf(),
        ensures
            r.wf(),
            r@ == self@.fields,
    {
        &self.fields
    }

    /// Follows `sel`; a restart empties the field values.
    pub fn select(&mut self, sel: Selector) -> (r: Option<Restart>)
        requires
            old(self).wf(),
            old(self)@.sub.generation < u64::MAX,
        ensures
            final(self).wf(),
            restart_view(r) == sub_select(old(self)@.sub, sel@).1,
            final(self)@.sub == sub_select(old(self)@.sub, sel@).0,
            final(self)@.fields == if r is Some {
                Map::<Seq<char>, Json>::empty()
            } else {
                old(self)@.fields
            },
    {
        let r = self.sub.select(sel);
        if r.is_some() {
            self.fields.reset();
        }
        r
    }

    /// The transport confirmed subscription `token`.
    pub fn opened(&mut self, token: u64)
        requires
            old(self).wf(),
        ensures
            final(self).wf(),
            final(self)@.sub == sub_opened(old(self)@.sub, token as int),
            final(self)@.fields == old(self)@.fields,
    {
        self.sub.opened(token);
    }

    /// Handles an item that subscription `token` delivered; items of any
    /// other subscription, or after an error, change nothing.
    pub fn update(&mut self, token: u64, item: Result<WatchSingleEvent, String>) -> (changed: bool)
        requires
            old(self).wf(),
        ensures
            final(self).wf(),
            !sub_accepts(old(self)@.sub, token as int) ==> !changed && final(self)@ == old(self)@,
            sub_accepts(old(self)@.sub, token as int) ==> changed && match item {
                Ok(WatchSingleEvent::Update { field, value }) => final(self)@ == (ObjectWatchView {
                    sub: SubscriptionView { phase: Phase::Active, ..old(self)@.sub },
                    fields: old(self)@.fields.insert(field@, value@),
                }),
                Err(m) => final(self)@ == (ObjectWatchView {
                    sub: SubscriptionView {
                        phase: Phase::Stopped,
                        error: Some(m@),
                        ..old(self)@.sub
                    },
                    fields: old(self)@.fields,
                }),
            },
    {
        if !self.sub.accepts(token) {
            return false;
        }
        match item {
            Ok(event) => {
                self.sub.mark_active();
                self.fields.update(event)
            },
            Err(message) => {
                self.sub.fail(message);
                true
            },
        }
    }

    /// Tears the view down; the result is the subscription to cancel, if one is live.
    pub fn destroy(&mut self) -> (r: Option<u64>)
        requires
            old(self).wf(),
        ensures
            final(self).wf(),
            (final(self)@.sub, match r {
                Some(t) => Some(t as int),
                None => None,
            }) == sub_destroy(old(self)@.sub),
            final(self)@.fields == old(self)@.fields,
    {
        self.sub.destroy()
    }
}

} // verus!
