//! The status service: accepts a `(user_id, status)` pair, records it
//! durably, and only then broadcasts it.  Durability precedes visibility:
//! no event reaches any subscriber unless its store write succeeded.

use vstd::prelude::*;

use crate::event::{EventView, InputError, StatusEvent};
use crate::hub::{
    spec_publish, spec_recv_out, spec_recv_state, spec_subscribe, Hub, HubError, HubView,
    RecvOutcome, SubscriptionHandle,
};
use crate::store::{MemStore, StoreError, StoreView, StoredValue};

verus! {

/// Time-to-live the service sets on every status write: 24 hours.
pub const STATUS_TTL_SECS: u64 = 86400;

/// Why the service refused an update or a read.
#[derive(Debug)]
pub enum ServiceError {
    /// The user identifier or the status string was empty; rejected before
    /// any store or hub interaction.
    InvalidInput,
    /// The durable store could not be reached; nothing was written and
    /// nothing was broadcast.
    StoreUnavailable,
}

/// Mathematical model of the service: its store and its hub.
#[verifier::ext_equal]
pub struct ServiceView {
    pub store: StoreView,
    pub hub: HubView,
}

/// The write-orchestration core: one durable store and one broadcast hub.
pub struct StatusService {
    store: MemStore,
    hub: Hub,
}

impl View for StatusService {
    type V = ServiceView;

    closed spec fn view(&self) -> ServiceView {
        ServiceView { store: self.store@, hub: self.hub@ }
    }
}

impl StatusService {
    /// Both components are internally consistent.
    pub closed spec fn wf(&self) -> bool {
        self.store.wf() && self.hub.wf()
    }

    /// A fresh service: empty reachable store, open hub that retains at
    /// most `buffer_size` events.
    pub fn new(buffer_size: usize) -> (r: StatusService)
        requires
            buffer_size >= 1,
        ensures
            r.wf(),
            r@.store == (StoreView {
                map: Map::<Seq<char>, StoredValue>::empty(),
                available: true,
            }),
            r@.hub == (HubView {
                cap: buffer_size as nat,
                history: Seq::<EventView>::empty(),
                subs: Seq::<crate::hub::SubView>::empty(),
                closed: false,
            }),
    {
        StatusService { store: MemStore::new(), hub: Hub::new(buffer_size) }
    }

    /// Accepts a status change: validates it, writes it to the store with
    /// the fixed time-to-live, and — only if the write succeeded — makes it
    /// visible on the hub.  A refused publish on a closed hub is not an
    /// error: the store is the source of truth.  On any error nothing
    /// changes; in particular a store failure broadcasts nothing.
    pub fn update_status(&mut self, user_id: String, status: String) -> (r: Result<
        StatusEvent,
        ServiceError,
    >)
        requires
            old(self).wf(),
            old(self)@.hub.history.len() < usize::MAX,
        ensures
            final(self).wf(),
            r is Err ==> final(self)@ == old(self)@,
            (user_id@.len() == 0 || status@.len() == 0) <==> r matches Err(
                ServiceError::InvalidInput,
            ),
            (user_id@.len() > 0 && status@.len() > 0 && !old(self)@.store.available) <==> r matches Err(
                ServiceError::StoreUnavailable,
            ),
            (user_id@.len() > 0 && status@.len() > 0 && old(self)@.store.available) <==> r is Ok,
            r is Ok ==> ({
                let e = EventView { user_id: user_id@, status: status@ };
                &&& r matches Ok(ev) && ev@ == e
                &&& final(self)@.store.available
                &&& final(self)@.store.map == old(self)@.store.map.insert(
                    user_id@,
                    StoredValue { status: status@, ttl_secs: STATUS_TTL_SECS },
                )
                &&& final(self)@.hub == spec_publish(old(self)@.hub, e)
            }),
    {
        let event = match StatusEvent::new(user_id, status) {
            Ok(e) => e,
            Err(InputError::Empty) => {
                return Err(ServiceError::InvalidInput);
            },
        };
        match self.store.put(event.user_id(), event.status(), STATUS_TTL_SECS) {
            Ok(()) => (),
            Err(StoreError::Unavailable) => {
                return Err(ServiceError::StoreUnavailable);
            },
        }
        match self.hub.publish(event.duplicate()) {
            Ok(_) => (),
            Err(HubError::Closed) => (),
        }
        Ok(event)
    }

    /// Reads the last durably written status of `user_id`, or nothing when
    /// no write for it is held.  Fails exactly when the store is
    /// unreachable; absence is not an error.
    pub fn get_status(&self, user_id: &String) -> (r: Result<Option<String>, ServiceError>)
        requires
            self.wf(),
        ensures
            match r {
                Ok(Some(v)) => self@.store.available && self@.store.map.contains_key(user_id@)
                    && v@ == self@.store.map[user_id@].status,
                Ok(None) => self@.store.available && !self@.store.map.contains_key(user_id@),
                Err(e) => e is StoreUnavailable && !self@.store.available,
            },
    {
        match self.store.get(user_id) {
            Ok(v) => Ok(v),
            Err(StoreError::Unavailable) => Err(ServiceError::StoreUnavailable),
        }
    }

    /// Registers a subscriber on the hub; see [`Hub::subscribe`].
    pub fn subscribe(&mut self) -> (r: Result<SubscriptionHandle, HubError>)
        requires
            old(self).wf(),
        ensures
            final(self).wf(),
            final(self)@.store == old(self)@.store,
            final(self)@.hub == spec_subscribe(old(self)@.hub),
            old(self)@.hub.closed ==> (r matches Err(HubError::Closed) && final(self)@ == old(
                self,
            )@),
            !old(self)@.hub.closed ==> (r matches Ok(h) && h@ == old(self)@.hub.subs.len()),
    {
        self.hub.subscribe()
    }

    /// One read for the given subscription; see [`Hub::recv`].
    pub fn recv(&mut self, handle: &SubscriptionHandle) -> (r: RecvOutcome)
        requires
            old(self).wf(),
            handle@ < old(self)@.hub.subs.len(),
        ensures
            final(self).wf(),
            final(self)@.store == old(self)@.store,
            final(self)@.hub == spec_recv_state(old(self)@.hub, handle@ as int),
            r@ == spec_recv_out(old(self)@.hub, handle@ as int),
    {
        self.hub.recv(handle)
    }

    /// Unregisters the subscription; see [`Hub::unsubscribe`].
    pub fn unsubscribe(&mut self, handle: &SubscriptionHandle)
        requires
            old(self).wf(),
            handle@ < old(self)@.hub.subs.len(),
        ensures
            final(self).wf(),
            final(self)@.store == old(self)@.store,
            final(self)@.hub == crate::hub::spec_unsubscribe(old(self)@.hub, handle@ as int),
    {
        self.hub.unsubscribe(handle)
    }

    /// Closes the hub for shutdown; see [`Hub::close`].  The store is
    /// untouched.
    pub fn close_hub(&mut self)
        requires
            old(self).wf(),
        ensures
            final(self).wf(),
            final(self)@.store == old(self)@.store,
            final(self)@.hub == crate::hub::spec_close(old(self)@.hub),
    {
        self.hub.close()
    }

    /// Flips whether the model store can be reached, to exercise callers'
    /// behaviour under store failure.
    pub fn set_store_available(&mut self, available: bool)
        requires
            old(self).wf(),
        ensures
            final(self).wf(),
            final(self)@.hub == old(self)@.hub,
            final(self)@.store == (StoreView { available, ..old(self)@.store }),
    {
        self.store.set_available(available)
    }
}

/// The default presentation of an absent or expired status.
pub fn default_status() -> (r: String)
    ensures
        r@ == "déconnecté"@,
{
    String::from_str("déconnecté")
}

/// Maps a read result to what a client is shown: the stored status, or the
/// default when none is held.
pub fn status_or_default(status: Option<String>) -> (r: String)
    ensures
        match status {
            Some(s) => r@ == s@,
            None => r@ == "déconnecté"@,
        },
{
    match status {
        Some(s) => s,
        None => default_status(),
    }
}

/// Law: a write immediately followed by a read of the same user returns the
/// just-written status.  `update_status` ensures the store map becomes
/// `insert(user_id, value)`; `get_status` returns exactly what that map
/// holds; this lemma closes the chain.
pub proof fn lemma_read_after_write(
    m: Map<Seq<char>, StoredValue>,
    user_id: Seq<char>,
    status: Seq<char>,
)
    ensures
        ({
            let m2 = m.insert(user_id, StoredValue { status, ttl_secs: STATUS_TTL_SECS });
            m2.contains_key(user_id) && m2[user_id].status == status
        }),
{
}

} // verus!
