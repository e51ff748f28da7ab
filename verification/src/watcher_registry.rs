use vstd::prelude::*;

use crate::address::Address;
use crate::alert_types::{instance_ext, StorageKey, TtlExtension, INSTANCE_BUMP_AMOUNT, INSTANCE_BUMP_THRESHOLD};
use crate::seq_util::{lemma_first_index, lemma_push_fresh, lemma_without, page_end, page_start, without};
use crate::watcher_model::WatcherModel;
use crate::watcher_types::{
    AdminAction, ContractError, PendingAction, WatcherEvent, MAX_ADMINS, MAX_WATCHERS, MIN_WATCHERS,
};

verus! {

/// On-chain registry of admins and authorized watcher nodes.
///
/// Any admin may manage the watcher set and the admin set; sensitive actions
/// can be put behind a timelock. The registry records, for the most recent
/// mutating call, the events it published and the lifetime extensions it
/// asked the host for.
pub struct WatcherRegistry {
    admins: Vec<Address>,
    watchers: Vec<Address>,
    watcher_count: u32,
    pending_transfer: Option<Address>,
    timelock_delay: u32,
    pending_action: Option<PendingAction>,
    paused: bool,
    events: Vec<WatcherEvent>,
    ttl_extensions: Vec<TtlExtension>,
}

/// The stored state of a watcher registry, in plain values, as the host
/// persists it between calls.
pub struct WatcherRegistryState {
    pub admins: Vec<Address>,
    pub watchers: Vec<Address>,
    pub pending_transfer: Option<Address>,
    pub timelock_delay: u32,
    pub pending_action: Option<PendingAction>,
    pub paused: bool,
}

/// Whether no address occurs twice in `v`.
fn distinct(v: &Vec<Address>) -> (r: bool)
    ensures
        r == v@.no_duplicates(),
{
    let mut i: usize = 0;
    while i < v.len()
        invariant
            0 <= i <= v@.len(),
            v@.take(i as int).no_duplicates(),
        decreases v@.len() - i,
    {
        let mut j: usize = 0;
        while j < i
            invariant
                0 <= j <= i < v@.len(),
                forall|k: int| 0 <= k < j ==> v@[k] != v@[i as int],
            decreases i - j,
        {
            if v[j] == v[i] {
                assert(!v@.no_duplicates()) by {
                    assert(v@[j as int] == v@[i as int]);
                }
                return false;
            }
            j = j + 1;
        }
        proof {
            let t = v@.take(i + 1);
            assert forall|a: int, b: int| 0 <= a < t.len() && 0 <= b < t.len() && a != b implies t[a] != t[b] by {
                assert(v@.take(i as int)[a] == v@[a] || a == i);
                if a < i && b < i {
                    assert(v@.take(i as int)[a] == t[a] && v@.take(i as int)[b] == t[b]);
                }
            }
        }
        i = i + 1;
    }
    assert(v@.take(i as int) =~= v@);
    true
}

/// Position of the first occurrence of `a` in `v`, if any.
fn position_of(v: &Vec<Address>, a: Address) -> (r: Option<usize>)
    ensures
        match r {
            Some(k) => {
                &&& k < v@.len()
                &&& v@[k as int] == a
                &&& forall|j: int| 0 <= j < k ==> v@[j] != a
                &&& v@.contains(a)
                &&& without(v@, a) == v@.remove(k as int)
            },
            None => !v@.contains(a),
        },
{
    let mut k: usize = 0;
    while k < v.len()
        invariant
            0 <= k <= v@.len(),
            forall|j: int| 0 <= j < k ==> v@[j] != a,
        decreases v@.len() - k,
    {
        if v[k] == a {
            proof {
                lemma_first_index(v@, a, k as int);
            }
            return Some(k);
        }
        k = k + 1;
    }
    None
}

/// Whether `a` occurs in `v`.
fn holds(v: &Vec<Address>, a: Address) -> (r: bool)
    ensures
        r == v@.contains(a),
{
    position_of(v, a).is_some()
}

/// A copy of `v[start..end]`.
fn copy_range(v: &Vec<Address>, start: usize, end: usize) -> (r: Vec<Address>)
    requires
        start <= end <= v@.len(),
    ensures
        r@ == v@.subrange(start as int, end as int),
{
    let mut r: Vec<Address> = Vec::new();
    let mut k = start;
    while k < end
        invariant
            start <= k <= end <= v@.len(),
            r@ == v@.subrange(start as int, k as int),
        decreases end - k,
    {
        r.push(v[k]);
        k = k + 1;
        assert(r@ =~= v@.subrange(start as int, k as int));
    }
    r
}

/// The removal events for `ws`, in order.
pub open spec fn removal_events(ws: Seq<Address>) -> Seq<WatcherEvent> {
    ws.map_values(|w: Address| WatcherEvent::WatcherRemoved { watcher: w })
}

/// The registration events for `ws`, in order.
pub open spec fn registration_events(ws: Seq<Address>) -> Seq<WatcherEvent> {
    ws.map_values(|w: Address| WatcherEvent::WatcherRegistered { watcher: w })
}

/// The events the queued `action` publishes when `caller` runs it against
/// the state `m`, before the closing `("admin", "execute")`.
pub open spec fn action_events(m: WatcherModel, caller: Address, action: AdminAction) -> Seq<WatcherEvent> {
    match action {
        AdminAction::AddAdmin(a) => if m.admins.contains(a) {
            Seq::empty()
        } else {
            seq![WatcherEvent::AdminAdded { caller, new_admin: a }]
        },
        AdminAction::TransferAdmin(a) => seq![WatcherEvent::AdminTransferred { admin: caller, new_admin: a }],
        AdminAction::ClearAllWatchers => removal_events(m.watchers),
        AdminAction::SetTimelockDelay(d) => seq![WatcherEvent::TimelockSet { caller, delay: d }],
        AdminAction::Upgrade(_) => Seq::empty(),
    }
}

/// A failure of `with_watchers` on a prefix persists on every longer prefix.
proof fn lemma_with_watchers_err_extends(m0: WatcherModel, ws: Seq<Address>, k: int, e: ContractError)
    requires
        0 <= k <= ws.len(),
        m0.with_watchers(ws.take(k)) == Err::<WatcherModel, ContractError>(e),
    ensures
        m0.with_watchers(ws) == Err::<WatcherModel, ContractError>(e),
    decreases ws.len() - k,
{
    if k == ws.len() {
        assert(ws.take(k) =~= ws);
    } else {
        assert(ws.take(k + 1).drop_last() =~= ws.take(k));
        lemma_with_watchers_err_extends(m0, ws, k + 1, e);
    }
}

impl WatcherRegistry {
    /// The abstract state the registry holds.
    pub closed spec fn model(&self) -> WatcherModel {
        WatcherModel {
            admins: self.admins@,
            watchers: self.watchers@,
            watcher_count: self.watcher_count,
            pending_transfer: self.pending_transfer,
            timelock_delay: self.timelock_delay,
            pending_action: self.pending_action,
            paused: self.paused,
        }
    }

    /// Events published by the most recent mutating call.
    pub closed spec fn events(&self) -> Seq<WatcherEvent> {
        self.events@
    }

    /// Lifetime extensions requested by the most recent mutating call.
    pub closed spec fn ttl_requests(&self) -> Seq<TtlExtension> {
        self.ttl_extensions@
    }

    /// The registry's invariant.
    pub open spec fn wf(&self) -> bool {
        self.model().wf()
    }

    /// A failed call: the error returned, the state and the records untouched
    /// by anything but the start of the call.
    pub open spec fn refused(&self, r: Result<(), ContractError>, e: ContractError, before: WatcherModel) -> bool {
        &&& r == Err::<(), ContractError>(e)
        &&& self.model() == before
        &&& self.events().len() == 0
        &&& self.ttl_requests().len() == 0
    }

    /// An empty, uninitialized registry.
    pub fn new() -> (r: WatcherRegistry)
        ensures
            r.model() == WatcherModel::empty(),
            r.wf(),
            r.events().len() == 0,
            r.ttl_requests().len() == 0,
    {
        let r = WatcherRegistry {
            admins: Vec::new(),
            watchers: Vec::new(),
            watcher_count: 0,
            pending_transfer: None,
            timelock_delay: 0,
            pending_action: None,
            paused: false,
            events: Vec::new(),
            ttl_extensions: Vec::new(),
        };
        assert(r.model() == WatcherModel::empty());
        r
    }

    /// Forget the events and extensions of the previous call.
    fn begin_call(&mut self)
        ensures
            final(self).model() == old(self).model(),
            final(self).events().len() == 0,
            final(self).ttl_requests().len() == 0,
    {
        self.events = Vec::new();
        self.ttl_extensions = Vec::new();
    }

    fn check_admin(&self, caller: Address) -> (r: Result<(), ContractError>)
        ensures
            r == self.model().admin_check(caller),
    {
        if self.admins.len() == 0 {
            Err(ContractError::NotInitialized)
        } else if holds(&self.admins, caller) {
            Ok(())
        } else {
            Err(ContractError::Unauthorized)
        }
    }

    fn check_timelock(&self) -> (r: Result<(), ContractError>)
        ensures
            r == self.model().timelock_check(),
    {
        if self.timelock_delay > 0 {
            Err(ContractError::TimelockRequired)
        } else {
            Ok(())
        }
    }

    fn check_not_paused(&self) -> (r: Result<(), ContractError>)
        ensures
            r == self.model().pause_check(),
    {
        if self.paused {
            Err(ContractError::Paused)
        } else {
            Ok(())
        }
    }

    /// The events published by the most recent mutating call.
    pub fn last_events(&self) -> (r: Vec<WatcherEvent>)
        ensures
            r@ == self.events(),
    {
        let mut r: Vec<WatcherEvent> = Vec::new();
        let mut k: usize = 0;
        while k < self.events.len()
            invariant
                0 <= k <= self.events@.len(),
                r@ == self.events@.take(k as int),
            decreases self.events@.len() - k,
        {
            r.push(self.events[k]);
            k = k + 1;
            assert(r@ =~= self.events@.take(k as int));
        }
        assert(self.events@.take(k as int) =~= self.events@);
        r
    }

    /// The lifetime extensions requested by the most recent mutating call.
    pub fn last_ttl_requests(&self) -> (r: Vec<TtlExtension>)
        ensures
            r@ == self.ttl_requests(),
    {
        let mut r: Vec<TtlExtension> = Vec::new();
        let mut k: usize = 0;
        while k < self.ttl_extensions.len()
            invariant
                0 <= k <= self.ttl_extensions@.len(),
                r@ == self.ttl_extensions@.take(k as int),
            decreases self.ttl_extensions@.len() - k,
        {
            r.push(self.ttl_extensions[k]);
            k = k + 1;
            assert(r@ =~= self.ttl_extensions@.take(k as int));
        }
        assert(self.ttl_extensions@.take(k as int) =~= self.ttl_extensions@);
        r
    }

    // ── Admin set ─────────────────────────────────────────────────────────

    /// Install `admin` as the single bootstrap admin. Can be done once.
    ///
    /// Fails with `AlreadyInitialized` when an admin set exists. Publishes
    /// `("admin", "init")`.
    pub fn initialize(&mut self, admin: Address) -> (r: Result<(), ContractError>)
        requires
            old(self).wf(),
        ensures
            final(self).wf(),
            match old(self).model().initialize(admin) {
                Ok(m) => {
                    &&& r is Ok
                    &&& final(self).model() == m
                    &&& final(self).events() == seq![WatcherEvent::AdminInit { admin }]
                    &&& final(self).ttl_requests().len() == 0
                },
                Err(e) => final(self).refused(r, e, old(self).model()),
            },
    {
        self.begin_call();
        if self.admins.len() > 0 {
            return Err(ContractError::AlreadyInitialized);
        }
        self.admins.push(admin);
        self.events.push(WatcherEvent::AdminInit { admin });
        assert(self.admins@ =~= seq![admin]);
        assert(self.events@ =~= seq![WatcherEvent::AdminInit { admin }]);
        Ok(())
    }

    /// Add `new_admin` to the admin set unless it is there already, reporting
    /// `full` when the set has no room; publishes `("admin", "add")` when the
    /// set grows.
    fn push_admin(&mut self, caller: Address, new_admin: Address, full: ContractError) -> (r: Result<
        (),
        ContractError,
    >)
        requires
            old(self).wf(),
        ensures
            final(self).wf(),
            final(self).ttl_requests() == old(self).ttl_requests(),
            match old(self).model().with_admin(new_admin) {
                Ok(m) => {
                    &&& r is Ok
                    &&& final(self).model() == m
                    &&& final(self).events() == old(self).events() + (if old(self).model().admins.contains(
                        new_admin,
                    ) {
                        Seq::<WatcherEvent>::empty()
                    } else {
                        seq![WatcherEvent::AdminAdded { caller, new_admin }]
                    })
                },
                Err(_) => {
                    &&& r == Err::<(), ContractError>(full)
                    &&& final(self).model() == old(self).model()
                    &&& final(self).events() == old(self).events()
                },
            },
    {
        if holds(&self.admins, new_admin) {
            assert(old(self).events() + Seq::<WatcherEvent>::empty() =~= old(self).events());
            return Ok(());
        }
        if self.admins.len() >= MAX_ADMINS as usize {
            return Err(full);
        }
        proof {
            lemma_push_fresh(self.admins@, new_admin);
        }
        self.admins.push(new_admin);
        self.events.push(WatcherEvent::AdminAdded { caller, new_admin });
        Ok(())
    }

    /// Add `new_admin` to the admin set (admin only; refused while a timelock
    /// is configured or while paused). Adding an existing admin is a silent
    /// no-op; a full set gives `TooManyAdmins`. Publishes `("admin", "add")`
    /// when the set grows.
    pub fn add_admin(&mut self, caller: Address, new_admin: Address) -> (r: Result<(), ContractError>)
        requires
            old(self).wf(),
        ensures
            final(self).wf(),
            match old(self).model().add_admin(caller, new_admin) {
                Ok(m) => {
                    &&& r is Ok
                    &&& final(self).model() == m
                    &&& final(self).events() == (if old(self).model().admins.contains(new_admin) {
                        Seq::<WatcherEvent>::empty()
                    } else {
                        seq![WatcherEvent::AdminAdded { caller, new_admin }]
                    })
                    &&& final(self).ttl_requests().len() == 0
                },
                Err(e) => final(self).refused(r, e, old(self).model()),
            },
    {
        self.begin_call();
        self.check_admin(caller)?;
        self.check_timelock()?;
        self.check_not_paused()?;
        let r = self.push_admin(caller, new_admin, ContractError::TooManyAdmins);
        proof {
            assert(Seq::<WatcherEvent>::empty() + seq![WatcherEvent::AdminAdded { caller, new_admin }]
                =~= seq![WatcherEvent::AdminAdded { caller, new_admin }]);
            assert(Seq::<WatcherEvent>::empty() + Seq::<WatcherEvent>::empty() =~= Seq::<WatcherEvent>::empty());
        }
        r
    }

    /// Take `target_admin` out of the admin set (admin only, not while
    /// paused). Refuses with `LastAdmin` when the set has a single member.
    /// Publishes `("admin", "remove")`.
    pub fn remove_admin(&mut self, caller: Address, target_admin: Address) -> (r: Result<(), ContractError>)
        requires
            old(self).wf(),
        ensures
            final(self).wf(),
            match old(self).model().remove_admin(caller, target_admin) {
                Ok(m) => {
                    &&& r is Ok
                    &&& final(self).model() == m
                    &&& final(self).events() == seq![WatcherEvent::AdminRemoved { caller, target_admin }]
                    &&& final(self).ttl_requests().len() == 0
                },
                Err(e) => final(self).refused(r, e, old(self).model()),
            },
    {
        self.begin_call();
        self.check_admin(caller)?;
        self.check_not_paused()?;
        if self.admins.len() <= 1 {
            return Err(ContractError::LastAdmin);
        }
        proof {
            lemma_without(self.admins@, target_admin);
        }
        match position_of(&self.admins, target_admin) {
            Some(k) => {
                self.admins.remove(k);
            },
            None => {},
        }
        self.events.push(WatcherEvent::AdminRemoved { caller, target_admin });
        assert(self.events@ =~= seq![WatcherEvent::AdminRemoved { caller, target_admin }]);
        Ok(())
    }

    /// Propose handing the whole admin role to `new_admin` (admin only, not
    /// while paused). The
    /// proposal replaces any earlier one and takes effect only when
    /// `new_admin` accepts it. Publishes `("admin", "propose")`.
    pub fn propose_admin_transfer(&mut self, admin: Address, new_admin: Address) -> (r: Result<(), ContractError>)
        requires
            old(self).wf(),
        ensures
            final(self).wf(),
            match old(self).model().propose_transfer(admin, new_admin) {
                Ok(m) => {
                    &&& r is Ok
                    &&& final(self).model() == m
                    &&& final(self).events() == seq![WatcherEvent::TransferProposed { admin, new_admin }]
                    &&& final(self).ttl_requests().len() == 0
                },
                Err(e) => final(self).refused(r, e, old(self).model()),
            },
    {
        self.begin_call();
        self.check_admin(admin)?;
        self.check_not_paused()?;
        self.pending_transfer = Some(new_admin);
        self.events.push(WatcherEvent::TransferProposed { admin, new_admin });
        assert(self.events@ =~= seq![WatcherEvent::TransferProposed { admin, new_admin }]);
        Ok(())
    }

    /// Accept the transfer proposed to `new_admin`, which becomes the sole
    /// admin; refused while paused. Fails with `NoPendingTransfer` when
    /// nothing, or another address, was proposed. Publishes `("admin", "transfer")`.
    pub fn accept_admin_transfer(&mut self, new_admin: Address) -> (r: Result<(), ContractError>)
        requires
            old(self).wf(),
        ensures
            final(self).wf(),
            match old(self).model().accept_transfer(new_admin) {
                Ok(m) => {
                    &&& r is Ok
                    &&& final(self).model() == m
                    &&& final(self).events() == seq![WatcherEvent::TransferAccepted { new_admin }]
                    &&& final(self).ttl_requests().len() == 0
                },
                Err(e) => final(self).refused(r, e, old(self).model()),
            },
    {
        self.begin_call();
        self.check_not_paused()?;
        match self.pending_transfer {
            Some(p) => {
                if p != new_admin {
                    return Err(ContractError::NoPendingTransfer);
                }
            },
            None => {
                return Err(ContractError::NoPendingTransfer);
            },
        }
        let mut admins: Vec<Address> = Vec::new();
        admins.push(new_admin);
        self.admins = admins;
        self.pending_transfer = None;
        self.events.push(WatcherEvent::TransferAccepted { new_admin });
        assert(self.admins@ =~= seq![new_admin]);
        assert(self.events@ =~= seq![WatcherEvent::TransferAccepted { new_admin }]);
        Ok(())
    }

    /// Withdraw the pending admin transfer (admin only, not while paused). Fails with
    /// `NoPendingTransfer` when none is pending. Publishes `("admin", "cancel")`.
    pub fn cancel_admin_transfer(&mut self, admin: Address) -> (r: Result<(), ContractError>)
        requires
            old(self).wf(),
        ensures
            final(self).wf(),
            match old(self).model().cancel_transfer(admin) {
                Ok(m) => {
                    &&& r is Ok
                    &&& final(self).model() == m
                    &&& final(self).events() == seq![WatcherEvent::TransferCancelled { admin }]
                    &&& final(self).ttl_requests().len() == 0
                },
                Err(e) => final(self).refused(r, e, old(self).model()),
            },
    {
        self.begin_call();
        self.check_admin(admin)?;
        self.check_not_paused()?;
        if self.pending_transfer.is_none() {
            return Err(ContractError::NoPendingTransfer);
        }
        self.pending_transfer = None;
        self.events.push(WatcherEvent::TransferCancelled { admin });
        assert(self.events@ =~= seq![WatcherEvent::TransferCancelled { admin }]);
        Ok(())
    }

    /// Hand the caller's own admin slot to `new_admin` (admin only; refused
    /// while a timelock is configured or while paused). Every other admin
    /// keeps its slot; when `new_admin` already is an admin the caller's
    /// slot is simply dropped. Publishes `("admin", "transfer")`.
    pub fn transfer_admin(&mut self, admin: Address, new_admin: Address) -> (r: Result<(), ContractError>)
        requires
            old(self).wf(),
        ensures
            final(self).wf(),
            match old(self).model().transfer_slot(admin, new_admin) {
                Ok(m) => {
                    &&& r is Ok
                    &&& final(self).model() == m
                    &&& final(self).events() == seq![WatcherEvent::AdminTransferred { admin, new_admin }]
                    &&& final(self).ttl_requests().len() == 0
                },
                Err(e) => final(self).refused(r, e, old(self).model()),
            },
    {
        self.begin_call();
        self.check_admin(admin)?;
        self.check_timelock()?;
        self.check_not_paused()?;
        proof {
            lemma_without(self.admins@, admin);
        }
        match position_of(&self.admins, admin) {
            Some(k) => {
                self.admins.remove(k);
            },
            None => {},
        }
        if !holds(&self.admins, new_admin) {
            proof {
                lemma_push_fresh(self.admins@, new_admin);
            }
            self.admins.push(new_admin);
        }
        self.events.push(WatcherEvent::AdminTransferred { admin, new_admin });
        assert(self.events@ =~= seq![WatcherEvent::AdminTransferred { admin, new_admin }]);
        Ok(())
    }

    /// All current admins, or `NotInitialized`.
    pub fn get_admins(&self) -> (r: Result<Vec<Address>, ContractError>)
        ensures
            match r {
                Ok(v) => self.model().initialized() && v@ == self.model().admins,
                Err(e) => !self.model().initialized() && e == ContractError::NotInitialized,
            },
    {
        if self.admins.len() == 0 {
            return Err(ContractError::NotInitialized);
        }
        Ok(copy_range(&self.admins, 0, self.admins.len()))
    }

    /// The admin at the front of the admin set, or `NotInitialized`.
    pub fn get_admin(&self) -> (r: Result<Address, ContractError>)
        ensures
            match r {
                Ok(a) => self.model().initialized() && a == self.model().admins[0],
                Err(e) => !self.model().initialized() && e == ContractError::NotInitialized,
            },
    {
        if self.admins.len() == 0 {
            return Err(ContractError::NotInitialized);
        }
        Ok(self.admins[0])
    }

    /// Whether `address` is an admin.
    pub fn is_admin(&self, address: Address) -> (r: bool)
        ensures
            r == self.model().admins.contains(address),
    {
        holds(&self.admins, address)
    }

    /// Pause all mutations (admin only). Publishes `("admin", "pause")`.
    pub fn pause(&mut self, caller: Address) -> (r: Result<(), ContractError>)
        requires
            old(self).wf(),
        ensures
            final(self).wf(),
            match old(self).model().admin_check(caller) {
                Ok(_) => {
                    &&& r is Ok
                    &&& final(self).model() == WatcherModel { paused: true, ..old(self).model() }
                    &&& final(self).events() == seq![WatcherEvent::Paused { admin: caller }]
                    &&& final(self).ttl_requests().len() == 0
                },
                Err(e) => final(self).refused(r, e, old(self).model()),
            },
    {
        self.begin_call();
        self.check_admin(caller)?;
        self.paused = true;
        self.events.push(WatcherEvent::Paused { admin: caller });
        assert(self.events@ =~= seq![WatcherEvent::Paused { admin: caller }]);
        Ok(())
    }

    /// Resume mutations (admin only). Publishes `("admin", "unpause")`.
    pub fn unpause(&mut self, caller: Address) -> (r: Result<(), ContractError>)
        requires
            old(self).wf(),
        ensures
            final(self).wf(),
            match old(self).model().admin_check(caller) {
                Ok(_) => {
                    &&& r is Ok
                    &&& final(self).model() == WatcherModel { paused: false, ..old(self).model() }
                    &&& final(self).events() == seq![WatcherEvent::Unpaused { admin: caller }]
                    &&& final(self).ttl_requests().len() == 0
                },
                Err(e) => final(self).refused(r, e, old(self).model()),
            },
    {
        self.begin_call();
        self.check_admin(caller)?;
        self.paused = false;
        self.events.push(WatcherEvent::Unpaused { admin: caller });
        assert(self.events@ =~= seq![WatcherEvent::Unpaused { admin: caller }]);
        Ok(())
    }

    /// Whether mutations are paused.
    pub fn is_paused(&self) -> (r: bool)
        ensures
            r == self.model().paused,
    {
        self.paused
    }

    /// Authorize replacing the contract code with `new_wasm_hash` (admin
    /// only; refused while a timelock is configured, when it must be queued
    /// instead, and while paused). On `Ok` the host installs the new code; storage is untouched.
    pub fn upgrade(&mut self, admin: Address, new_wasm_hash: [u8; 32]) -> (r: Result<(), ContractError>)
        requires
            old(self).wf(),
        ensures
            final(self).wf(),
            final(self).model() == old(self).model(),
            final(self).events().len() == 0,
            final(self).ttl_requests().len() == 0,
            r == (match old(self).model().admin_check(admin) {
                Err(e) => Err(e),
                Ok(_) => match old(self).model().timelock_check() {
                    Err(e) => Err(e),
                    Ok(_) => old(self).model().pause_check(),
                },
            }),
    {
        self.begin_call();
        self.check_admin(admin)?;
        self.check_timelock()?;
        self.check_not_paused()
    }

    /// Extend the instance entry's lifetime; needs no authorization and
    /// touches no registry state.
    pub fn bump_instance_ttl(&mut self)
        requires
            old(self).wf(),
        ensures
            final(self).wf(),
            final(self).model() == old(self).model(),
            final(self).events().len() == 0,
            final(self).ttl_requests() == seq![instance_ext()],
    {
        self.begin_call();
        self.ttl_extensions.push(
            TtlExtension {
                key: StorageKey::Instance,
                threshold: INSTANCE_BUMP_THRESHOLD,
                extend_to: INSTANCE_BUMP_AMOUNT,
            },
        );
        assert(self.ttl_extensions@ =~= seq![instance_ext()]);
    }

    // ── Timelock ──────────────────────────────────────────────────────────

    /// Set the timelock delay in ledgers (admin only, not while paused). The delay can only be
    /// raised here; a lower value gives `TimelockRequired` and must be queued
    /// as `SetTimelockDelay`. Publishes `("admin", "timelock")`.
    pub fn set_timelock_delay(&mut self, caller: Address, delay_ledgers: u32) -> (r: Result<(), ContractError>)
        requires
            old(self).wf(),
        ensures
            final(self).wf(),
            match old(self).model().set_timelock(caller, delay_ledgers) {
                Ok(m) => {
                    &&& r is Ok
                    &&& final(self).model() == m
                    &&& final(self).events() == seq![WatcherEvent::TimelockSet { caller, delay: delay_ledgers }]
                    &&& final(self).ttl_requests().len() == 0
                },
                Err(e) => final(self).refused(r, e, old(self).model()),
            },
    {
        self.begin_call();
        self.check_admin(caller)?;
        self.check_not_paused()?;
        if delay_ledgers < self.timelock_delay {
            return Err(ContractError::TimelockRequired);
        }
        self.timelock_delay = delay_ledgers;
        self.events.push(WatcherEvent::TimelockSet { caller, delay: delay_ledgers });
        assert(self.events@ =~= seq![WatcherEvent::TimelockSet { caller, delay: delay_ledgers }]);
        Ok(())
    }

    /// The timelock delay in ledgers (`0`: disabled).
    pub fn get_timelock_delay(&self) -> (r: u32)
        ensures
            r == self.model().timelock_delay,
    {
        self.timelock_delay
    }

    /// The queued admin action, if any.
    pub fn get_pending_action(&self) -> (r: Option<PendingAction>)
        ensures
            r == self.model().pending_action,
    {
        self.pending_action
    }

    /// Queue `action` (admin only, not while paused) and return the ledger from which it may
    /// run: `ledger` plus the delay, saturating. Only one action may be
    /// queued (`ActionAlreadyPending`). Publishes `("admin", "propose")`.
    pub fn propose_admin_action(&mut self, caller: Address, action: AdminAction, ledger: u32) -> (r: Result<
        u32,
        ContractError,
    >)
        requires
            old(self).wf(),
        ensures
            final(self).wf(),
            final(self).ttl_requests().len() == 0,
            match old(self).model().propose_action(caller, action, ledger) {
                Ok(m) => {
                    &&& r == Ok::<u32, ContractError>(old(self).model().ready_at(ledger))
                    &&& final(self).model() == m
                    &&& final(self).events() == seq![
                        WatcherEvent::ActionProposed { caller, ready_at: old(self).model().ready_at(ledger) },
                    ]
                },
                Err(e) => {
                    &&& r == Err::<u32, ContractError>(e)
                    &&& final(self).model() == old(self).model()
                    &&& final(self).events().len() == 0
                },
            },
    {
        self.begin_call();
        self.check_admin(caller)?;
        self.check_not_paused()?;
        if self.pending_action.is_some() {
            return Err(ContractError::ActionAlreadyPending);
        }
        let ready_at = ledger.saturating_add(self.timelock_delay);
        self.pending_action = Some(PendingAction { action, proposer: caller, ready_at });
        self.events.push(WatcherEvent::ActionProposed { caller, ready_at });
        assert(self.events@ =~= seq![WatcherEvent::ActionProposed { caller, ready_at }]);
        Ok(ready_at)
    }

    /// Drop the queued action (admin only, not while paused). Fails with `NoPendingAction`
    /// when nothing is queued. Publishes `("admin", "cancel")`.
    pub fn cancel_admin_action(&mut self, caller: Address) -> (r: Result<(), ContractError>)
        requires
            old(self).wf(),
        ensures
            final(self).wf(),
            match old(self).model().cancel_action(caller) {
                Ok(m) => {
                    &&& r is Ok
                    &&& final(self).model() == m
                    &&& final(self).events() == seq![WatcherEvent::ActionCancelled { caller }]
                    &&& final(self).ttl_requests().len() == 0
                },
                Err(e) => final(self).refused(r, e, old(self).model()),
            },
    {
        self.begin_call();
        self.check_admin(caller)?;
        self.check_not_paused()?;
        if self.pending_action.is_none() {
            return Err(ContractError::NoPendingAction);
        }
        self.pending_action = None;
        self.events.push(WatcherEvent::ActionCancelled { caller });
        assert(self.events@ =~= seq![WatcherEvent::ActionCancelled { caller }]);
        Ok(())
    }

    // ── Watcher set ───────────────────────────────────────────────────────

    /// Append `watcher` unless it is registered already; publishes
    /// `("watcher", "register")` when the set grows.
    fn push_watcher(&mut self, watcher: Address) -> (r: Result<(), ContractError>)
        requires
            old(self).wf(),
        ensures
            final(self).wf(),
            final(self).ttl_requests() == old(self).ttl_requests(),
            match old(self).model().with_watcher(watcher) {
                Ok(m) => {
                    &&& r is Ok
                    &&& final(self).model() == m
                    &&& final(self).events() == old(self).events() + (if old(self).model().watchers.contains(
                        watcher,
                    ) {
                        Seq::<WatcherEvent>::empty()
                    } else {
                        seq![WatcherEvent::WatcherRegistered { watcher }]
                    })
                },
                Err(e) => {
                    &&& r == Err::<(), ContractError>(e)
                    &&& final(self).model() == old(self).model()
                    &&& final(self).events() == old(self).events()
                },
            },
    {
        if holds(&self.watchers, watcher) {
            assert(old(self).events() + Seq::<WatcherEvent>::empty() =~= old(self).events());
            return Ok(());
        }
        if self.watchers.len() >= MAX_WATCHERS as usize {
            return Err(ContractError::TooManyWatchers);
        }
        proof {
            lemma_push_fresh(self.watchers@, watcher);
        }
        self.watchers.push(watcher);
        self.watcher_count = self.watcher_count + 1;
        self.events.push(WatcherEvent::WatcherRegistered { watcher });
        Ok(())
    }

    /// Authorize `watcher` (admin only, not while paused). Registering a
    /// registered watcher is a silent no-op; a full set gives
    /// `TooManyWatchers`. Publishes `("watcher", "register")` when the set grows.
    pub fn register_watcher(&mut self, admin: Address, watcher: Address) -> (r: Result<(), ContractError>)
        requires
            old(self).wf(),
        ensures
            final(self).wf(),
            match old(self).model().register_watcher(admin, watcher) {
                Ok(m) => {
                    &&& r is Ok
                    &&& final(self).model() == m
                    &&& final(self).events() == (if old(self).model().watchers.contains(watcher) {
                        Seq::<WatcherEvent>::empty()
                    } else {
                        seq![WatcherEvent::WatcherRegistered { watcher }]
                    })
                    &&& final(self).ttl_requests().len() == 0
                },
                Err(e) => final(self).refused(r, e, old(self).model()),
            },
    {
        self.begin_call();
        self.check_admin(admin)?;
        self.check_not_paused()?;
        let r = self.push_watcher(watcher);
        proof {
            assert(Seq::<WatcherEvent>::empty() + seq![WatcherEvent::WatcherRegistered { watcher }]
                =~= seq![WatcherEvent::WatcherRegistered { watcher }]);
            assert(Seq::<WatcherEvent>::empty() + Seq::<WatcherEvent>::empty() =~= Seq::<WatcherEvent>::empty());
        }
        r
    }

    /// Authorize every address of `watchers` in order, as repeated
    /// `register_watcher` calls would, but all or nothing: on an error the
    /// registry is left as it was. Publishes one `("watcher", "register")`
    /// per newly added watcher.
    pub fn register_watchers(&mut self, admin: Address, watchers: Vec<Address>) -> (r: Result<(), ContractError>)
        requires
            old(self).wf(),
        ensures
            final(self).wf(),
            match old(self).model().register_watchers(admin, watchers@) {
                Ok(m) => {
                    &&& r is Ok
                    &&& final(self).model() == m
                    &&& final(self).events() == registration_events(
                        m.watchers.subrange(old(self).model().watchers.len() as int, m.watchers.len() as int),
                    )
                    &&& final(self).ttl_requests().len() == 0
                },
                Err(e) => final(self).refused(r, e, old(self).model()),
            },
    {
        self.begin_call();
        self.check_admin(admin)?;
        self.check_not_paused()?;
        let ghost m0 = self.model();
        let start = self.watchers.len();
        let saved = copy_range(&self.watchers, 0, start);
        let saved_count = self.watcher_count;
        assert(saved@ =~= m0.watchers);
        let mut k: usize = 0;
        while k < watchers.len()
            invariant
                0 <= k <= watchers@.len(),
                self.wf(),
                m0.wf(),
                old(self).model() == m0,
                old(self).model().register_watchers(admin, watchers@) == m0.with_watchers(watchers@),
                start == m0.watchers.len(),
                saved@ == m0.watchers,
                saved_count == m0.watcher_count,
                m0.with_watchers(watchers@.take(k as int)) == Ok::<WatcherModel, ContractError>(self.model()),
                start <= self.model().watchers.len(),
                self.model() == (WatcherModel {
                    watchers: self.model().watchers,
                    watcher_count: self.model().watcher_count,
                    ..m0
                }),
                self.events() == registration_events(
                    self.model().watchers.subrange(start as int, self.model().watchers.len() as int),
                ),
                self.ttl_requests().len() == 0,
            decreases watchers@.len() - k,
        {
            let w = watchers[k];
            let ghost before = self.model();
            let ghost ev = self.events();
            let step = self.push_watcher(w);
            proof {
                assert(watchers@.take(k + 1).drop_last() =~= watchers@.take(k as int));
                assert(watchers@.take(k + 1).last() == w);
            }
            match step {
                Err(e) => {
                    proof {
                        lemma_with_watchers_err_extends(m0, watchers@, k + 1, e);
                    }
                    self.watchers = saved;
                    self.watcher_count = saved_count;
                    self.events = Vec::new();
                    assert(self.model() == m0);
                    return Err(e);
                },
                Ok(()) => {
                    proof {
                        if !before.watchers.contains(w) {
                            assert(self.model().watchers.subrange(start as int, self.model().watchers.len() as int)
                                =~= before.watchers.subrange(start as int, before.watchers.len() as int).push(w));
                            assert(registration_events(
                                self.model().watchers.subrange(start as int, self.model().watchers.len() as int),
                            ) =~= ev + seq![WatcherEvent::WatcherRegistered { watcher: w }]);
                        } else {
                            assert(ev + Seq::<WatcherEvent>::empty() =~= ev);
                        }
                    }
                },
            }
            k = k + 1;
        }
        assert(watchers@.take(k as int) =~= watchers@);
        Ok(())
    }

    /// Deauthorize `watcher` (admin only, not while paused). An unregistered
    /// address is a silent no-op; the last watchers above [`MIN_WATCHERS`]
    /// cannot be removed (`BelowMinWatchers`). Publishes
    /// `("watcher", "remove")` when the watcher was there.
    pub fn remove_watcher(&mut self, admin: Address, watcher: Address) -> (r: Result<(), ContractError>)
        requires
            old(self).wf(),
        ensures
            final(self).wf(),
            match old(self).model().remove_watcher(admin, watcher) {
                Ok(m) => {
                    &&& r is Ok
                    &&& final(self).model() == m
                    &&& final(self).events() == (if old(self).model().watchers.contains(watcher) {
                        seq![WatcherEvent::WatcherRemoved { watcher }]
                    } else {
                        Seq::<WatcherEvent>::empty()
                    })
                    &&& final(self).ttl_requests().len() == 0
                },
                Err(e) => final(self).refused(r, e, old(self).model()),
            },
    {
        self.begin_call();
        self.check_admin(admin)?;
        self.check_not_paused()?;
        match position_of(&self.watchers, watcher) {
            None => Ok(()),
            Some(k) => {
                if self.watchers.len() - 1 < MIN_WATCHERS as usize {
                    return Err(ContractError::BelowMinWatchers);
                }
                proof {
                    lemma_without(self.watchers@, watcher);
                }
                self.watchers.remove(k);
                self.watcher_count = self.watcher_count.saturating_sub(1);
                self.events.push(WatcherEvent::WatcherRemoved { watcher });
                assert(self.events@ =~= seq![WatcherEvent::WatcherRemoved { watcher }]);
                Ok(())
            },
        }
    }

    /// Replace `old_watcher` by `new_watcher` in one step (admin only, not
    /// while paused). Fails with `WatcherNotFound` when `old_watcher` is not
    /// registered; replacing a watcher by itself is a silent no-op; when
    /// `new_watcher` is registered already the old entry simply goes.
    /// Publishes `("watcher", "remove")` then `("watcher", "replace")`.
    pub fn replace_watcher(&mut self, admin: Address, old_watcher: Address, new_watcher: Address) -> (r: Result<
        (),
        ContractError,
    >)
        requires
            old(self).wf(),
        ensures
            final(self).wf(),
            match old(self).model().replace_watcher(admin, old_watcher, new_watcher) {
                Ok(m) => {
                    &&& r is Ok
                    &&& final(self).model() == m
                    &&& final(self).events() == (if old_watcher == new_watcher {
                        Seq::<WatcherEvent>::empty()
                    } else {
                        seq![
                            WatcherEvent::WatcherRemoved { watcher: old_watcher },
                            WatcherEvent::WatcherReplaced { old_watcher, new_watcher },
                        ]
                    })
                    &&& final(self).ttl_requests().len() == 0
                },
                Err(e) => final(self).refused(r, e, old(self).model()),
            },
    {
        self.begin_call();
        self.check_admin(admin)?;
        self.check_not_paused()?;
        let k = match position_of(&self.watchers, old_watcher) {
            None => {
                return Err(ContractError::WatcherNotFound);
            },
            Some(k) => k,
        };
        if old_watcher == new_watcher {
            return Ok(());
        }
        proof {
            lemma_without(self.watchers@, old_watcher);
        }
        self.watchers.remove(k);
        if holds(&self.watchers, new_watcher) {
            self.watcher_count = self.watcher_count.saturating_sub(1);
        } else {
            proof {
                lemma_push_fresh(self.watchers@, new_watcher);
            }
            self.watchers.push(new_watcher);
        }
        self.events.push(WatcherEvent::WatcherRemoved { watcher: old_watcher });
        self.events.push(WatcherEvent::WatcherReplaced { old_watcher, new_watcher });
        assert(self.events@ =~= seq![
            WatcherEvent::WatcherRemoved { watcher: old_watcher },
            WatcherEvent::WatcherReplaced { old_watcher, new_watcher },
        ]);
        Ok(())
    }

    /// Whether `watcher` is an authorized watcher.
    pub fn is_watcher_authorized(&self, watcher: Address) -> (r: bool)
        ensures
            r == self.model().watchers.contains(watcher),
    {
        holds(&self.watchers, watcher)
    }

    /// Same as [`Self::is_watcher_authorized`].
    pub fn is_authorized(&self, watcher: Address) -> (r: bool)
        ensures
            r == self.model().watchers.contains(watcher),
    {
        self.is_watcher_authorized(watcher)
    }

    /// Deauthorize every watcher (admin only; refused while a timelock is
    /// configured or while paused). Since at least [`MIN_WATCHERS`] must
    /// remain, only an empty set can be cleared; otherwise
    /// `BelowMinWatchers`.
    pub fn clear_all_watchers(&mut self, admin: Address) -> (r: Result<(), ContractError>)
        requires
            old(self).wf(),
        ensures
            final(self).wf(),
            match old(self).model().clear_all(admin) {
                Ok(m) => {
                    &&& r is Ok
                    &&& final(self).model() == m
                    &&& final(self).events() == removal_events(old(self).model().watchers)
                    &&& final(self).ttl_requests().len() == 0
                },
                Err(e) => final(self).refused(r, e, old(self).model()),
            },
    {
        self.begin_call();
        self.check_admin(admin)?;
        self.check_timelock()?;
        self.check_not_paused()?;
        if self.watchers.len() > 0 && MIN_WATCHERS > 0 {
            return Err(ContractError::BelowMinWatchers);
        }
        self.watchers = Vec::new();
        self.watcher_count = 0;
        assert(removal_events(old(self).model().watchers) =~= Seq::<WatcherEvent>::empty());
        Ok(())
    }

    /// Remove the first `max_count` watchers (all of them when fewer), admin
    /// only, not while paused: the batched way to empty a large set.
    /// Publishes one
    /// `("watcher", "remove")` per removed watcher.
    pub fn clear_watchers_batch(&mut self, admin: Address, max_count: u32) -> (r: Result<(), ContractError>)
        requires
            old(self).wf(),
        ensures
            final(self).wf(),
            match old(self).model().clear_batch(admin, max_count) {
                Ok(m) => {
                    &&& r is Ok
                    &&& final(self).model() == m
                    &&& final(self).events() == removal_events(
                        old(self).model().watchers.take(old(self).model().batch_cut(max_count)),
                    )
                    &&& final(self).ttl_requests().len() == 0
                },
                Err(e) => final(self).refused(r, e, old(self).model()),
            },
    {
        self.begin_call();
        self.check_admin(admin)?;
        self.check_not_paused()?;
        let len = self.watchers.len();
        let cut: usize = if (max_count as usize) < len {
            max_count as usize
        } else {
            len
        };
        let mut k: usize = 0;
        while k < cut
            invariant
                0 <= k <= cut <= len == self.watchers@.len(),
                self.model() == old(self).model(),
                self.events() == removal_events(self.watchers@.take(k as int)),
                self.ttl_requests().len() == 0,
            decreases cut - k,
        {
            let w = self.watchers[k];
            self.events.push(WatcherEvent::WatcherRemoved { watcher: w });
            k = k + 1;
            assert(self.events() =~= removal_events(self.watchers@.take(k as int)));
        }
        let rest = copy_range(&self.watchers, cut, len);
        proof {
            let s = self.watchers@;
            assert forall|i: int, j: int| 0 <= i < rest@.len() && 0 <= j < rest@.len() && i != j implies rest@[i]
                != rest@[j] by {
                assert(rest@[i] == s[cut + i]);
                assert(rest@[j] == s[cut + j]);
            }
        }
        self.watchers = rest;
        self.watcher_count = self.watcher_count.saturating_sub(cut as u32);
        Ok(())
    }

    /// All authorized watchers, in registration order.
    pub fn get_watchers(&self) -> (r: Vec<Address>)
        ensures
            r@ == self.model().watchers,
    {
        copy_range(&self.watchers, 0, self.watchers.len())
    }

    /// The watchers at positions `[offset, offset + limit)`, both ends
    /// clamped to the list (an offset past the end gives an empty page).
    pub fn get_watchers_paginated(&self, offset: u32, limit: u32) -> (r: Vec<Address>)
        ensures
            r@ == self.model().watchers.subrange(
                page_start(self.model().watchers.len() as int, offset),
                page_end(self.model().watchers.len() as int, offset, limit),
            ),
    {
        let len = self.watchers.len();
        let end = offset.saturating_add(limit);
        let first = if (offset as usize) < len {
            offset as usize
        } else {
            len
        };
        let last = if (end as usize) < len {
            end as usize
        } else {
            len
        };
        if last < first {
            return Vec::new();
        }
        copy_range(&self.watchers, first, last)
    }

    /// The number of authorized watchers.
    pub fn get_watcher_count(&self) -> (r: u32)
        ensures
            r == self.model().watcher_count,
    {
        self.watcher_count
    }

    /// Run the queued action once its delay has elapsed at `ledger` (admin
    /// only, not while paused). Fails with `NoPendingAction` when nothing is queued and
    /// `TimelockNotExpired` before `ready_at`. The queue is cleared before
    /// the action runs; a failing action (a queued `AddAdmin` into a full
    /// set: `MaxAdminsReached`) leaves everything as it was. Publishes the
    /// action's own events, then `("admin", "execute")`.
    pub fn execute_admin_action(&mut self, caller: Address, ledger: u32) -> (r: Result<(), ContractError>)
        requires
            old(self).wf(),
        ensures
            final(self).wf(),
            match old(self).model().execute_action(caller, ledger) {
                Ok(m) => {
                    &&& r is Ok
                    &&& final(self).model() == m
                    &&& final(self).events() == action_events(
                        old(self).model(),
                        caller,
                        old(self).model().pending_action->Some_0.action,
                    ).push(WatcherEvent::ActionExecuted { caller })
                    &&& final(self).ttl_requests().len() == 0
                },
                Err(e) => final(self).refused(r, e, old(self).model()),
            },
    {
        self.begin_call();
        self.check_admin(caller)?;
        self.check_not_paused()?;
        let pending = match self.pending_action {
            None => {
                return Err(ContractError::NoPendingAction);
            },
            Some(p) => p,
        };
        if ledger < pending.ready_at {
            return Err(ContractError::TimelockNotExpired);
        }
        self.pending_action = None;
        match pending.action {
            AdminAction::AddAdmin(a) => {
                let step = self.push_admin(caller, a, ContractError::MaxAdminsReached);
                if step.is_err() {
                    self.pending_action = Some(pending);
                    return step;
                }
            },
            AdminAction::TransferAdmin(a) => {
                let mut admins: Vec<Address> = Vec::new();
                admins.push(a);
                self.admins = admins;
                self.events.push(WatcherEvent::AdminTransferred { admin: caller, new_admin: a });
                assert(self.admins@ =~= seq![a]);
            },
            AdminAction::ClearAllWatchers => {
                let mut k: usize = 0;
                while k < self.watchers.len()
                    invariant
                        0 <= k <= self.watchers@.len(),
                        self.model() == (WatcherModel { pending_action: None, ..old(self).model() }),
                        self.events() == removal_events(self.watchers@.take(k as int)),
                        self.ttl_requests().len() == 0,
                    decreases self.watchers@.len() - k,
                {
                    let w = self.watchers[k];
                    self.events.push(WatcherEvent::WatcherRemoved { watcher: w });
                    k = k + 1;
                    assert(self.events() =~= removal_events(self.watchers@.take(k as int)));
                }
                assert(self.watchers@.take(k as int) =~= self.watchers@);
                self.watchers = Vec::new();
                self.watcher_count = 0;
            },
            AdminAction::SetTimelockDelay(d) => {
                self.timelock_delay = d;
                self.events.push(WatcherEvent::TimelockSet { caller, delay: d });
            },
            AdminAction::Upgrade(_) => {},
        }
        let ghost ev = self.events();
        self.events.push(WatcherEvent::ActionExecuted { caller });
        proof {
            let act = old(self).model().pending_action->Some_0.action;
            assert(ev =~= action_events(old(self).model(), caller, act)) by {
                if act is AddAdmin {
                    let a = act->AddAdmin_0;
                    assert(Seq::<WatcherEvent>::empty() + seq![WatcherEvent::AdminAdded { caller, new_admin: a }]
                        =~= seq![WatcherEvent::AdminAdded { caller, new_admin: a }]);
                    assert(Seq::<WatcherEvent>::empty() + Seq::<WatcherEvent>::empty()
                        =~= Seq::<WatcherEvent>::empty());
                }
            }
        }
        Ok(())
    }

    // ── Persistence ───────────────────────────────────────────────────────

    /// The stored state, for the host to persist.
    pub fn snapshot(&self) -> (st: WatcherRegistryState)
        ensures
            st.admins@ == self.model().admins,
            st.watchers@ == self.model().watchers,
            st.pending_transfer == self.model().pending_transfer,
            st.timelock_delay == self.model().timelock_delay,
            st.pending_action == self.model().pending_action,
            st.paused == self.model().paused,
    {
        WatcherRegistryState {
            admins: copy_range(&self.admins, 0, self.admins.len()),
            watchers: copy_range(&self.watchers, 0, self.watchers.len()),
            pending_transfer: self.pending_transfer,
            timelock_delay: self.timelock_delay,
            pending_action: self.pending_action,
            paused: self.paused,
        }
    }

    /// Rebuild a registry from a stored state, or `None` when the state is
    /// not one a registry can hold: an address listed twice or a set over
    /// its cap.
    pub fn restore(st: WatcherRegistryState) -> (r: Option<WatcherRegistry>)
        ensures
            r is Some <==> ({
                &&& st.admins@.no_duplicates()
                &&& st.admins@.len() <= MAX_ADMINS
                &&& st.watchers@.no_duplicates()
                &&& st.watchers@.len() <= MAX_WATCHERS
            }),
            r matches Some(reg) ==> {
                &&& reg.wf()
                &&& reg.model() == WatcherModel {
                    admins: st.admins@,
                    watchers: st.watchers@,
                    watcher_count: st.watchers@.len() as u32,
                    pending_transfer: st.pending_transfer,
                    timelock_delay: st.timelock_delay,
                    pending_action: st.pending_action,
                    paused: st.paused,
                }
                &&& reg.events().len() == 0
                &&& reg.ttl_requests().len() == 0
            },
    {
        if st.admins.len() > MAX_ADMINS as usize || st.watchers.len() > MAX_WATCHERS as usize {
            return None;
        }
        if !distinct(&st.admins) || !distinct(&st.watchers) {
            return None;
        }
        let count = st.watchers.len() as u32;
        Some(
            WatcherRegistry {
                admins: st.admins,
                watchers: st.watchers,
                watcher_count: count,
                pending_transfer: st.pending_transfer,
                timelock_delay: st.timelock_delay,
                pending_action: st.pending_action,
                paused: st.paused,
                events: Vec::new(),
                ttl_extensions: Vec::new(),
            },
        )
    }
}

} // verus!
