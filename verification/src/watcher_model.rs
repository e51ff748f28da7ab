use vstd::prelude::*;

use crate::address::Address;
use crate::seq_util::without;
use crate::watcher_types::{
    AdminAction, ContractError, PendingAction, MAX_ADMINS, MAX_WATCHERS, MIN_WATCHERS,
};

verus! {

/// The abstract state of the watcher registry.
pub struct WatcherModel {
    /// The admin set, in the order admins were added; empty before initialization.
    pub admins: Seq<Address>,
    /// The authorized watchers, in registration order.
    pub watchers: Seq<Address>,
    /// The cached watcher count.
    pub watcher_count: u32,
    /// The address a two-step admin transfer was proposed to, if any.
    pub pending_transfer: Option<Address>,
    /// Timelock delay in ledgers (0: disabled).
    pub timelock_delay: u32,
    /// The queued admin action, if any.
    pub pending_action: Option<PendingAction>,
    /// Whether mutations are paused.
    pub paused: bool,
}

impl WatcherModel {
    /// The registry before initialization.
    pub open spec fn empty() -> WatcherModel {
        WatcherModel {
            admins: Seq::empty(),
            watchers: Seq::empty(),
            watcher_count: 0,
            pending_transfer: None,
            timelock_delay: 0,
            pending_action: None,
            paused: false,
        }
    }

    /// No admin or watcher listed twice, both sets within their caps, and
    /// the cached count equal to the number of watchers.
    pub open spec fn wf(self) -> bool {
        &&& self.admins.no_duplicates()
        &&& self.admins.len() <= MAX_ADMINS
        &&& self.watchers.no_duplicates()
        &&& self.watchers.len() <= MAX_WATCHERS
        &&& self.watcher_count == self.watchers.len()
    }

    /// Whether the registry has been initialized.
    pub open spec fn initialized(self) -> bool {
        self.admins.len() > 0
    }

    /// `caller` is an admin.
    pub open spec fn admin_check(self, caller: Address) -> Result<(), ContractError> {
        if !self.initialized() {
            Err(ContractError::NotInitialized)
        } else if self.admins.contains(caller) {
            Ok(())
        } else {
            Err(ContractError::Unauthorized)
        }
    }

    /// No timelock delay is configured, so sensitive actions may run directly.
    pub open spec fn timelock_check(self) -> Result<(), ContractError> {
        if self.timelock_delay > 0 {
            Err(ContractError::TimelockRequired)
        } else {
            Ok(())
        }
    }

    /// Mutations are not paused.
    pub open spec fn pause_check(self) -> Result<(), ContractError> {
        if self.paused {
            Err(ContractError::Paused)
        } else {
            Ok(())
        }
    }

    /// `initialize`.
    pub open spec fn initialize(self, admin: Address) -> Result<WatcherModel, ContractError> {
        if self.initialized() {
            Err(ContractError::AlreadyInitialized)
        } else {
            Ok(WatcherModel { admins: seq![admin], ..self })
        }
    }

    /// Add `new_admin` to the admin set; a repeat is a no-op.
    pub open spec fn with_admin(self, new_admin: Address) -> Result<WatcherModel, ContractError> {
        if self.admins.contains(new_admin) {
            Ok(self)
        } else if self.admins.len() >= MAX_ADMINS {
            Err(ContractError::TooManyAdmins)
        } else {
            Ok(WatcherModel { admins: self.admins.push(new_admin), ..self })
        }
    }

    /// `add_admin`.
    pub open spec fn add_admin(self, caller: Address, new_admin: Address) -> Result<WatcherModel, ContractError> {
        if self.admin_check(caller) is Err {
            Err(self.admin_check(caller)->Err_0)
        } else if self.timelock_check() is Err {
            Err(ContractError::TimelockRequired)
        } else if self.paused {
            Err(ContractError::Paused)
        } else {
            self.with_admin(new_admin)
        }
    }

    /// `remove_admin`: refuses to leave the set empty.
    pub open spec fn remove_admin(self, caller: Address, target: Address) -> Result<WatcherModel, ContractError> {
        if self.admin_check(caller) is Err {
            Err(self.admin_check(caller)->Err_0)
        } else if self.paused {
            Err(ContractError::Paused)
        } else if self.admins.len() <= 1 {
            Err(ContractError::LastAdmin)
        } else {
            Ok(WatcherModel { admins: without(self.admins, target), ..self })
        }
    }

    /// `propose_admin_transfer`.
    pub open spec fn propose_transfer(self, admin: Address, new_admin: Address) -> Result<WatcherModel, ContractError> {
        if self.admin_check(admin) is Err {
            Err(self.admin_check(admin)->Err_0)
        } else if self.paused {
            Err(ContractError::Paused)
        } else {
            Ok(WatcherModel { pending_transfer: Some(new_admin), ..self })
        }
    }

    /// `accept_admin_transfer`: the proposed address becomes the sole admin.
    pub open spec fn accept_transfer(self, new_admin: Address) -> Result<WatcherModel, ContractError> {
        if self.paused {
            Err(ContractError::Paused)
        } else if self.pending_transfer != Some(new_admin) {
            Err(ContractError::NoPendingTransfer)
        } else {
            Ok(WatcherModel { admins: seq![new_admin], pending_transfer: None, ..self })
        }
    }

    /// `cancel_admin_transfer`.
    pub open spec fn cancel_transfer(self, admin: Address) -> Result<WatcherModel, ContractError> {
        if self.admin_check(admin) is Err {
            Err(self.admin_check(admin)->Err_0)
        } else if self.paused {
            Err(ContractError::Paused)
        } else if self.pending_transfer is None {
            Err(ContractError::NoPendingTransfer)
        } else {
            Ok(WatcherModel { pending_transfer: None, ..self })
        }
    }

    /// The admin set after `admin` hands its own slot to `new_admin`.
    pub open spec fn slot_handover(self, admin: Address, new_admin: Address) -> Seq<Address> {
        let rest = without(self.admins, admin);
        if rest.contains(new_admin) {
            rest
        } else {
            rest.push(new_admin)
        }
    }

    /// `transfer_admin`: the caller's own slot goes to `new_admin`.
    pub open spec fn transfer_slot(self, admin: Address, new_admin: Address) -> Result<WatcherModel, ContractError> {
        if self.admin_check(admin) is Err {
            Err(self.admin_check(admin)->Err_0)
        } else if self.timelock_check() is Err {
            Err(ContractError::TimelockRequired)
        } else if self.paused {
            Err(ContractError::Paused)
        } else {
            Ok(WatcherModel { admins: self.slot_handover(admin, new_admin), ..self })
        }
    }

    /// `register_watcher`: a repeat is a no-op.
    pub open spec fn register_watcher(self, admin: Address, watcher: Address) -> Result<WatcherModel, ContractError> {
        if self.admin_check(admin) is Err {
            Err(self.admin_check(admin)->Err_0)
        } else if self.paused {
            Err(ContractError::Paused)
        } else {
            self.with_watcher(watcher)
        }
    }

    /// Add one watcher; a repeat is a no-op.
    pub open spec fn with_watcher(self, watcher: Address) -> Result<WatcherModel, ContractError> {
        if self.watchers.contains(watcher) {
            Ok(self)
        } else if self.watchers.len() >= MAX_WATCHERS {
            Err(ContractError::TooManyWatchers)
        } else {
            Ok(
                WatcherModel {
                    watchers: self.watchers.push(watcher),
                    watcher_count: (self.watcher_count + 1) as u32,
                    ..self
                },
            )
        }
    }

    /// Add the watchers one by one, stopping at the first error.
    pub open spec fn with_watchers(self, ws: Seq<Address>) -> Result<WatcherModel, ContractError>
        decreases ws.len(),
    {
        if ws.len() == 0 {
            Ok(self)
        } else {
            match self.with_watchers(ws.drop_last()) {
                Err(e) => Err(e),
                Ok(m) => m.with_watcher(ws.last()),
            }
        }
    }

    /// `register_watchers`.
    pub open spec fn register_watchers(self, admin: Address, ws: Seq<Address>) -> Result<WatcherModel, ContractError> {
        if self.admin_check(admin) is Err {
            Err(self.admin_check(admin)->Err_0)
        } else if self.paused {
            Err(ContractError::Paused)
        } else {
            self.with_watchers(ws)
        }
    }

    /// `remove_watcher`: a missing watcher is a no-op; refuses to drop below
    /// [`MIN_WATCHERS`].
    pub open spec fn remove_watcher(self, admin: Address, watcher: Address) -> Result<WatcherModel, ContractError> {
        if self.admin_check(admin) is Err {
            Err(self.admin_check(admin)->Err_0)
        } else if self.paused {
            Err(ContractError::Paused)
        } else if !self.watchers.contains(watcher) {
            Ok(self)
        } else if self.watchers.len() - 1 < MIN_WATCHERS {
            Err(ContractError::BelowMinWatchers)
        } else {
            Ok(
                WatcherModel {
                    watchers: without(self.watchers, watcher),
                    watcher_count: if self.watcher_count > 0 {
                        (self.watcher_count - 1) as u32
                    } else {
                        0
                    },
                    ..self
                },
            )
        }
    }

    /// `replace_watcher`.
    pub open spec fn replace_watcher(self, admin: Address, old_watcher: Address, new_watcher: Address) -> Result<
        WatcherModel,
        ContractError,
    > {
        if self.admin_check(admin) is Err {
            Err(self.admin_check(admin)->Err_0)
        } else if self.paused {
            Err(ContractError::Paused)
        } else if !self.watchers.contains(old_watcher) {
            Err(ContractError::WatcherNotFound)
        } else if old_watcher == new_watcher {
            Ok(self)
        } else {
            let rest = without(self.watchers, old_watcher);
            if rest.contains(new_watcher) {
                Ok(
                    WatcherModel {
                        watchers: rest,
                        watcher_count: if self.watcher_count > 0 {
                            (self.watcher_count - 1) as u32
                        } else {
                            0
                        },
                        ..self
                    },
                )
            } else {
                Ok(WatcherModel { watchers: rest.push(new_watcher), ..self })
            }
        }
    }

    /// `clear_all_watchers`: refused while any watcher remains.
    pub open spec fn clear_all(self, admin: Address) -> Result<WatcherModel, ContractError> {
        if self.admin_check(admin) is Err {
            Err(self.admin_check(admin)->Err_0)
        } else if self.timelock_check() is Err {
            Err(ContractError::TimelockRequired)
        } else if self.paused {
            Err(ContractError::Paused)
        } else if self.watchers.len() > 0 && MIN_WATCHERS > 0 {
            Err(ContractError::BelowMinWatchers)
        } else {
            Ok(WatcherModel { watchers: Seq::empty(), watcher_count: 0, ..self })
        }
    }

    /// How many watchers `clear_watchers_batch` takes out.
    pub open spec fn batch_cut(self, max_count: u32) -> int {
        if max_count < self.watchers.len() {
            max_count as int
        } else {
            self.watchers.len() as int
        }
    }

    /// `clear_watchers_batch`: the first `max_count` watchers taken out.
    pub open spec fn clear_batch(self, admin: Address, max_count: u32) -> Result<WatcherModel, ContractError> {
        if self.admin_check(admin) is Err {
            Err(self.admin_check(admin)->Err_0)
        } else if self.paused {
            Err(ContractError::Paused)
        } else {
            let cut = self.batch_cut(max_count);
            Ok(
                WatcherModel {
                    watchers: self.watchers.subrange(cut, self.watchers.len() as int),
                    watcher_count: if self.watcher_count >= cut {
                        (self.watcher_count - cut) as u32
                    } else {
                        0
                    },
                    ..self
                },
            )
        }
    }

    /// `set_timelock_delay`: the delay can only be raised directly.
    pub open spec fn set_timelock(self, caller: Address, delay: u32) -> Result<WatcherModel, ContractError> {
        if self.admin_check(caller) is Err {
            Err(self.admin_check(caller)->Err_0)
        } else if self.paused {
            Err(ContractError::Paused)
        } else if delay < self.timelock_delay {
            Err(ContractError::TimelockRequired)
        } else {
            Ok(WatcherModel { timelock_delay: delay, ..self })
        }
    }

    /// The ledger from which an action proposed at `ledger` may run.
    pub open spec fn ready_at(self, ledger: u32) -> u32 {
        if ledger + self.timelock_delay > u32::MAX {
            u32::MAX
        } else {
            (ledger + self.timelock_delay) as u32
        }
    }

    /// `propose_admin_action`.
    pub open spec fn propose_action(self, caller: Address, action: AdminAction, ledger: u32) -> Result<
        WatcherModel,
        ContractError,
    > {
        if self.admin_check(caller) is Err {
            Err(self.admin_check(caller)->Err_0)
        } else if self.paused {
            Err(ContractError::Paused)
        } else if self.pending_action is Some {
            Err(ContractError::ActionAlreadyPending)
        } else {
            Ok(
                WatcherModel {
                    pending_action: Some(
                        PendingAction { action, proposer: caller, ready_at: self.ready_at(ledger) },
                    ),
                    ..self
                },
            )
        }
    }

    /// `cancel_admin_action`.
    pub open spec fn cancel_action(self, caller: Address) -> Result<WatcherModel, ContractError> {
        if self.admin_check(caller) is Err {
            Err(self.admin_check(caller)->Err_0)
        } else if self.paused {
            Err(ContractError::Paused)
        } else if self.pending_action is None {
            Err(ContractError::NoPendingAction)
        } else {
            Ok(WatcherModel { pending_action: None, ..self })
        }
    }

    /// The effect of running `action` (the queue already cleared).
    pub open spec fn run_action(self, action: AdminAction) -> Result<WatcherModel, ContractError> {
        match action {
            AdminAction::AddAdmin(a) => match self.with_admin(a) {
                Ok(m) => Ok(m),
                Err(_) => Err(ContractError::MaxAdminsReached),
            },
            AdminAction::TransferAdmin(a) => Ok(WatcherModel { admins: seq![a], ..self }),
            AdminAction::ClearAllWatchers => Ok(
                WatcherModel { watchers: Seq::empty(), watcher_count: 0, ..self },
            ),
            AdminAction::SetTimelockDelay(d) => Ok(WatcherModel { timelock_delay: d, ..self }),
            AdminAction::Upgrade(_) => Ok(self),
        }
    }

    /// `execute_admin_action`: run the queued action once its delay elapsed.
    pub open spec fn execute_action(self, caller: Address, ledger: u32) -> Result<WatcherModel, ContractError> {
        if self.admin_check(caller) is Err {
            Err(self.admin_check(caller)->Err_0)
        } else if self.paused {
            Err(ContractError::Paused)
        } else if self.pending_action is None {
            Err(ContractError::NoPendingAction)
        } else if ledger < self.pending_action->Some_0.ready_at {
            Err(ContractError::TimelockNotExpired)
        } else {
            WatcherModel { pending_action: None, ..self }.run_action(self.pending_action->Some_0.action)
        }
    }
}

} // verus!
