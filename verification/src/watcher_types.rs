use vstd::prelude::*;

use crate::address::Address;

verus! {

/// Largest number of watchers the registry holds.
pub const MAX_WATCHERS: u32 = 100;

/// Largest number of admins the registry holds.
pub const MAX_ADMINS: u32 = 10;

/// Fewest watchers that must remain after a removal.
pub const MIN_WATCHERS: u32 = 1;

/// Errors returned by the watcher registry.
#[derive(Clone, Copy, Debug, PartialEq, Eq, Structural)]
pub enum ContractError {
    AlreadyInitialized,
    Unauthorized,
    NotInitialized,
    /// Removing the admin would leave the registry without one.
    LastAdmin,
    /// The watcher is not registered.
    WatcherNotFound,
    /// No admin transfer is pending for the accepting or cancelling address.
    NoPendingTransfer,
    /// The watcher set is full.
    TooManyWatchers,
    /// The admin set is full.
    TooManyAdmins,
    /// A queued `AddAdmin` action found the admin set full.
    MaxAdminsReached,
    /// A sensitive action was called directly while a timelock is configured.
    TimelockRequired,
    /// An admin action is already queued.
    ActionAlreadyPending,
    /// No admin action is queued.
    NoPendingAction,
    /// The queued action's delay has not elapsed.
    TimelockNotExpired,
    /// A mutation was attempted while the registry is paused.
    Paused,
    /// The removal would leave fewer than [`MIN_WATCHERS`] watchers.
    BelowMinWatchers,
}

/// A sensitive admin action that can be queued behind the timelock.
#[derive(Clone, Copy, Debug, PartialEq, Eq)]
pub enum AdminAction {
    /// Add the address to the admin set.
    AddAdmin(Address),
    /// Replace the whole admin set with the address.
    TransferAdmin(Address),
    /// Deauthorize every watcher.
    ClearAllWatchers,
    /// Set the timelock delay, in ledgers.
    SetTimelockDelay(u32),
    /// Replace the contract code with the given hash.
    Upgrade([u8; 32]),
}

/// A queued [`AdminAction`] and the ledger from which it may run.
#[derive(Clone, Copy, Debug, PartialEq, Eq)]
pub struct PendingAction {
    pub action: AdminAction,
    pub proposer: Address,
    pub ready_at: u32,
}

/// An event the watcher registry publishes; each variant names its topic
/// pair and carries its data.
#[derive(Clone, Copy, Debug, PartialEq, Eq, Structural)]
pub enum WatcherEvent {
    /// `("admin", "init")`
    AdminInit { admin: Address },
    /// `("admin", "add")`
    AdminAdded { caller: Address, new_admin: Address },
    /// `("admin", "remove")`
    AdminRemoved { caller: Address, target_admin: Address },
    /// `("admin", "propose")` with `(admin, new_admin)`: a two-step transfer proposed.
    TransferProposed { admin: Address, new_admin: Address },
    /// `("admin", "transfer")` with `new_admin`: a proposed transfer accepted.
    TransferAccepted { new_admin: Address },
    /// `("admin", "transfer")` with `(admin, new_admin)`: a slot or set handed over.
    AdminTransferred { admin: Address, new_admin: Address },
    /// `("admin", "cancel")` with `admin`: a proposed transfer withdrawn.
    TransferCancelled { admin: Address },
    /// `("admin", "pause")`
    Paused { admin: Address },
    /// `("admin", "unpause")`
    Unpaused { admin: Address },
    /// `("admin", "timelock")`
    TimelockSet { caller: Address, delay: u32 },
    /// `("admin", "propose")` with `(caller, ready_at)`: an action queued.
    ActionProposed { caller: Address, ready_at: u32 },
    /// `("admin", "cancel")` with `caller`: the queued action dropped.
    ActionCancelled { caller: Address },
    /// `("admin", "execute")`
    ActionExecuted { caller: Address },
    /// `("watcher", "register")`
    WatcherRegistered { watcher: Address },
    /// `("watcher", "remove")`
    WatcherRemoved { watcher: Address },
    /// `("watcher", "replace")`
    WatcherReplaced { old_watcher: Address, new_watcher: Address },
}

} // verus!
