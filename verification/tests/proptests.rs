#![allow(dead_code, unused_imports)]

use std::cell::{Cell, RefCell};
use std::rc::Rc;

use std::collections::BTreeMap;

use proptest::prelude::{any, Strategy};
use proptest::strategy::Union;
use proptest::test_runner::{Config, TestRunner};
use txwatch_registry::address::Address;
use txwatch_registry::fixtures;
use txwatch_registry::alert_error::ContractError;
use txwatch_registry::alert_registry::AlertRegistry;
use txwatch_registry::alert_types::{
    AlertConfig, AlertEvent, AlertInput, StorageKey, TtlExtension, DEFAULT_TTL, INSTANCE_BUMP_AMOUNT,
    INSTANCE_BUMP_THRESHOLD, MAX_LABEL_LEN, MAX_TTL,
};
use txwatch_registry::watcher_registry::WatcherRegistry;
use txwatch_registry::watcher_types::{
    AdminAction, ContractError as WatcherError, PendingAction, WatcherEvent, MAX_ADMINS, MAX_WATCHERS,
};

// ── A small host: ledger clock, address generator, deployed registries ─────

/// Lifetime a freshly written persistent entry gets, in ledgers.
const MIN_PERSISTENT_TTL: u32 = 4096;

pub struct LedgerInfo {
    pub timestamp: u64,
    pub sequence_number: u32,
}

struct Host {
    ledger: RefCell<LedgerInfo>,
    next_address: Cell<u64>,
    invocations: Cell<u64>,
    watcher_registries: RefCell<Vec<(Address, Rc<RefCell<WatcherRegistry>>)>>,
}

#[derive(Clone)]
pub struct Env(Rc<Host>);

impl Env {
    pub fn default() -> Env {
        Env(Rc::new(Host {
            ledger: RefCell::new(LedgerInfo { timestamp: 0, sequence_number: 0 }),
            next_address: Cell::new(1),
            invocations: Cell::new(0),
            watcher_registries: RefCell::new(Vec::new()),
        }))
    }

    pub fn ledger(&self) -> Ledger<'_> {
        Ledger(self)
    }

    fn fresh_address(&self) -> Address {
        let raw = self.0.next_address.get();
        self.0.next_address.set(raw + 1);
        Address::from_raw(raw)
    }

    fn now(&self) -> u64 {
        self.0.ledger.borrow().timestamp
    }

    fn sequence(&self) -> u32 {
        self.0.ledger.borrow().sequence_number
    }

    fn invoke(&self) -> u64 {
        let n = self.0.invocations.get() + 1;
        self.0.invocations.set(n);
        n
    }

    fn last_invocation(&self) -> u64 {
        self.0.invocations.get()
    }

    fn watcher_registry_at(&self, a: Address) -> Option<Rc<RefCell<WatcherRegistry>>> {
        self.0.watcher_registries.borrow().iter().find(|(addr, _)| *addr == a).map(|(_, r)| r.clone())
    }
}

pub struct Ledger<'a>(&'a Env);

impl<'a> Ledger<'a> {
    pub fn with_mut(&self, f: impl FnOnce(&mut LedgerInfo)) {
        f(&mut self.0 .0.ledger.borrow_mut());
    }

    pub fn set_timestamp(&self, t: u64) {
        self.0 .0.ledger.borrow_mut().timestamp = t;
    }

    pub fn timestamp(&self) -> u64 {
        self.0.now()
    }

    pub fn sequence(&self) -> u32 {
        self.0.sequence()
    }
}

pub trait Generate {
    fn generate(env: &Env) -> Self;
}

impl Generate for Address {
    fn generate(env: &Env) -> Address {
        env.fresh_address()
    }
}

/// Remaining lifetimes of the entries of one contract, as the host keeps them.
struct Lifetimes {
    live_until: RefCell<Vec<(StorageKey, u32)>>,
}

impl Lifetimes {
    fn new(env: &Env) -> Lifetimes {
        let l = Lifetimes { live_until: RefCell::new(Vec::new()) };
        l.live_until.borrow_mut().push((StorageKey::Instance, env.sequence() + MIN_PERSISTENT_TTL - 1));
        l
    }

    fn ttl(&self, env: &Env, key: StorageKey) -> u32 {
        let seq = env.sequence();
        match self.live_until.borrow().iter().find(|(k, _)| *k == key) {
            Some((_, until)) => until.saturating_sub(seq),
            None => 0,
        }
    }

    fn extend(&self, env: &Env, key: StorageKey, threshold: u32, extend_to: u32) {
        let seq = env.sequence();
        let mut table = self.live_until.borrow_mut();
        let pos = match table.iter().position(|(k, _)| *k == key) {
            Some(p) => p,
            None => {
                table.push((key, seq + MIN_PERSISTENT_TTL - 1));
                table.len() - 1
            }
        };
        let remaining = table[pos].1.saturating_sub(seq);
        if remaining < threshold {
            table[pos].1 = seq + extend_to;
        }
    }

    fn apply(&self, env: &Env, requests: &[TtlExtension]) {
        for r in requests {
            self.extend(env, r.key, r.threshold, r.extend_to);
        }
    }
}

/// The panic a failed contract call raises.
fn contract_panic(code: u32) -> ! {
    panic!("HostError: Error(Contract, #{})", code)
}

fn watcher_code(e: WatcherError) -> u32 {
    match e {
        WatcherError::AlreadyInitialized => 1,
        WatcherError::Unauthorized => 2,
        WatcherError::NotInitialized => 3,
        WatcherError::LastAdmin => 4,
        WatcherError::WatcherNotFound => 5,
        WatcherError::NoPendingTransfer => 6,
        WatcherError::TooManyWatchers => 7,
        WatcherError::TooManyAdmins => 8,
        WatcherError::MaxAdminsReached => 8,
        WatcherError::TimelockRequired => 8,
        WatcherError::ActionAlreadyPending => 9,
        WatcherError::NoPendingAction => 10,
        WatcherError::TimelockNotExpired => 11,
        WatcherError::Paused => 6,
        WatcherError::BelowMinWatchers => 7,
    }
}

fn ok_or_panic<T>(r: Result<T, ContractError>) -> T {
    match r {
        Ok(v) => v,
        Err(e) => contract_panic(e.code()),
    }
}

fn ok_or_panic_w<T>(r: Result<T, WatcherError>) -> T {
    match r {
        Ok(v) => v,
        Err(e) => contract_panic(watcher_code(e)),
    }
}

// ── Argument builders ──────────────────────────────────────────────────────

/// The bytes of a string argument.
fn str(_env: &Env, s: &str) -> Vec<u8> {
    fixtures::str(s)
}

/// A webhook hash with every byte set to `c`.
fn hash64c(_env: &Env, c: char) -> [u8; 32] {
    fixtures::hash64c(c as u8)
}

/// The default webhook hash used by tests.
fn hash64(_env: &Env) -> [u8; 32] {
    fixtures::hash64()
}

/// `n` repetitions of the ASCII character `ch`.
fn str_repeat(_env: &Env, ch: char, n: usize) -> Vec<u8> {
    fixtures::str_repeat(ch as u8, n)
}

// ── Alert registry client ──────────────────────────────────────────────────

pub struct AlertRegistryClient {
    env: Env,
    pub address: Address,
    reg: RefCell<AlertRegistry>,
    lifetimes: Lifetimes,
    last_call: Cell<u64>,
}

impl AlertRegistryClient {
    /// Deploy a registry; with `admin` it is initialized as by its constructor.
    pub fn deploy(env: &Env, admin: Option<Address>) -> AlertRegistryClient {
        let c = AlertRegistryClient {
            env: env.clone(),
            address: env.fresh_address(),
            reg: RefCell::new(AlertRegistry::new()),
            lifetimes: Lifetimes::new(env),
            last_call: Cell::new(0),
        };
        if let Some(a) = admin {
            c.initialize(&a);
        }
        c
    }

    fn write<T>(&self, f: impl FnOnce(&mut AlertRegistry, u64, u32) -> Result<T, ContractError>) -> Result<T, ContractError> {
        let now = self.env.now();
        let seq = self.env.sequence();
        let r = f(&mut self.reg.borrow_mut(), now, seq);
        self.last_call.set(self.env.invoke());
        if r.is_ok() {
            let reqs = self.reg.borrow().last_ttl_requests();
            self.lifetimes.apply(&self.env, &reqs);
        }
        r
    }

    fn read<T>(&self, f: impl FnOnce(&AlertRegistry) -> T) -> T {
        self.env.invoke();
        f(&self.reg.borrow())
    }

    fn querier_is_watcher(&self, querier: &Address) -> bool {
        match self.reg.borrow().get_watcher_registry() {
            None => false,
            Some(a) => match self.env.watcher_registry_at(a) {
                Some(w) => w.borrow().is_watcher_authorized(*querier),
                None => false,
            },
        }
    }

    /// Events published by the most recent invocation, if it was this contract's.
    pub fn emitted_events(&self) -> Vec<AlertEvent> {
        if self.last_call.get() == self.env.last_invocation() {
            self.reg.borrow().last_events()
        } else {
            Vec::new()
        }
    }

    pub fn persistent_ttl(&self, key: StorageKey) -> u32 {
        self.lifetimes.ttl(&self.env, key)
    }

    pub fn instance_ttl(&self) -> u32 {
        self.lifetimes.ttl(&self.env, StorageKey::Instance)
    }

    pub fn force_extend_ttl(&self, key: StorageKey, threshold: u32, extend_to: u32) {
        self.lifetimes.extend(&self.env, key, threshold, extend_to);
    }

    // admin
    pub fn try_initialize(&self, admin: &Address) -> Result<(), ContractError> {
        self.write(|r, _, _| r.initialize(*admin))
    }
    pub fn initialize(&self, admin: &Address) {
        ok_or_panic(self.try_initialize(admin))
    }
    pub fn try_transfer_admin(&self, admin: &Address, new_admin: &Address) -> Result<(), ContractError> {
        self.write(|r, _, _| r.transfer_admin(*admin, *new_admin))
    }
    pub fn transfer_admin(&self, admin: &Address, new_admin: &Address) {
        ok_or_panic(self.try_transfer_admin(admin, new_admin))
    }
    pub fn try_upgrade(&self, admin: &Address, hash: &[u8; 32]) -> Result<(), ContractError> {
        self.write(|r, _, _| r.upgrade(*admin, *hash))
    }
    pub fn try_get_admin(&self) -> Result<Address, ContractError> {
        self.read(|r| r.get_admin())
    }
    pub fn get_admin(&self) -> Address {
        ok_or_panic(self.try_get_admin())
    }
    pub fn try_pause(&self, admin: &Address) -> Result<(), ContractError> {
        self.write(|r, _, _| r.pause(*admin))
    }
    pub fn pause(&self, admin: &Address) {
        ok_or_panic(self.try_pause(admin))
    }
    pub fn try_unpause(&self, admin: &Address) -> Result<(), ContractError> {
        self.write(|r, _, _| r.unpause(*admin))
    }
    pub fn unpause(&self, admin: &Address) {
        ok_or_panic(self.try_unpause(admin))
    }
    pub fn is_paused(&self) -> bool {
        self.read(|r| r.is_paused())
    }
    pub fn try_set_per_owner_alert_limit(&self, admin: &Address, limit: &u32) -> Result<(), ContractError> {
        self.write(|r, _, _| r.set_per_owner_alert_limit(*admin, *limit))
    }
    pub fn set_per_owner_alert_limit(&self, admin: &Address, limit: &u32) {
        ok_or_panic(self.try_set_per_owner_alert_limit(admin, limit))
    }
    pub fn get_per_owner_alert_limit(&self) -> u32 {
        self.read(|r| r.get_per_owner_alert_limit())
    }
    pub fn try_set_per_contract_alert_limit(&self, admin: &Address, limit: &u32) -> Result<(), ContractError> {
        self.write(|r, _, _| r.set_per_contract_alert_limit(*admin, *limit))
    }
    pub fn set_per_contract_alert_limit(&self, admin: &Address, limit: &u32) {
        ok_or_panic(self.try_set_per_contract_alert_limit(admin, limit))
    }
    pub fn get_per_contract_alert_limit(&self) -> u32 {
        self.read(|r| r.get_per_contract_alert_limit())
    }
    pub fn try_set_global_alert_limit(&self, admin: &Address, limit: &u32) -> Result<(), ContractError> {
        self.write(|r, _, _| r.set_global_alert_limit(*admin, *limit))
    }
    pub fn set_global_alert_limit(&self, admin: &Address, limit: &u32) {
        ok_or_panic(self.try_set_global_alert_limit(admin, limit))
    }
    pub fn get_global_alert_limit(&self) -> u32 {
        self.read(|r| r.get_global_alert_limit())
    }
    pub fn try_set_watcher_registry(&self, admin: &Address, registry: &Address) -> Result<(), ContractError> {
        let answered = self.env.watcher_registry_at(*registry).is_some();
        self.write(|r, _, _| r.set_watcher_registry(*admin, *registry, answered))
    }
    pub fn set_watcher_registry(&self, admin: &Address, registry: &Address) {
        ok_or_panic(self.try_set_watcher_registry(admin, registry))
    }
    pub fn try_clear_watcher_registry(&self, admin: &Address) -> Result<(), ContractError> {
        self.write(|r, _, _| r.clear_watcher_registry(*admin))
    }
    pub fn clear_watcher_registry(&self, admin: &Address) {
        ok_or_panic(self.try_clear_watcher_registry(admin))
    }
    pub fn get_watcher_registry(&self) -> Option<Address> {
        self.read(|r| r.get_watcher_registry())
    }
    pub fn is_watcher_gating_enabled(&self) -> bool {
        self.read(|r| r.is_watcher_gating_enabled())
    }
    pub fn bump_instance_ttl(&self) {
        let _ = self.write(|r, _, _| {
            r.bump_instance_ttl();
            Ok::<(), ContractError>(())
        });
    }

    // alert mutations
    pub fn try_register_alert(
        &self,
        owner: &Address,
        target: &Address,
        label: &Vec<u8>,
        hash: &[u8; 32],
        rules: &Vec<Vec<u8>>,
    ) -> Result<u64, ContractError> {
        assert!(self.reg.borrow().has_room_for(1), "counter overflow");
        self.write(|r, now, seq| r.register_alert(*owner, *target, label.clone(), *hash, rules.clone(), now, seq))
    }
    pub fn register_alert(
        &self,
        owner: &Address,
        target: &Address,
        label: &Vec<u8>,
        hash: &[u8; 32],
        rules: &Vec<Vec<u8>>,
    ) -> u64 {
        ok_or_panic(self.try_register_alert(owner, target, label, hash, rules))
    }
    pub fn try_batch_register_alert(&self, inputs: &Vec<AlertInput>) -> Result<Vec<u64>, ContractError> {
        assert!(self.reg.borrow().has_room_for(inputs.len() as u32), "counter overflow");
        let copy: Vec<AlertInput> = inputs
            .iter()
            .map(|x| AlertInput {
                owner: x.owner,
                target_contract: x.target_contract,
                label: x.label.clone(),
                webhook_hash: x.webhook_hash,
                rules: x.rules.clone(),
            })
            .collect();
        self.write(|r, now, seq| r.batch_register_alert(copy, now, seq))
    }
    pub fn batch_register_alert(&self, inputs: &Vec<AlertInput>) -> Vec<u64> {
        ok_or_panic(self.try_batch_register_alert(inputs))
    }
    pub fn try_update_alert(&self, caller: &Address, id: &u64, rules: &Vec<Vec<u8>>, active: &bool) -> Result<(), ContractError> {
        self.write(|r, now, seq| r.update_alert(*caller, *id, rules.clone(), *active, now, seq))
    }
    pub fn update_alert(&self, caller: &Address, id: &u64, rules: &Vec<Vec<u8>>, active: &bool) {
        ok_or_panic(self.try_update_alert(caller, id, rules, active))
    }
    pub fn try_update_webhook(&self, caller: &Address, id: &u64, hash: &[u8; 32]) -> Result<(), ContractError> {
        self.write(|r, now, seq| r.update_webhook(*caller, *id, *hash, now, seq))
    }
    pub fn update_webhook(&self, caller: &Address, id: &u64, hash: &[u8; 32]) {
        ok_or_panic(self.try_update_webhook(caller, id, hash))
    }
    pub fn try_propose_webhook(&self, caller: &Address, id: &u64, hash: &[u8; 32]) -> Result<(), ContractError> {
        self.write(|r, _, _| r.propose_webhook(*caller, *id, *hash))
    }
    pub fn propose_webhook(&self, caller: &Address, id: &u64, hash: &[u8; 32]) {
        ok_or_panic(self.try_propose_webhook(caller, id, hash))
    }
    pub fn try_confirm_webhook(&self, caller: &Address, id: &u64) -> Result<(), ContractError> {
        self.write(|r, now, seq| r.confirm_webhook(*caller, *id, now, seq))
    }
    pub fn confirm_webhook(&self, caller: &Address, id: &u64) {
        ok_or_panic(self.try_confirm_webhook(caller, id))
    }
    pub fn try_cancel_webhook_proposal(&self, caller: &Address, id: &u64) -> Result<(), ContractError> {
        self.write(|r, now, seq| r.cancel_webhook_proposal(*caller, *id, now, seq))
    }
    pub fn cancel_webhook_proposal(&self, caller: &Address, id: &u64) {
        ok_or_panic(self.try_cancel_webhook_proposal(caller, id))
    }
    pub fn try_update_label(&self, caller: &Address, id: &u64, label: &Vec<u8>) -> Result<(), ContractError> {
        self.write(|r, now, seq| r.update_label(*caller, *id, label.clone(), now, seq))
    }
    pub fn update_label(&self, caller: &Address, id: &u64, label: &Vec<u8>) {
        ok_or_panic(self.try_update_label(caller, id, label))
    }
    pub fn try_renew_alert_ttl(&self, caller: &Address, id: &u64) -> Result<(), ContractError> {
        self.write(|r, _, _| r.renew_alert_ttl(*caller, *id))
    }
    pub fn renew_alert_ttl(&self, caller: &Address, id: &u64) {
        ok_or_panic(self.try_renew_alert_ttl(caller, id))
    }
    pub fn try_deactivate_alert_by_admin(&self, admin: &Address, id: &u64) -> Result<(), ContractError> {
        self.write(|r, now, seq| r.deactivate_alert_by_admin(*admin, *id, now, seq))
    }
    pub fn deactivate_alert_by_admin(&self, admin: &Address, id: &u64) {
        ok_or_panic(self.try_deactivate_alert_by_admin(admin, id))
    }
    pub fn try_bump_alert(&self, id: &u64, ttl: &u32) -> Result<(), ContractError> {
        self.write(|r, _, _| r.bump_alert(*id, *ttl))
    }
    pub fn bump_alert(&self, id: &u64, ttl: &u32) {
        ok_or_panic(self.try_bump_alert(id, ttl))
    }
    pub fn try_remove_alert(&self, caller: &Address, id: &u64) -> Result<(), ContractError> {
        self.write(|r, _, _| r.remove_alert(*caller, *id))
    }
    pub fn remove_alert(&self, caller: &Address, id: &u64) {
        ok_or_panic(self.try_remove_alert(caller, id))
    }
    pub fn try_remove_alert_by_admin(&self, admin: &Address, id: &u64) -> Result<(), ContractError> {
        self.write(|r, _, _| r.remove_alert_by_admin(*admin, *id))
    }
    pub fn remove_alert_by_admin(&self, admin: &Address, id: &u64) {
        ok_or_panic(self.try_remove_alert_by_admin(admin, id))
    }
    pub fn try_batch_remove_alert(&self, caller: &Address, ids: &Vec<u64>) -> Result<(), ContractError> {
        self.write(|r, _, _| r.batch_remove_alert(*caller, ids.clone()))
    }
    pub fn batch_remove_alert(&self, caller: &Address, ids: &Vec<u64>) {
        ok_or_panic(self.try_batch_remove_alert(caller, ids))
    }
    pub fn try_transfer_alert_ownership(&self, caller: &Address, id: &u64, new_owner: &Address) -> Result<(), ContractError> {
        assert!(self.reg.borrow().has_room_for(1), "counter overflow");
        self.write(|r, now, seq| r.transfer_alert_ownership(*caller, *id, *new_owner, now, seq))
    }
    pub fn transfer_alert_ownership(&self, caller: &Address, id: &u64, new_owner: &Address) {
        ok_or_panic(self.try_transfer_alert_ownership(caller, id, new_owner))
    }
    pub fn try_update_target_contract(&self, caller: &Address, id: &u64, new_target: &Address) -> Result<(), ContractError> {
        self.write(|r, now, seq| r.update_target_contract(*caller, *id, *new_target, now, seq))
    }
    pub fn update_target_contract(&self, caller: &Address, id: &u64, new_target: &Address) {
        ok_or_panic(self.try_update_target_contract(caller, id, new_target))
    }
    pub fn try_deactivate_all_alerts(&self, caller: &Address) -> Result<u32, ContractError> {
        self.write(|r, now, seq| r.deactivate_all_alerts(*caller, now, seq))
    }
    pub fn deactivate_all_alerts(&self, caller: &Address) -> u32 {
        ok_or_panic(self.try_deactivate_all_alerts(caller))
    }

    // queries
    pub fn try_get_alert(&self, querier: &Address, id: &u64) -> Result<Option<AlertConfig>, ContractError> {
        let w = self.querier_is_watcher(querier);
        self.read(|r| r.get_alert(w, *id))
    }
    pub fn get_alert(&self, querier: &Address, id: &u64) -> Option<AlertConfig> {
        ok_or_panic(self.try_get_alert(querier, id))
    }
    pub fn try_get_alert_active(&self, querier: &Address, id: &u64) -> Result<Option<bool>, ContractError> {
        let w = self.querier_is_watcher(querier);
        self.read(|r| r.get_alert_active(w, *id))
    }
    pub fn get_alert_active(&self, querier: &Address, id: &u64) -> Option<bool> {
        ok_or_panic(self.try_get_alert_active(querier, id))
    }
    pub fn try_get_alert_owner(&self, querier: &Address, id: &u64) -> Result<Option<Address>, ContractError> {
        let w = self.querier_is_watcher(querier);
        self.read(|r| r.get_alert_owner(w, *id))
    }
    pub fn get_alert_owner(&self, querier: &Address, id: &u64) -> Option<Address> {
        ok_or_panic(self.try_get_alert_owner(querier, id))
    }
    pub fn try_get_alerts_for_contract(&self, querier: &Address, target: &Address) -> Result<Vec<AlertConfig>, ContractError> {
        let w = self.querier_is_watcher(querier);
        self.read(|r| r.get_alerts_for_contract(w, *target))
    }
    pub fn get_alerts_for_contract(&self, querier: &Address, target: &Address) -> Vec<AlertConfig> {
        ok_or_panic(self.try_get_alerts_for_contract(querier, target))
    }
    pub fn try_get_active_alerts_for_contract(&self, querier: &Address, target: &Address) -> Result<Vec<AlertConfig>, ContractError> {
        let w = self.querier_is_watcher(querier);
        self.read(|r| r.get_active_alerts_for_contract(w, *target))
    }
    pub fn get_active_alerts_for_contract(&self, querier: &Address, target: &Address) -> Vec<AlertConfig> {
        ok_or_panic(self.try_get_active_alerts_for_contract(querier, target))
    }
    pub fn try_get_alerts_by_owner(&self, querier: &Address, owner: &Address) -> Result<Vec<AlertConfig>, ContractError> {
        let w = self.querier_is_watcher(querier);
        self.read(|r| r.get_alerts_by_owner(w, *owner))
    }
    pub fn get_alerts_by_owner(&self, querier: &Address, owner: &Address) -> Vec<AlertConfig> {
        ok_or_panic(self.try_get_alerts_by_owner(querier, owner))
    }
    pub fn get_alert_ids_by_owner(&self, owner: &Address) -> Vec<u64> {
        self.read(|r| r.get_alert_ids_by_owner(*owner))
    }
    pub fn try_get_contract_alerts_paginated(
        &self,
        querier: &Address,
        target: &Address,
        offset: &u32,
        limit: &u32,
    ) -> Result<Vec<AlertConfig>, ContractError> {
        let w = self.querier_is_watcher(querier);
        self.read(|r| r.get_contract_alerts_paginated(w, *target, *offset, *limit))
    }
    pub fn get_contract_alerts_paginated(&self, querier: &Address, target: &Address, offset: &u32, limit: &u32) -> Vec<AlertConfig> {
        ok_or_panic(self.try_get_contract_alerts_paginated(querier, target, offset, limit))
    }
    pub fn try_get_alerts_by_owner_paginated(
        &self,
        querier: &Address,
        owner: &Address,
        offset: &u32,
        limit: &u32,
    ) -> Result<Vec<AlertConfig>, ContractError> {
        let w = self.querier_is_watcher(querier);
        self.read(|r| r.get_alerts_by_owner_paginated(w, *owner, *offset, *limit))
    }
    pub fn get_alerts_by_owner_paginated(&self, querier: &Address, owner: &Address, offset: &u32, limit: &u32) -> Vec<AlertConfig> {
        ok_or_panic(self.try_get_alerts_by_owner_paginated(querier, owner, offset, limit))
    }
    pub fn get_alerts_modified_since(&self, since: &u64, offset: &u32, limit: &u32) -> Vec<AlertConfig> {
        self.read(|r| r.get_alerts_modified_since(*since, *offset, *limit))
    }
    pub fn get_alerts_modified_since_ledger(&self, since: &u32, offset: &u32, limit: &u32) -> Vec<AlertConfig> {
        self.read(|r| r.get_alerts_modified_since_ledger(*since, *offset, *limit))
    }
    pub fn get_alert_count(&self) -> u64 {
        self.read(|r| r.get_alert_count())
    }
    pub fn get_active_alert_count(&self, owner: &Address) -> u32 {
        self.read(|r| r.get_active_alert_count(*owner))
    }
    pub fn get_non_removed_alert_count(&self, owner: &Address) -> u32 {
        self.read(|r| r.get_non_removed_alert_count(*owner))
    }
    pub fn get_active_contract_alert_count(&self, target: &Address) -> u32 {
        assert!(self.reg.borrow().has_room_for(0), "counter overflow");
        self.read(|r| r.get_active_contract_alert_count(*target))
    }
}

// ── Watcher registry client ────────────────────────────────────────────────

pub struct WatcherRegistryClient {
    env: Env,
    pub address: Address,
    reg: Rc<RefCell<WatcherRegistry>>,
    lifetimes: Lifetimes,
    last_call: Cell<u64>,
}

impl WatcherRegistryClient {
    /// Deploy a registry; with `admin` it is initialized as by its constructor.
    pub fn deploy(env: &Env, admin: Option<Address>) -> WatcherRegistryClient {
        let address = env.fresh_address();
        let reg = Rc::new(RefCell::new(WatcherRegistry::new()));
        env.0.watcher_registries.borrow_mut().push((address, reg.clone()));
        let c = WatcherRegistryClient {
            env: env.clone(),
            address,
            reg,
            lifetimes: Lifetimes::new(env),
            last_call: Cell::new(0),
        };
        if let Some(a) = admin {
            c.initialize(&a);
        }
        c
    }

    fn write<T>(&self, f: impl FnOnce(&mut WatcherRegistry, u32) -> Result<T, WatcherError>) -> Result<T, WatcherError> {
        let seq = self.env.sequence();
        let r = f(&mut self.reg.borrow_mut(), seq);
        self.last_call.set(self.env.invoke());
        if r.is_ok() {
            let reqs = self.reg.borrow().last_ttl_requests();
            self.lifetimes.apply(&self.env, &reqs);
        }
        r
    }

    fn read<T>(&self, f: impl FnOnce(&WatcherRegistry) -> T) -> T {
        self.env.invoke();
        f(&self.reg.borrow())
    }

    /// Events published by the most recent invocation, if it was this contract's.
    pub fn emitted_events(&self) -> Vec<WatcherEvent> {
        if self.last_call.get() == self.env.last_invocation() {
            self.reg.borrow().last_events()
        } else {
            Vec::new()
        }
    }

    pub fn instance_ttl(&self) -> u32 {
        self.lifetimes.ttl(&self.env, StorageKey::Instance)
    }

    pub fn try_initialize(&self, admin: &Address) -> Result<(), WatcherError> {
        self.write(|r, _| r.initialize(*admin))
    }
    pub fn initialize(&self, admin: &Address) {
        ok_or_panic_w(self.try_initialize(admin))
    }
    pub fn try_add_admin(&self, caller: &Address, new_admin: &Address) -> Result<(), WatcherError> {
        self.write(|r, _| r.add_admin(*caller, *new_admin))
    }
    pub fn add_admin(&self, caller: &Address, new_admin: &Address) {
        ok_or_panic_w(self.try_add_admin(caller, new_admin))
    }
    pub fn try_remove_admin(&self, caller: &Address, target: &Address) -> Result<(), WatcherError> {
        self.write(|r, _| r.remove_admin(*caller, *target))
    }
    pub fn remove_admin(&self, caller: &Address, target: &Address) {
        ok_or_panic_w(self.try_remove_admin(caller, target))
    }
    pub fn try_propose_admin_transfer(&self, admin: &Address, new_admin: &Address) -> Result<(), WatcherError> {
        self.write(|r, _| r.propose_admin_transfer(*admin, *new_admin))
    }
    pub fn propose_admin_transfer(&self, admin: &Address, new_admin: &Address) {
        ok_or_panic_w(self.try_propose_admin_transfer(admin, new_admin))
    }
    pub fn try_accept_admin_transfer(&self, new_admin: &Address) -> Result<(), WatcherError> {
        self.write(|r, _| r.accept_admin_transfer(*new_admin))
    }
    pub fn accept_admin_transfer(&self, new_admin: &Address) {
        ok_or_panic_w(self.try_accept_admin_transfer(new_admin))
    }
    pub fn try_cancel_admin_transfer(&self, admin: &Address) -> Result<(), WatcherError> {
        self.write(|r, _| r.cancel_admin_transfer(*admin))
    }
    pub fn cancel_admin_transfer(&self, admin: &Address) {
        ok_or_panic_w(self.try_cancel_admin_transfer(admin))
    }
    pub fn try_transfer_admin(&self, admin: &Address, new_admin: &Address) -> Result<(), WatcherError> {
        self.write(|r, _| r.transfer_admin(*admin, *new_admin))
    }
    pub fn transfer_admin(&self, admin: &Address, new_admin: &Address) {
        ok_or_panic_w(self.try_transfer_admin(admin, new_admin))
    }
    pub fn try_register_watcher(&self, admin: &Address, watcher: &Address) -> Result<(), WatcherError> {
        self.write(|r, _| r.register_watcher(*admin, *watcher))
    }
    pub fn register_watcher(&self, admin: &Address, watcher: &Address) {
        ok_or_panic_w(self.try_register_watcher(admin, watcher))
    }
    pub fn try_register_watchers(&self, admin: &Address, watchers: &Vec<Address>) -> Result<(), WatcherError> {
        self.write(|r, _| r.register_watchers(*admin, watchers.clone()))
    }
    pub fn register_watchers(&self, admin: &Address, watchers: &Vec<Address>) {
        ok_or_panic_w(self.try_register_watchers(admin, watchers))
    }
    pub fn try_remove_watcher(&self, admin: &Address, watcher: &Address) -> Result<(), WatcherError> {
        self.write(|r, _| r.remove_watcher(*admin, *watcher))
    }
    pub fn remove_watcher(&self, admin: &Address, watcher: &Address) {
        ok_or_panic_w(self.try_remove_watcher(admin, watcher))
    }
    pub fn try_replace_watcher(&self, admin: &Address, old_w: &Address, new_w: &Address) -> Result<(), WatcherError> {
        self.write(|r, _| r.replace_watcher(*admin, *old_w, *new_w))
    }
    pub fn replace_watcher(&self, admin: &Address, old_w: &Address, new_w: &Address) {
        ok_or_panic_w(self.try_replace_watcher(admin, old_w, new_w))
    }
    pub fn is_watcher_authorized(&self, watcher: &Address) -> bool {
        self.read(|r| r.is_watcher_authorized(*watcher))
    }
    pub fn is_authorized(&self, watcher: &Address) -> bool {
        self.read(|r| r.is_authorized(*watcher))
    }
    pub fn try_clear_all_watchers(&self, admin: &Address) -> Result<(), WatcherError> {
        self.write(|r, _| r.clear_all_watchers(*admin))
    }
    pub fn clear_all_watchers(&self, admin: &Address) {
        ok_or_panic_w(self.try_clear_all_watchers(admin))
    }
    pub fn try_clear_watchers_batch(&self, admin: &Address, max_count: &u32) -> Result<(), WatcherError> {
        self.write(|r, _| r.clear_watchers_batch(*admin, *max_count))
    }
    pub fn clear_watchers_batch(&self, admin: &Address, max_count: &u32) {
        ok_or_panic_w(self.try_clear_watchers_batch(admin, max_count))
    }
    pub fn get_watchers(&self) -> Vec<Address> {
        self.read(|r| r.get_watchers())
    }
    pub fn get_watchers_paginated(&self, offset: &u32, limit: &u32) -> Vec<Address> {
        self.read(|r| r.get_watchers_paginated(*offset, *limit))
    }
    pub fn try_get_admins(&self) -> Result<Vec<Address>, WatcherError> {
        self.read(|r| r.get_admins())
    }
    pub fn get_admins(&self) -> Vec<Address> {
        ok_or_panic_w(self.try_get_admins())
    }
    pub fn try_get_admin(&self) -> Result<Address, WatcherError> {
        self.read(|r| r.get_admin())
    }
    pub fn get_admin(&self) -> Address {
        ok_or_panic_w(self.try_get_admin())
    }
    pub fn is_admin(&self, a: &Address) -> bool {
        self.read(|r| r.is_admin(*a))
    }
    pub fn try_pause(&self, caller: &Address) -> Result<(), WatcherError> {
        self.write(|r, _| r.pause(*caller))
    }
    pub fn pause(&self, caller: &Address) {
        ok_or_panic_w(self.try_pause(caller))
    }
    pub fn try_unpause(&self, caller: &Address) -> Result<(), WatcherError> {
        self.write(|r, _| r.unpause(*caller))
    }
    pub fn unpause(&self, caller: &Address) {
        ok_or_panic_w(self.try_unpause(caller))
    }
    pub fn is_paused(&self) -> bool {
        self.read(|r| r.is_paused())
    }
    pub fn get_watcher_count(&self) -> u32 {
        self.read(|r| r.get_watcher_count())
    }
    pub fn try_upgrade(&self, admin: &Address, hash: &[u8; 32]) -> Result<(), WatcherError> {
        self.write(|r, _| r.upgrade(*admin, *hash))
    }
    pub fn bump_instance_ttl(&self) {
        let _ = self.write(|r, _| {
            r.bump_instance_ttl();
            Ok::<(), WatcherError>(())
        });
    }
    pub fn try_set_timelock_delay(&self, caller: &Address, delay: &u32) -> Result<(), WatcherError> {
        self.write(|r, _| r.set_timelock_delay(*caller, *delay))
    }
    pub fn set_timelock_delay(&self, caller: &Address, delay: &u32) {
        ok_or_panic_w(self.try_set_timelock_delay(caller, delay))
    }
    pub fn get_timelock_delay(&self) -> u32 {
        self.read(|r| r.get_timelock_delay())
    }
    pub fn get_pending_action(&self) -> Option<PendingAction> {
        self.read(|r| r.get_pending_action())
    }
    pub fn try_propose_admin_action(&self, caller: &Address, action: &AdminAction) -> Result<u32, WatcherError> {
        self.write(|r, seq| r.propose_admin_action(*caller, *action, seq))
    }
    pub fn propose_admin_action(&self, caller: &Address, action: &AdminAction) -> u32 {
        ok_or_panic_w(self.try_propose_admin_action(caller, action))
    }
    pub fn try_cancel_admin_action(&self, caller: &Address) -> Result<(), WatcherError> {
        self.write(|r, _| r.cancel_admin_action(*caller))
    }
    pub fn cancel_admin_action(&self, caller: &Address) {
        ok_or_panic_w(self.try_cancel_admin_action(caller))
    }
    pub fn try_execute_admin_action(&self, caller: &Address) -> Result<(), WatcherError> {
        self.write(|r, seq| r.execute_admin_action(*caller, seq))
    }
    pub fn execute_admin_action(&self, caller: &Address) {
        ok_or_panic_w(self.try_execute_admin_action(caller))
    }
}

fn advance_ledgers(env: &Env, n: u32) {
    env.ledger().with_mut(|li| li.sequence_number += n);
}

fn create_env_and_client() -> (Env, Address, AlertRegistryClient) {
    let env = Env::default();
    let client = AlertRegistryClient::deploy(&env, None);
    let admin = Address::generate(&env);
    client.initialize(&admin);
    (env, admin, client)
}

fn make_hash64(env: &Env, ch: char) -> [u8; 32] {
    hash64c(env, ch)
}

fn make_str(env: &Env, s: &str) -> Vec<u8> {
    str(env, s)
}

fn valid_rules(env: &Env, count: usize) -> Vec<Vec<u8>> {
    // Alternates the two descriptors, so three or more repeat one of them.
    let count = count.min(10);
    let mut v = Vec::new();
    for i in 0..count {
        let rule_str = if i % 2 == 0 {
            "rule:transfer"
        } else {
            "rule:mint"
        };
        v.push(make_str(env, rule_str));
    }
    v
}

#[derive(Debug, Clone)]
pub enum AlertAction {
    Register {
        owner_idx: usize,
        target_idx: usize,
        label: String,
        hash_char: char,
        rules_count: usize,
    },
    UpdateAlert {
        alert_selector: usize,
        caller_idx: usize,
        rules_count: usize,
        active: bool,
    },
    UpdateWebhook {
        alert_selector: usize,
        caller_idx: usize,
        hash_char: char,
    },
    ProposeWebhook {
        alert_selector: usize,
        caller_idx: usize,
        hash_char: char,
    },
    ConfirmWebhook {
        alert_selector: usize,
        caller_idx: usize,
    },
    RenewTtl {
        alert_selector: usize,
        caller_idx: usize,
    },
    UpdateLabel {
        alert_selector: usize,
        caller_idx: usize,
        label: String,
    },
    UpdateTargetContract {
        alert_selector: usize,
        caller_idx: usize,
        target_idx: usize,
    },
    DeactivateAll {
        caller_idx: usize,
    },
    RemoveAlert {
        alert_selector: usize,
        caller_idx: usize,
    },
    RemoveAlertByAdmin {
        alert_selector: usize,
    },
    BumpAlert {
        alert_selector: usize,
        ttl: u32,
    },
}


fn alnum_char() -> impl Strategy<Value = char> + Clone {
    any::<char>().prop_filter("alphanumeric char", char::is_ascii_alphanumeric)
}

fn action_strategy() -> impl Strategy<Value = AlertAction> {
    Union::new_weighted(vec![
        (
            30,
            (0..3usize, 0..3usize, "[a-zA-Z0-9 _-]{1,30}", alnum_char(), 0..5usize)
                .prop_map(|(owner_idx, target_idx, label, hash_char, rules_count)| AlertAction::Register {
                    owner_idx,
                    target_idx,
                    label,
                    hash_char,
                    rules_count,
                })
                .boxed(),
        ),
        (
            15,
            (0..20usize, 0..4usize, 0..5usize, any::<bool>())
                .prop_map(|(alert_selector, caller_idx, rules_count, active)| AlertAction::UpdateAlert {
                    alert_selector,
                    caller_idx,
                    rules_count,
                    active,
                })
                .boxed(),
        ),
        (
            10,
            (0..20usize, 0..4usize, alnum_char())
                .prop_map(|(alert_selector, caller_idx, hash_char)| AlertAction::UpdateWebhook {
                    alert_selector,
                    caller_idx,
                    hash_char,
                })
                .boxed(),
        ),
        (
            15,
            (0..20usize, 0..4usize, alnum_char())
                .prop_map(|(alert_selector, caller_idx, hash_char)| AlertAction::ProposeWebhook {
                    alert_selector,
                    caller_idx,
                    hash_char,
                })
                .boxed(),
        ),
        (
            15,
            (0..20usize, 0..4usize)
                .prop_map(|(alert_selector, caller_idx)| AlertAction::ConfirmWebhook { alert_selector, caller_idx })
                .boxed(),
        ),
        (
            5,
            (0..20usize, 0..4usize)
                .prop_map(|(alert_selector, caller_idx)| AlertAction::RenewTtl { alert_selector, caller_idx })
                .boxed(),
        ),
        (
            10,
            (0..20usize, 0..4usize, "[a-zA-Z0-9 _-]{1,30}")
                .prop_map(|(alert_selector, caller_idx, label)| AlertAction::UpdateLabel {
                    alert_selector,
                    caller_idx,
                    label,
                })
                .boxed(),
        ),
        (
            10,
            (0..20usize, 0..4usize, 0..3usize)
                .prop_map(|(alert_selector, caller_idx, target_idx)| AlertAction::UpdateTargetContract {
                    alert_selector,
                    caller_idx,
                    target_idx,
                })
                .boxed(),
        ),
        (8, (0..4usize).prop_map(|caller_idx| AlertAction::DeactivateAll { caller_idx }).boxed()),
        (
            10,
            (0..20usize, 0..4usize)
                .prop_map(|(alert_selector, caller_idx)| AlertAction::RemoveAlert { alert_selector, caller_idx })
                .boxed(),
        ),
        (5, (0..20usize).prop_map(|alert_selector| AlertAction::RemoveAlertByAdmin { alert_selector }).boxed()),
        (
            10,
            (0..20usize, 0..1_000_000u32)
                .prop_map(|(alert_selector, ttl)| AlertAction::BumpAlert { alert_selector, ttl })
                .boxed(),
        ),
    ])
}

fn runner(cases: u32) -> TestRunner {
    TestRunner::new(Config::with_cases(cases))
}

#[derive(Debug, Clone)]
struct ModelAlert {
    id: u64,
    owner_idx: usize,
    target_idx: usize,
    label: String,
    webhook_hash_char: char,
    pending_webhook_hash_char: Option<char>,
    rules_count: usize,
    active: bool,
    removed: bool,
    created_at: u64,
    updated_at: u64,
}

#[test]
fn test_proptest_state_machine_manual_smoke() {
    let initial_actions = vec![
        AlertAction::Register {
            owner_idx: 0,
            target_idx: 0,
            label: "Test".to_string(),
            hash_char: 'a',
            rules_count: 1,
        },
        AlertAction::ProposeWebhook {
            alert_selector: 0,
            caller_idx: 0,
            hash_char: 'b',
        },
        AlertAction::ConfirmWebhook {
            alert_selector: 0,
            caller_idx: 0,
        },
        AlertAction::RemoveAlert {
            alert_selector: 0,
            caller_idx: 0,
        },
    ];
    run_state_machine(initial_actions);
}

fn run_state_machine(actions: Vec<AlertAction>) {
    let (env, admin, client) = create_env_and_client();

    let owners = [
        Address::generate(&env),
        Address::generate(&env),
        Address::generate(&env),
        Address::generate(&env), // Extra address used for unauthorized caller testing
    ];

    let targets = [
        Address::generate(&env),
        Address::generate(&env),
        Address::generate(&env),
    ];

    let mut model_alerts: BTreeMap<u64, ModelAlert> = BTreeMap::new();
    let mut next_id: u64 = 0;
    let mut current_time: u64 = 1_000;
    env.ledger().set_timestamp(current_time);

    let select_id = |selector: usize, model: &BTreeMap<u64, ModelAlert>| -> Option<u64> {
        if model.is_empty() {
            None
        } else {
            let ids: Vec<u64> = model.keys().copied().collect();
            Some(ids[selector % ids.len()])
        }
    };

    for action in actions {
        current_time += 5;
        env.ledger().set_timestamp(current_time);

        match action {
            AlertAction::Register {
                owner_idx,
                target_idx,
                label,
                hash_char,
                rules_count,
            } => {
                let owner = &owners[owner_idx % 3];
                let target = &targets[target_idx % 3];
                let rules = valid_rules(&env, rules_count);
                let wh = make_hash64(&env, hash_char);
                let lbl = make_str(&env, &label);

                if rules.len() >= 3 {
                    // A repeated descriptor is refused and nothing is stored.
                    assert_eq!(
                        client.try_register_alert(owner, target, &lbl, &wh, &rules).unwrap_err(),
                        ContractError::DuplicateRule
                    );
                    continue;
                }

                let id = client.register_alert(owner, target, &lbl, &wh, &rules);
                assert_eq!(
                    id, next_id,
                    "Assigned ID must equal next_id monotonic counter"
                );

                model_alerts.insert(
                    id,
                    ModelAlert {
                        id,
                        owner_idx: owner_idx % 3,
                        target_idx: target_idx % 3,
                        label,
                        webhook_hash_char: hash_char,
                        pending_webhook_hash_char: None,
                        rules_count: rules_count.min(10),
                        active: true,
                        removed: false,
                        created_at: current_time,
                        updated_at: current_time,
                    },
                );
                next_id += 1;
            }

            AlertAction::UpdateAlert {
                alert_selector,
                caller_idx,
                rules_count,
                active,
            } => {
                if let Some(id) = select_id(alert_selector, &model_alerts) {
                    let caller = &owners[caller_idx % owners.len()];
                    let alert = model_alerts.get_mut(&id).unwrap();
                    let rules = valid_rules(&env, rules_count);

                    let res = client.try_update_alert(caller, &id, &rules, &active);
                    if alert.removed {
                        assert_eq!(res.unwrap_err(), ContractError::AlertNotFound);
                    } else if caller_idx % owners.len() != alert.owner_idx {
                        assert_eq!(res.unwrap_err(), ContractError::Unauthorized);
                    } else if rules.len() >= 3 {
                        assert_eq!(res.unwrap_err(), ContractError::DuplicateRule);
                    } else {
                        assert_eq!(res, Ok(()));
                        alert.rules_count = rules_count.min(10);
                        alert.active = active;
                        alert.updated_at = current_time;
                    }
                }
            }

            AlertAction::UpdateWebhook {
                alert_selector,
                caller_idx,
                hash_char,
            } => {
                if let Some(id) = select_id(alert_selector, &model_alerts) {
                    let caller = &owners[caller_idx % owners.len()];
                    let alert = model_alerts.get_mut(&id).unwrap();
                    let wh = make_hash64(&env, hash_char);

                    let res = client.try_update_webhook(caller, &id, &wh);
                    if alert.removed {
                        assert_eq!(res.unwrap_err(), ContractError::AlertNotFound);
                    } else if caller_idx % owners.len() != alert.owner_idx {
                        assert_eq!(res.unwrap_err(), ContractError::Unauthorized);
                    } else {
                        assert_eq!(res, Ok(()));
                        alert.webhook_hash_char = hash_char;
                        // A direct update discards any staged rotation.
                        alert.pending_webhook_hash_char = None;
                        alert.updated_at = current_time;
                    }
                }
            }

            AlertAction::ProposeWebhook {
                alert_selector,
                caller_idx,
                hash_char,
            } => {
                if let Some(id) = select_id(alert_selector, &model_alerts) {
                    let caller = &owners[caller_idx % owners.len()];
                    let alert = model_alerts.get_mut(&id).unwrap();
                    let wh = make_hash64(&env, hash_char);

                    let res = client.try_propose_webhook(caller, &id, &wh);
                    if alert.removed {
                        assert_eq!(res.unwrap_err(), ContractError::AlertNotFound);
                    } else if caller_idx % owners.len() != alert.owner_idx {
                        assert_eq!(res.unwrap_err(), ContractError::Unauthorized);
                    } else {
                        assert_eq!(res, Ok(()));
                        alert.pending_webhook_hash_char = Some(hash_char);
                        // Live hash and updated_at remain untouched upon propose
                    }
                }
            }

            AlertAction::ConfirmWebhook {
                alert_selector,
                caller_idx,
            } => {
                if let Some(id) = select_id(alert_selector, &model_alerts) {
                    let caller = &owners[caller_idx % owners.len()];
                    let alert = model_alerts.get_mut(&id).unwrap();

                    let res = client.try_confirm_webhook(caller, &id);
                    if alert.removed {
                        assert_eq!(res.unwrap_err(), ContractError::AlertNotFound);
                    } else if caller_idx % owners.len() != alert.owner_idx {
                        assert_eq!(res.unwrap_err(), ContractError::Unauthorized);
                    } else if alert.pending_webhook_hash_char.is_none() {
                        assert_eq!(res.unwrap_err(), ContractError::NoPendingWebhook);
                    } else {
                        assert_eq!(res, Ok(()));
                        alert.webhook_hash_char = alert.pending_webhook_hash_char.take().unwrap();
                        alert.updated_at = current_time;
                    }
                }
            }

            AlertAction::RenewTtl {
                alert_selector,
                caller_idx,
            } => {
                if let Some(id) = select_id(alert_selector, &model_alerts) {
                    let caller = &owners[caller_idx % owners.len()];
                    let alert = model_alerts.get(&id).unwrap();

                    let res = client.try_renew_alert_ttl(caller, &id);
                    if alert.removed {
                        assert_eq!(res.unwrap_err(), ContractError::AlertNotFound);
                    } else if caller_idx % owners.len() != alert.owner_idx {
                        assert_eq!(res.unwrap_err(), ContractError::Unauthorized);
                    } else {
                        assert_eq!(res, Ok(()));
                        // renewed TTL leaves all data and updated_at unchanged
                    }
                }
            }

            AlertAction::UpdateLabel {
                alert_selector,
                caller_idx,
                label,
            } => {
                if let Some(id) = select_id(alert_selector, &model_alerts) {
                    let caller = &owners[caller_idx % owners.len()];
                    let alert = model_alerts.get_mut(&id).unwrap();
                    let lbl = make_str(&env, &label);

                    let res = client.try_update_label(caller, &id, &lbl);
                    if alert.removed {
                        assert_eq!(res.unwrap_err(), ContractError::AlertNotFound);
                    } else if caller_idx % owners.len() != alert.owner_idx {
                        assert_eq!(res.unwrap_err(), ContractError::Unauthorized);
                    } else {
                        assert_eq!(res, Ok(()));
                        alert.label = label;
                        alert.updated_at = current_time;
                    }
                }
            }

            AlertAction::UpdateTargetContract {
                alert_selector,
                caller_idx,
                target_idx,
            } => {
                if let Some(id) = select_id(alert_selector, &model_alerts) {
                    let caller = &owners[caller_idx % owners.len()];
                    let alert = model_alerts.get_mut(&id).unwrap();
                    let new_target = &targets[target_idx % 3];

                    let res = client.try_update_target_contract(caller, &id, new_target);
                    if alert.removed {
                        assert_eq!(res.unwrap_err(), ContractError::AlertNotFound);
                    } else if caller_idx % owners.len() != alert.owner_idx {
                        assert_eq!(res.unwrap_err(), ContractError::Unauthorized);
                    } else {
                        assert_eq!(res, Ok(()));
                        alert.target_idx = target_idx % 3;
                        alert.updated_at = current_time;
                    }
                }
            }

            AlertAction::DeactivateAll { caller_idx } => {
                let caller = &owners[caller_idx % owners.len()];
                let deactivated_count = client.deactivate_all_alerts(caller);

                let expected_deactivated = model_alerts
                    .values_mut()
                    .filter(|a| {
                        !a.removed && a.owner_idx == (caller_idx % owners.len()) && a.active
                    })
                    .map(|a| {
                        a.active = false;
                        a.updated_at = current_time;
                    })
                    .count() as u32;

                assert_eq!(deactivated_count, expected_deactivated);
            }

            AlertAction::RemoveAlert {
                alert_selector,
                caller_idx,
            } => {
                if let Some(id) = select_id(alert_selector, &model_alerts) {
                    let caller = &owners[caller_idx % owners.len()];
                    let alert = model_alerts.get_mut(&id).unwrap();

                    let res = client.try_remove_alert(caller, &id);
                    if alert.removed {
                        assert_eq!(res.unwrap_err(), ContractError::AlertNotFound);
                    } else if caller_idx % owners.len() != alert.owner_idx {
                        assert_eq!(res.unwrap_err(), ContractError::Unauthorized);
                    } else {
                        assert_eq!(res, Ok(()));
                        alert.removed = true;
                    }
                }
            }

            AlertAction::RemoveAlertByAdmin { alert_selector } => {
                if let Some(id) = select_id(alert_selector, &model_alerts) {
                    let alert = model_alerts.get_mut(&id).unwrap();

                    let res = client.try_remove_alert_by_admin(&admin, &id);
                    if alert.removed {
                        assert_eq!(res.unwrap_err(), ContractError::AlertNotFound);
                    } else {
                        assert_eq!(res, Ok(()));
                        alert.removed = true;
                    }
                }
            }

            AlertAction::BumpAlert {
                alert_selector,
                ttl,
            } => {
                if let Some(id) = select_id(alert_selector, &model_alerts) {
                    let alert = model_alerts.get(&id).unwrap();
                    let res = client.try_bump_alert(&id, &ttl);
                    if alert.removed {
                        assert_eq!(res.unwrap_err(), ContractError::AlertNotFound);
                    } else {
                        assert_eq!(res, Ok(()));
                    }
                }
            }
        }

        // ── Check Invariants After Every Action ───────────────────────────────

        // Invariant: Total registered alerts counter is monotonic and matches next_id
        assert_eq!(client.get_alert_count(), next_id);

        for (&id, alert) in &model_alerts {
            if alert.removed {
                // Invariant: A removed alert can never be read or retrieved
                assert!(
                    client.get_alert(&owners[0], &id).is_none(),
                    "Removed alert must not exist in get_alert"
                );
                assert!(
                    client.get_alert_active(&owners[0], &id).is_none(),
                    "Removed alert must not have active flag"
                );

                // Invariant: A removed alert can never be reactivated, updated, or manipulated
                let owner = &owners[alert.owner_idx];
                let dummy_rules = valid_rules(&env, 1);
                assert_eq!(
                    client
                        .try_update_alert(owner, &id, &dummy_rules, &true)
                        .unwrap_err(),
                    ContractError::AlertNotFound,
                    "Removed alert cannot be reactivated"
                );
                assert_eq!(
                    client
                        .try_update_webhook(owner, &id, &make_hash64(&env, 'z'))
                        .unwrap_err(),
                    ContractError::AlertNotFound
                );
                assert_eq!(
                    client
                        .try_propose_webhook(owner, &id, &make_hash64(&env, 'z'))
                        .unwrap_err(),
                    ContractError::AlertNotFound
                );
                assert_eq!(
                    client.try_confirm_webhook(owner, &id).unwrap_err(),
                    ContractError::AlertNotFound
                );
                assert_eq!(
                    client.try_renew_alert_ttl(owner, &id).unwrap_err(),
                    ContractError::AlertNotFound
                );
                assert_eq!(
                    client
                        .try_update_label(owner, &id, &make_str(&env, "New"))
                        .unwrap_err(),
                    ContractError::AlertNotFound
                );
                assert_eq!(
                    client
                        .try_update_target_contract(owner, &id, &targets[0])
                        .unwrap_err(),
                    ContractError::AlertNotFound
                );
                assert_eq!(
                    client.try_remove_alert(owner, &id).unwrap_err(),
                    ContractError::AlertNotFound
                );
                assert_eq!(
                    client.try_bump_alert(&id, &1000).unwrap_err(),
                    ContractError::AlertNotFound
                );
            } else {
                // Invariant: Live alert matches expected state machine model
                let on_chain = client.get_alert(&owners[0], &id).expect("Live alert must exist");
                assert_eq!(on_chain.owner, owners[alert.owner_idx]);
                assert_eq!(on_chain.target_contract, targets[alert.target_idx]);
                assert_eq!(on_chain.label, make_str(&env, &alert.label));
                assert_eq!(
                    on_chain.webhook_hash,
                    make_hash64(&env, alert.webhook_hash_char)
                );
                assert_eq!(
                    on_chain.pending_webhook_hash,
                    alert
                        .pending_webhook_hash_char
                        .map(|c| make_hash64(&env, c))
                );
                assert_eq!(on_chain.active, alert.active);
                assert_eq!(client.get_alert_active(&owners[0], &id), Some(alert.active));
                assert_eq!(on_chain.created_at, alert.created_at);
                assert_eq!(on_chain.updated_at, alert.updated_at);
                assert!(on_chain.updated_at >= on_chain.created_at);
            }
        }

        // Invariant: Owner active count and index consistency
        for (i, owner) in owners.iter().take(3).enumerate() {
            let expected_active_count = model_alerts
                .values()
                .filter(|a| !a.removed && a.owner_idx == i)
                .count() as u32;
            assert_eq!(client.get_non_removed_alert_count(owner), expected_active_count);

            let querier = Address::generate(&env);
            let on_chain_owner_alerts = client.get_alerts_by_owner(&querier, owner);
            let live_owner_alert_ids: Vec<u64> = model_alerts
                .values()
                .filter(|a| !a.removed && a.owner_idx == i)
                .map(|a| a.id)
                .collect();
            assert_eq!(
                on_chain_owner_alerts.len(),
                live_owner_alert_ids.len()
            );
        }

        // Invariant: Contract index consistency
        for (i, target) in targets.iter().enumerate() {
            let querier = Address::generate(&env);
            let on_chain_contract_alerts = client.get_alerts_for_contract(&querier, target);
            let live_contract_alert_ids: Vec<u64> = model_alerts
                .values()
                .filter(|a| !a.removed && a.target_idx == i)
                .map(|a| a.id)
                .collect();
            assert_eq!(
                on_chain_contract_alerts.len(),
                live_contract_alert_ids.len()
            );

            let on_chain_active_alerts = client.get_active_alerts_for_contract(&owners[0], target);
            let live_active_contract_alert_ids: Vec<u64> = model_alerts
                .values()
                .filter(|a| !a.removed && a.target_idx == i && a.active)
                .map(|a| a.id)
                .collect();
            assert_eq!(
                on_chain_active_alerts.len(),
                live_active_contract_alert_ids.len()
            );
        }
    }
}


#[test]
fn proptest_alert_state_machine_sequences() {
    runner(25)
        .run(&proptest::collection::vec(action_strategy(), 1..30), |actions| {
            run_state_machine(actions);
            Ok(())
        })
        .unwrap();
}

#[test]
fn proptest_webhook_rotation_lifecycle() {
    runner(25)
        .run(&(alnum_char(), alnum_char(), alnum_char()), |(initial_char, propose1_char, propose2_char)| {
            let (env, _admin, client) = create_env_and_client();
            let owner = Address::generate(&env);
            let target = Address::generate(&env);

            let id = client.register_alert(
                &owner,
                &target,
                &make_str(&env, "Alert"),
                &make_hash64(&env, initial_char),
                &valid_rules(&env, 1),
            );

            // Before propose: pending is None, confirm returns NoPendingWebhook
            let cfg = client.get_alert(&owner, &id).unwrap();
            assert_eq!(cfg.webhook_hash, make_hash64(&env, initial_char));
            assert!(cfg.pending_webhook_hash.is_none());
            assert_eq!(client.try_confirm_webhook(&owner, &id).unwrap_err(), ContractError::NoPendingWebhook);

            // Propose 1: pending is Some(propose1), live hash is still initial
            client.propose_webhook(&owner, &id, &make_hash64(&env, propose1_char));
            let cfg1 = client.get_alert(&owner, &id).unwrap();
            assert_eq!(cfg1.webhook_hash, make_hash64(&env, initial_char));
            assert_eq!(cfg1.pending_webhook_hash, Some(make_hash64(&env, propose1_char)));

            // Propose 2: overwrites pending with propose2 without changing live hash
            client.propose_webhook(&owner, &id, &make_hash64(&env, propose2_char));
            let cfg2 = client.get_alert(&owner, &id).unwrap();
            assert_eq!(cfg2.webhook_hash, make_hash64(&env, initial_char));
            assert_eq!(cfg2.pending_webhook_hash, Some(make_hash64(&env, propose2_char)));

            // Confirm: promotes propose2 to live, clears pending
            client.confirm_webhook(&owner, &id);
            let cfg3 = client.get_alert(&owner, &id).unwrap();
            assert_eq!(cfg3.webhook_hash, make_hash64(&env, propose2_char));
            assert!(cfg3.pending_webhook_hash.is_none());

            // Subsequent confirm immediately fails with NoPendingWebhook
            assert_eq!(client.try_confirm_webhook(&owner, &id).unwrap_err(), ContractError::NoPendingWebhook);
            Ok(())
        })
        .unwrap();
}

#[test]
fn proptest_bump_alert_ttl_clamping() {
    runner(25)
        .run(&any::<u32>(), |requested_ttl| {
            let (env, _admin, client) = create_env_and_client();
            let owner = Address::generate(&env);
            let target = Address::generate(&env);

            let id = client.register_alert(
                &owner,
                &target,
                &make_str(&env, "Alert"),
                &make_hash64(&env, '0'),
                &valid_rules(&env, 1),
            );

            // bump_alert is permissionless and succeeds for any requested TTL
            let res = client.try_bump_alert(&id, &requested_ttl);
            assert_eq!(res, Ok(()));

            // Alert remains intact
            let cfg = client.get_alert(&owner, &id).unwrap();
            assert_eq!(cfg.owner, owner);
            Ok(())
        })
        .unwrap();
}

#[test]
fn proptest_pagination_bounds_and_ordering() {
    runner(25)
        .run(&(1..25usize, 0..30u32, 1..15u32), |(alert_count, offset, limit)| {
            let (env, _admin, client) = create_env_and_client();
            let owner = Address::generate(&env);
            let target = Address::generate(&env);
            let querier = Address::generate(&env);

            let mut ids = Vec::new();
            for i in 0..alert_count {
                let label = format!("Alert {i}");
                let id = client.register_alert(
                    &owner,
                    &target,
                    &make_str(&env, &label),
                    &make_hash64(&env, 'a'),
                    &valid_rules(&env, 1),
                );
                ids.push(id);
            }

            let paginated = client.get_alerts_by_owner_paginated(&querier, &owner, &offset, &limit);
            let u_offset = offset as usize;
            let u_limit = limit as usize;

            if u_offset >= ids.len() {
                assert_eq!(paginated.len(), 0);
            } else {
                let expected_len = std::cmp::min(u_limit, ids.len() - u_offset);
                assert_eq!(paginated.len(), expected_len);
                for (idx, alert) in paginated.iter().enumerate() {
                    assert_eq!(alert.label, make_str(&env, &format!("Alert {}", u_offset + idx)));
                }
            }
            Ok(())
        })
        .unwrap();
}

#[test]
fn proptest_modified_since_filtering() {
    runner(25)
        .run(&(2..15usize, 0..50u64), |(num_alerts, since_offset)| {
            let (env, _admin, client) = create_env_and_client();
            let owner = Address::generate(&env);
            let target = Address::generate(&env);

            let mut timestamps = Vec::new();
            let base_time: u64 = 10_000;

            for i in 0..num_alerts {
                let t = base_time + (i as u64) * 10;
                env.ledger().set_timestamp(t);
                client.register_alert(
                    &owner,
                    &target,
                    &make_str(&env, &format!("A{i}")),
                    &make_hash64(&env, 'x'),
                    &valid_rules(&env, 1),
                );
                timestamps.push(t);
            }

            let since = base_time + since_offset;
            let modified = client.get_alerts_modified_since(&since, &0, &u32::MAX);

            let expected_count = timestamps.iter().filter(|&&t| t >= since).count();
            assert_eq!(modified.len(), expected_count);

            for alert in modified.iter() {
                assert!(alert.updated_at >= since);
            }
            Ok(())
        })
        .unwrap();
}
