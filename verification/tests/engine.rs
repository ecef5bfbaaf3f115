use std::collections::{BTreeMap, BTreeSet};
use std::sync::mpsc;
use std::time::Duration;

use swapd::auto::{
    AutoEngine, AutoState, Decision, Quarantine, Step, TickInput, TickOutcome, MAX_SLEEP_S,
};
use swapd::auto_bar::Departure;
use swapd::auto_course::{Course, CourseStep};
use swapd::auto_rank::{binding_recovery_ts, Snapshot, Trigger};
use swapd::auto_report::{poll_event, sleep_event, unrecorded_switch, ModelGuard};
use swapd::auto_schedule::{
    baseline, plan_opts, remeasure_opts, serve_opts, snapshot, widened,
};
use swapd::auto_tick::{tried_of, Tried};
use swapd::collect::{
    has_live_login, live_for_pass, prepare, rotation_order, CollectOpts, Credential, Identity,
    SlotState, Stored,
};
use swapd::collect_view::healthy_slots;
use swapd::contract::{ProviderView, UsageStatus, Window, WindowKind};
use swapd::edits::record_slot_fingerprint;
use swapd::errors::{ErrorCode, SwapdError};
use swapd::events::{Emit, Event};
use swapd::fetch::{
    fetch_step, first_step, goes_live, DriverError, FetchEvent, FetchNext, FetchStep, Record,
};
use swapd::files::{wake_step, WakeAction, WakeEvent};
use swapd::history::{SlotRef, SwitchRecord};
use swapd::json::{member_of, Json};
use swapd::pass::{begin_pass, finish_pass, heal_adopted, record_outcome};
use swapd::refresh::{adopt, refresh_slot, Refreshed};
use swapd::settings::{from_table, section_of, Settings};
use swapd::slot_map::SlotMap;
use swapd::slots::{slot_key, ProviderSlots, Slot};
use swapd::switch::{rank, read_live_for_switch, Freshen, Strategy, SwitchResult};
use swapd::switch_flow::{SwitchEvent, SwitchFlow, SwitchNext, SwitchStep};
use swapd::switch_perform::{
    already_active, check_target, needs_renewal, preserve_outgoing, switch_record, Keep, Renewal,
};
use swapd::table::Table;
use swapd::timefmt::format_ts;
use swapd::usage_store::{Entry, UsageStore};
use swapd::verbs::check_shadow;

const P: &str = "codex";

fn m(x: f64) -> i64 {
    (x * 1e6).round() as i64
}

/// Start of every clock (2025-09-04T15:33:20Z).
const T0: i64 = 1_757_000_000_000_000;

// -- logins ------------------------------------------------------------------

fn login(email: &str, refresh: &str, expires_at: i64) -> String {
    format!(
        r#"{{"email":"{email}","claudeAiOauth":{{"refreshToken":"{refresh}","expiresAt":{}}}}}"#,
        expires_at as f64 / 1e6
    )
}

fn login_for(email: &str, token: &str) -> String {
    login_expiring(email, token, 4_102_444_800_000)
}

fn login_expiring(email: &str, token: &str, expires_at: i64) -> String {
    format!(
        r#"{{"email":"{email}","claudeAiOauth":{{"refreshToken":"{token}","expiresAt":{expires_at}}}}}"#
    )
}

fn undated(email: &str, token: &str) -> String {
    format!(r#"{{"email":"{email}","claudeAiOauth":{{"refreshToken":"{token}"}}}}"#)
}

fn anonymous_login(token: &str, expires_at: i64) -> String {
    format!(r#"{{"claudeAiOauth":{{"refreshToken":"{token}","expiresAt":{expires_at}}}}}"#)
}

fn token_of(bytes: &str) -> String {
    serde_json::from_str::<serde_json::Value>(bytes)
        .ok()
        .and_then(|v| v.pointer("/claudeAiOauth/refreshToken")?.as_str().map(str::to_string))
        .unwrap_or_else(|| bytes.to_string())
}

fn fingerprint(bytes: &str) -> String {
    format!("sha256:{}", token_of(bytes))
}

fn credential(bytes: &str) -> Credential {
    let value = serde_json::from_str::<serde_json::Value>(bytes).ok();
    let email = value.as_ref().and_then(|v| v.get("email")?.as_str().map(str::to_string));
    let text = bytes.trim();
    Credential {
        bytes: bytes.to_string(),
        fingerprint: fingerprint(bytes),
        identity: email.map(|email| Identity {
            email,
            organization_uuid: String::new(),
            organization_name: String::new(),
            plan: None,
        }),
        expires_at: value
            .as_ref()
            .and_then(|v| v.pointer("/claudeAiOauth/expiresAt")?.as_f64())
            .map(m),
        api_key: text.starts_with("sk-ant-api") && !text.starts_with('{'),
    }
}

/// Whether the live login is provably an older generation than the stored one.
fn older(live: &Credential, stored: &Credential) -> bool {
    matches!((live.expires_at, stored.expires_at), (Some(a), Some(b)) if a < b)
}

// -- the provider ------------------------------------------------------------

/// What the token endpoint does.
enum Renews {
    /// Rejects the listed tokens, and keeps the others.
    Unless(Vec<String>),
    /// Fails.
    Transiently,
    /// Rotates the token.
    Rotates,
}

/// A provider in memory.
struct Driver {
    live: Option<String>,
    usage: BTreeMap<String, Vec<Window>>,
    /// The tokens whose access still works, where that matters.
    usable: Option<BTreeSet<String>>,
    renews: Renews,
    writes: Vec<String>,
    renewals: Vec<String>,
    usage_calls: Vec<String>,
    live_reads: usize,
    /// Put into the live store the moment a login is renewed.
    switch_during_refresh: Option<String>,
    fail_first_write: bool,
}

impl Driver {
    fn new(live: &str) -> Driver {
        Driver {
            live: Some(live.to_string()),
            usage: BTreeMap::new(),
            usable: None,
            renews: Renews::Unless(Vec::new()),
            writes: Vec::new(),
            renewals: Vec::new(),
            usage_calls: Vec::new(),
            live_reads: 0,
            switch_during_refresh: None,
            fail_first_write: false,
        }
    }
    fn read_live(&self) -> Result<Credential, DriverError> {
        match &self.live {
            Some(bytes) => Ok(credential(bytes)),
            None => Err(DriverError::NoLogin),
        }
    }
    fn write_live(&mut self, bytes: &str) -> Result<(), DriverError> {
        self.writes.push(bytes.to_string());
        if self.fail_first_write && self.writes.len() == 1 {
            return Err(DriverError::Invalid("write refused".to_string()));
        }
        self.live = Some(bytes.to_string());
        Ok(())
    }
    fn renew(&mut self, bytes: &str) -> Result<Credential, DriverError> {
        self.renewals.push(bytes.to_string());
        if let Some(landed) = self.switch_during_refresh.take() {
            self.live = Some(landed);
        }
        match &self.renews {
            Renews::Unless(dead) if dead.contains(&token_of(bytes)) => Err(DriverError::TokenDead),
            Renews::Unless(_) => Ok(credential(bytes)),
            Renews::Transiently => Err(DriverError::Http("refresh: http-503".to_string())),
            Renews::Rotates => {
                let next = bytes.replace("rt-", "rt-next-");
                if let Some(usable) = &mut self.usable {
                    usable.insert(token_of(&next));
                }
                Ok(credential(&next))
            }
        }
    }
    fn usage(&mut self, login: &Credential) -> Result<Vec<Window>, DriverError> {
        if let Some(usable) = &self.usable {
            if !usable.contains(&token_of(&login.bytes)) {
                return Err(DriverError::NeedsRefresh);
            }
            return Ok(Vec::new());
        }
        let email = login.identity.as_ref().map(|i| i.email.clone()).unwrap_or_default();
        self.usage_calls.push(email.clone());
        match self.usage.get(&email) {
            Some(windows) => Ok(windows.clone()),
            None => Err(DriverError::Http("usage: http-500".to_string())),
        }
    }
}

// -- the board ---------------------------------------------------------------

/// What a pass goes by, read once.
struct Prepared {
    stored: Vec<Stored>,
    order: Vec<u32>,
    live: Option<Credential>,
    unreadable: Option<String>,
}

/// Accounts, tables and a clock in memory.
struct Board {
    now: i64,
    driver: Driver,
    slots: ProviderSlots,
    secrets: BTreeMap<String, String>,
    secret_gets: Vec<String>,
    store: UsageStore,
    state: AutoState,
    raw: Table<Json>,
    history: Vec<SwitchRecord>,
    events: Vec<Emit>,
    /// Another process holds the lock of the live store.
    fenced: bool,
    /// Another process is renewing.
    renewing: bool,
    state_unwritable: bool,
    slots_unwritable: bool,
    shadow: bool,
    guard: ModelGuard,
}

impl Board {
    fn empty(driver: Driver) -> Board {
        Board {
            now: T0,
            driver,
            slots: ProviderSlots::new(),
            secrets: BTreeMap::new(),
            secret_gets: Vec::new(),
            store: UsageStore { rows: Table::new() },
            state: AutoState::new(),
            raw: Table::new(),
            history: Vec::new(),
            events: Vec::new(),
            fenced: false,
            renewing: false,
            state_unwritable: false,
            slots_unwritable: false,
            shadow: false,
            guard: ModelGuard::new(),
        }
    }

    /// Two accounts, slot 1 live, both with usable logins.
    fn new() -> Board {
        let mut board = Board::empty(Driver::new(&login("one@example.com", "rt-1", T0 + m(86_400.0))));
        board.seed(1, "one@example.com", "rt-1", T0 + m(86_400.0));
        board.seed(2, "two@example.com", "rt-2", T0 + m(86_400.0));
        board
    }

    /// One slot that holds a token, recorded as the active one, with a provider that
    /// renews.
    fn one_slot(driver: Driver, stored: &str) -> Board {
        let mut board = Board::empty(driver);
        board.driver.renews = Renews::Rotates;
        if board.driver.usable.is_none() {
            board.driver.usable = Some(BTreeSet::new());
        }
        board.secrets.insert(slot_key(P, 1), stored.to_string());
        board.slots.insert(1, row("one@example.com"));
        board.slots.active_slot = Some(1);
        board
    }

    /// Two slots with undated logins.
    fn two_slots(live: &str) -> Board {
        let mut board = Board::empty(Driver::new(live));
        for (n, email, token) in [(1, "one@example.com", "rt-1"), (2, "two@example.com", "rt-2")] {
            board.secrets.insert(slot_key(P, n), undated(email, token));
            board.slots.insert(n, row(email));
        }
        board
    }

    fn seed(&mut self, slot: u32, email: &str, refresh: &str, expires_at: i64) {
        self.secrets.insert(slot_key(P, slot), login(email, refresh, expires_at));
        self.slots.insert(slot, row(email));
    }

    fn seed_api_key(&mut self, slot: u32, email: &str) {
        self.seed(slot, email, "rt", T0);
        self.secrets.insert(slot_key(P, slot), "sk-ant-api03-managed".to_string());
    }

    fn advance(&mut self, seconds: f64) {
        self.now += m(seconds);
    }

    fn usage(&mut self, email: &str, pct: f64, in_s: f64) {
        let windows = usage_at(pct, self.now, in_s);
        self.driver.usage.insert(email.to_string(), windows);
    }

    fn set(&mut self, key: &str, value: Json) {
        swapd::settings::set(&mut self.raw, P, key, value).unwrap();
    }

    fn settings(&self) -> Settings {
        match section_of(&self.raw, P) {
            Some(section) => from_table(section),
            None => Settings::default(),
        }
    }

    fn emit(&mut self, event: Event) {
        let ts = format_ts(self.now).unwrap_or_default();
        self.events.push(Emit { ts, provider: P.to_string(), event });
    }

    fn get_secret(&mut self, slot: u32) -> Option<String> {
        self.secret_gets.push(slot_key(P, slot));
        self.secrets.get(&slot_key(P, slot)).cloned()
    }

    /// Stores a login in its slot, and stamps the slot with it.
    fn persist(&mut self, slot: u32, login: &Credential) {
        self.secrets.insert(slot_key(P, slot), login.bytes.clone());
        record_slot_fingerprint(&mut self.slots, slot, Some(login.fingerprint.clone()));
    }

    fn stored(&mut self, slot: u32, live: &Option<Credential>) -> Stored {
        let login = self.get_secret(slot).map(|bytes| credential(&bytes));
        let live_is_older = match (live, &login) {
            (Some(live), Some(stored)) => older(live, stored),
            _ => false,
        };
        Stored { login, live_is_older }
    }

    // -- a pass --------------------------------------------------------------

    /// Reads what a pass goes by, and adopts a newer live login.
    fn prepare(&mut self) -> Prepared {
        let read = if self.fenced {
            Err(DriverError::NoLogin)
        } else {
            self.driver.live_reads += 1;
            self.driver.read_live()
        };
        let (live, unreadable) = live_for_pass(self.fenced, read).unwrap();
        let order = rotation_order(&self.slots);
        let stored = order.iter().map(|n| self.stored(*n, &live)).collect();
        let mut prepared = Prepared { stored, order, live, unreadable };
        let states = self.states(&prepared);
        for (i, st) in states.iter().enumerate() {
            if st.adopt {
                let login = st.login.as_ref().unwrap();
                self.persist(st.slot, login);
                prepared.stored[i] = Stored { login: Some(login.clone()), live_is_older: false };
            }
        }
        heal_adopted(&mut self.store, &states);
        prepared
    }

    fn states(&self, prepared: &Prepared) -> Vec<SlotState> {
        let fenced = match prepared.unreadable {
            Some(_) => self.slots.active_slot,
            None => None,
        };
        prepare(&self.slots, P, &prepared.order, &prepared.stored, &prepared.live, fenced)
    }

    /// A pass over what was prepared: the view, and the claims that were won.
    fn execute(&mut self, prepared: &mut Prepared, opts: &CollectOpts) -> (ProviderView, Table<String>) {
        let settings = self.settings();
        let mut states = self.states(prepared);
        let started =
            begin_pass(&mut states, &mut self.store, opts, &settings.models, self.now, 4711);
        let mut marks: Vec<Option<UsageStatus>> = Vec::new();
        for i in 0..states.len() {
            let claim = match started.won.get(&states[i].key) {
                Some(claim) => claim.clone(),
                None => {
                    marks.push(None);
                    continue;
                }
            };
            let (record, mark, windows, login) = self.fetch_one(&states[i]);
            record_outcome(
                &mut self.store,
                &states[i],
                &claim,
                record,
                windows,
                settings.threshold,
                &settings.models,
                self.now,
                500_000,
            );
            marks.push(mark);
            prepared.stored[i] = self.stored(states[i].slot, &None);
            if states[i].active {
                prepared.live = Some(login);
            }
        }
        let view = finish_pass(
            &mut states,
            &marks,
            &self.store,
            &started.keys,
            P,
            false,
            prepared.unreadable.clone(),
            self.slots.active_slot,
            &settings.models,
            settings.threshold,
            self.now,
        );
        (view, started.won)
    }

    fn collect(&mut self, opts: &CollectOpts) -> ProviderView {
        let mut prepared = self.prepare();
        self.execute(&mut prepared, opts).0
    }

    fn fetch_one(
        &mut self,
        st: &SlotState,
    ) -> (Record, Option<UsageStatus>, Vec<Window>, Credential) {
        let mut used = st.login.clone().unwrap();
        let mut next: Option<Credential> = None;
        let mut windows = Vec::new();
        let mut step = first_step(st.heal_live, self.shadow);
        loop {
            let event = match step {
                FetchStep::Heal => {
                    FetchEvent::Written(self.driver.write_live(&used.bytes).is_ok())
                }
                FetchStep::Ask | FetchStep::AskAgain => match self.driver.usage(&used) {
                    Ok(measured) => {
                        windows = measured;
                        FetchEvent::Measured
                    }
                    Err(e) => FetchEvent::Failed(e),
                },
                FetchStep::Renew => match self.refresh(st.slot, &used) {
                    Refreshed::Rotated(login) | Refreshed::Adopted(login) => {
                        next = Some(login);
                        FetchEvent::Renewed
                    }
                    Refreshed::Failed(DriverError::TokenDead) => FetchEvent::RenewDead,
                    Refreshed::Failed(DriverError::Locked(_)) => FetchEvent::RenewContended,
                    Refreshed::Failed(_) => FetchEvent::RenewFailed,
                },
                FetchStep::Persist => {
                    let login = next.take().unwrap();
                    let live = self.driver.read_live().ok();
                    let written = if goes_live(st.active, &live, &used) {
                        self.driver.write_live(&login.bytes).is_ok()
                    } else {
                        true
                    };
                    used = login;
                    FetchEvent::Written(written)
                }
            };
            match fetch_step(step, &event, st.active, false, self.shadow) {
                FetchNext::Go(s) => step = s,
                FetchNext::Done(record, mark) => return (record, mark, windows, used),
            }
        }
    }

    /// Renews a login, unless another generation is stored already.
    fn refresh(&mut self, slot: u32, login: &Credential) -> Refreshed {
        if self.renewing {
            return Refreshed::Failed(DriverError::Locked("held".to_string()));
        }
        let stored = self.stored(slot, &None);
        if let Some(successor) = adopt(&stored, login) {
            return Refreshed::Adopted(successor);
        }
        let renewed = self.driver.renew(&login.bytes);
        let outcome = refresh_slot(&stored, login, renewed);
        if let Refreshed::Rotated(login) = &outcome {
            let login = login.clone();
            self.persist(slot, &login);
        }
        outcome
    }

    // -- a switch ------------------------------------------------------------

    fn perform(
        &mut self,
        target: u32,
        trigger: &str,
        freshen: Freshen,
    ) -> Result<SwitchResult, SwapdError> {
        let bytes = self.get_secret(target);
        let refused = match &bytes {
            Some(b) if credential(b).api_key => Some("api key login".to_string()),
            _ => None,
        };
        let to = check_target(&self.slots, P, target, &bytes, &refused)?;
        let mut login = credential(&bytes.unwrap());
        let live = read_live_for_switch(self.driver.read_live()).map_err(fault)?;
        if let Some(result) = already_active(&self.slots, &live, target, &to) {
            return Ok(result);
        }
        let stale = needs_renewal(&login, self.now, freshen);
        let mut flow = SwitchFlow::new(target, to, freshen, stale);
        let mut live: Option<Credential> = None;
        let mut error: Option<SwapdError> = None;
        loop {
            let event = match flow.step {
                SwitchStep::Renew => SwitchEvent::Renewal(match self.refresh(target, &login) {
                    Refreshed::Rotated(next) | Refreshed::Adopted(next) => {
                        login = next;
                        Renewal::Renewed
                    }
                    Refreshed::Failed(DriverError::TokenDead) => Renewal::Dead,
                    Refreshed::Failed(e) => Renewal::Failed(format!("{e:?}")),
                }),
                SwitchStep::Preserve => {
                    live = read_live_for_switch(self.driver.read_live()).map_err(fault)?;
                    let kept = match &live {
                        None => None,
                        Some(l) => {
                            let slot = swapd::switch::match_slot(&self.slots, l);
                            let stored = slot.and_then(|n| self.secrets.get(&slot_key(P, n)).cloned());
                            let newer = stored.as_ref().is_some_and(|s| older(l, &credential(s)));
                            let out =
                                preserve_outgoing(&self.slots, P, l, &stored, newer, self.now);
                            match &out.keep {
                                Keep::Stash(key) => {
                                    self.secrets.insert(key.clone(), l.bytes.clone());
                                }
                                Keep::Store(n) => {
                                    let l = l.clone();
                                    self.persist(*n, &l);
                                    self.store.clear_dead(&slot_key(P, *n));
                                }
                                Keep::Superseded(_) | Keep::AlreadyStored(_) => {}
                            }
                            Some(out)
                        }
                    };
                    SwitchEvent::Kept(kept)
                }
                SwitchStep::Write => match self.driver.write_live(&login.bytes) {
                    Ok(()) => SwitchEvent::Done,
                    Err(e) => {
                        let why = format!("{e:?}");
                        error = Some(fault(e));
                        SwitchEvent::Failed(why)
                    }
                },
                SwitchStep::Restore => {
                    match self.driver.write_live(&live.as_ref().unwrap().bytes) {
                        Ok(()) => SwitchEvent::Done,
                        Err(e) => SwitchEvent::Failed(format!("{e:?}")),
                    }
                }
                SwitchStep::Record => {
                    if self.slots_unwritable {
                        SwitchEvent::Failed("held".to_string())
                    } else {
                        self.slots.active_slot = Some(target);
                        SwitchEvent::Done
                    }
                }
                SwitchStep::Log => {
                    self.history.push(switch_record(&flow.from, &flow.to, trigger, self.now));
                    SwitchEvent::Done
                }
            };
            match flow.advance(event) {
                SwitchNext::Go(f) => flow = f,
                SwitchNext::Landed(result) => return Ok(result),
                SwitchNext::Failed(e) => return Err(e),
                SwitchNext::Stopped => return Err(error.unwrap()),
            }
        }
    }

    // -- a tick --------------------------------------------------------------

    fn entries(&self, view: &ProviderView) -> Table<Entry> {
        let keys = view
            .accounts
            .iter()
            .map(|a| (slot_key(P, a.slot), a.email.clone(), a.organization_uuid.clone()))
            .collect();
        self.store.entries(&keys, &self.settings().models, self.now)
    }

    fn snapshot(&self, view: &ProviderView) -> Snapshot {
        snapshot(P, &view.accounts, &self.entries(view), &self.settings().models, self.now)
    }

    fn collect_scheduled(
        &mut self,
        engine: &AutoEngine,
        quarantined: &Vec<u32>,
    ) -> (ProviderView, Snapshot) {
        let settings = self.settings();
        let idle = engine.idle_hold_since.is_some();
        let mut prepared = self.prepare();
        let mut view = self.execute(&mut prepared, &serve_opts()).0;
        let entries = self.entries(&view);
        let mut first =
            match baseline(P, &view, &entries, quarantined, &settings, idle, self.now) {
                Some(first) => first,
                None => {
                    let snap = self.snapshot(&view);
                    return (view, snap);
                }
            };
        if let Some(opts) = plan_opts(std::mem::take(&mut first.plan)) {
            view = self.execute(&mut prepared, &opts).0;
        }
        let mut snap = self.snapshot(&view);
        let entries = self.entries(&view);
        let wider =
            widened(P, &first, &view, &entries, &snap, settings.threshold, self.now);
        if let Some(opts) = wider.and_then(plan_opts) {
            view = self.execute(&mut prepared, &opts).0;
            snap = self.snapshot(&view);
        }
        (view, snap)
    }

    fn release_recovered(&mut self) {
        let stored: Vec<Option<String>> = (0..self.state.quarantine.items.len())
            .map(|i| {
                let slot = self.state.quarantine.items[i].0.parse::<u32>().ok()?;
                self.get_secret(slot).map(|b| fingerprint(&b))
            })
            .collect();
        let released = self.state.replaced(&stored);
        if released.is_empty() {
            return;
        }
        self.state.release(&released);
        for slot in released {
            let email = self.slots.slots.get(slot).map(|s| s.email.clone()).unwrap_or_default();
            self.emit(Event::Unquarantined {
                account: SlotRef::numbered(slot, email),
                reason: "credentials-replaced".to_string(),
            });
        }
    }

    fn tick_with(&mut self, engine: &mut AutoEngine) -> TickOutcome {
        let settings = self.settings();
        self.release_recovered();
        let quarantined = self.state.quarantined();
        let (mut view, mut snap) = self.collect_scheduled(engine, &quarantined);
        let poll =
            poll_event(view.active_slot, &view.accounts, &snap, settings.threshold, &settings.models);
        self.emit(poll);
        self.guard.arm(&settings.models);
        if view.active_slot.is_some() {
            let warning = self.guard.look(&view.accounts, &snap, &quarantined, &settings.models);
            if let Some(warning) = warning {
                self.emit(warning);
            }
        }
        let mut decision = engine.decide(&TickInput {
            view: &view,
            snap: &snap,
            settings: &settings,
            state: &self.state,
            quarantined: &quarantined,
            has_live_login: self.driver.live.is_some(),
            now: self.now,
        });
        let mut course = Course::new();
        loop {
            if let Some((event, outcome)) = course.take(&decision) {
                self.emit(event);
                return outcome;
            }
            let trigger = match decision.step {
                Step::Try(trigger) => trigger,
                _ => unreachable!(),
            };
            let pick = loop {
                match course.next(&snap) {
                    CourseStep::End(event, outcome) => {
                        self.emit(event);
                        return outcome;
                    }
                    CourseStep::Remeasure(slot) => break slot,
                    CourseStep::Switch(target) => {
                        let came = self.try_target(trigger, target, decision.left);
                        if let Some(outcome) = course.tried(came) {
                            return outcome;
                        }
                    }
                }
            };
            let mut prepared = self.prepare();
            let (again, won) = self.execute(&mut prepared, &remeasure_opts(pick));
            course.measured_again(won.contains_key(&slot_key(P, pick)));
            view = again;
            snap = self.snapshot(&view);
            let input = TickInput {
                view: &view,
                snap: &snap,
                settings: &settings,
                state: &self.state,
                quarantined: &quarantined,
                has_live_login: has_live_login(&prepared.live),
                now: self.now,
            };
            decision = match view.active_slot {
                Some(current) => engine.consider(&input, trigger, current),
                None => engine.decide(&input),
            };
        }
    }

    fn try_target(
        &mut self,
        trigger: Trigger,
        target: u32,
        left: (Option<i64>, Option<i64>),
    ) -> Tried {
        let came = match self.perform(target, trigger.name(), Freshen::auto()) {
            Ok(result) if result.switched => {
                let mut warnings = result.warnings;
                if self.state_unwritable {
                    warnings.push(unrecorded_switch("held"));
                } else {
                    let cooldown = self.settings().cooldown_seconds;
                    self.state.record_switch(
                        target,
                        result.from.as_ref(),
                        trigger,
                        left,
                        cooldown,
                        self.now,
                    );
                }
                self.emit(Event::Switch {
                    trigger: trigger.name().to_string(),
                    from: result.from,
                    to: result.to,
                    warnings,
                });
                Tried::Switched
            }
            Ok(_) => Tried::AlreadyActive,
            Err(e) => tried_of(e.code, e.message),
        };
        if let Tried::TokenDead = came {
            let fp = self.get_secret(target).map(|b| fingerprint(&b));
            let email = self.slots.slots.get(target).unwrap().email.clone();
            self.state.quarantine(target, "invalid_grant".to_string(), fp, self.now);
            self.emit(Event::Quarantined {
                account: SlotRef::numbered(target, email),
                reason: "invalid_grant".to_string(),
            });
        }
        came
    }

    fn tick(&mut self) -> TickOutcome {
        self.tick_with(&mut AutoEngine::new())
    }

    fn tick_and_schedule(&mut self) -> (TickOutcome, i64) {
        let mut engine = AutoEngine::new();
        let outcome = self.tick_with(&mut engine);
        let interval = self.settings().interval_seconds;
        let delay = engine.schedule(outcome, interval, self.now, 500_000);
        self.emit(sleep_event(delay, self.now));
        (outcome, delay)
    }

    // -- looking -------------------------------------------------------------

    fn kinds(&self) -> Vec<&'static str> {
        self.events.iter().map(|e| e.event.kind()).collect()
    }

    fn count(&self, kind: &str) -> usize {
        self.kinds().iter().filter(|k| **k == kind).count()
    }

    /// The last event of a kind.
    fn last(&self, kind: &str) -> Option<Table<Json>> {
        let emit = self.events.iter().rev().find(|e| e.event.kind() == kind)?;
        let mut object = Table::new();
        for (key, value) in emit.to_json() {
            object.insert(key, value);
        }
        Some(object)
    }

    fn said(&self, kind: &str, path: &str) -> String {
        text_at(&self.last(kind).unwrap_or_else(|| panic!("no {kind}: {:?}", self.kinds())), path)
    }

    fn live_email(&self) -> String {
        self.driver.read_live().unwrap().identity.unwrap().email
    }

    fn took(&mut self) -> Vec<String> {
        std::mem::take(&mut self.driver.usage_calls)
    }
}

/// A value below an object, as text.
fn text_at(object: &Table<Json>, path: &str) -> String {
    let (head, rest) = match path.split_once('/') {
        Some((head, rest)) => (head, Some(rest)),
        None => (path, None),
    };
    match (member_of(object, head), rest) {
        (Some(Json::Object(inner)), Some(rest)) => text_at(inner, rest),
        (Some(Json::Str(s)), None) => s.clone(),
        (Some(Json::Int(n)), None) => n.to_string(),
        (Some(Json::Micro(n)), None) => format!("{:?}", *n as f64 / 1e6),
        (Some(Json::Bool(b)), None) => b.to_string(),
        (Some(Json::Null), None) => "null".to_string(),
        (Some(Json::List(items)), None) => format!("{items:?}"),
        (None, _) => "absent".to_string(),
        _ => panic!("{path}"),
    }
}

fn fault(e: DriverError) -> SwapdError {
    let code = match e {
        DriverError::Invalid(_) => ErrorCode::InvalidInput,
        _ => ErrorCode::Io,
    };
    SwapdError { code, message: format!("{e:?}") }
}

fn row(email: &str) -> Slot {
    Slot {
        email: email.to_string(),
        organization_uuid: String::new(),
        organization_name: String::new(),
        plan: None,
        alias: None,
        icon: None,
        disabled: false,
        preferred: false,
        auto_ignite: false,
        added: None,
        fingerprint: None,
    }
}

fn usage_at(pct: f64, now: i64, in_s: f64) -> Vec<Window> {
    vec![
        window(WindowKind::FiveHour, pct, now + m(in_s)),
        window(WindowKind::SevenDay, pct / 2.0, now + m(in_s * 10.0)),
    ]
}

fn window(kind: WindowKind, pct: f64, resets_at: i64) -> Window {
    Window {
        kind,
        name: None,
        pct: m(pct),
        resets_at: format_ts(resets_at),
        pace: None,
        used: None,
        limit: None,
        currency: None,
    }
}

// -- the loop ----------------------------------------------------------------

#[test]
fn queued_wakes_collapse_into_one_tick() {
    let (wake, rx) = mpsc::channel::<()>();
    for _ in 0..4 {
        wake.send(()).unwrap();
    }
    let mut event = match rx.recv_timeout(Duration::from_secs(0)) {
        Ok(()) => WakeEvent::Woken,
        Err(mpsc::RecvTimeoutError::Timeout) => WakeEvent::TimedOut,
        Err(mpsc::RecvTimeoutError::Disconnected) => WakeEvent::Gone,
    };
    assert_eq!(event, WakeEvent::Woken);
    while wake_step(event) == WakeAction::Drain {
        event = match rx.try_recv() {
            Ok(()) => WakeEvent::Woken,
            Err(_) => WakeEvent::Empty,
        };
    }
    assert_eq!(wake_step(event), WakeAction::Tick);
    assert!(matches!(rx.try_recv(), Err(mpsc::TryRecvError::Empty)));
    assert_eq!(wake_step(WakeEvent::TimedOut), WakeAction::Tick);
    assert_eq!(wake_step(WakeEvent::Gone), WakeAction::Stop);
}

#[test]
fn below_threshold_polls_and_no_switch() {
    let mut board = Board::new();
    board.usage("one@example.com", 50.0, 3600.0);
    board.usage("two@example.com", 10.0, 3600.0);
    assert_eq!(board.tick(), TickOutcome::NoAction);

    assert_eq!(board.kinds(), vec!["poll", "no-switch"]);
    for (path, expected) in [
        ("active/number", "1"),
        ("active/slot", "1"),
        ("provider", P),
        ("schemaVersion", "1"),
        ("headroomPct/1", "50.0"),
        ("headroomPct/2", "90.0"),
        ("threshold", "90.0"),
        ("windows/1/5h", "50.0"),
        ("windows/1/7d", "25.0"),
    ] {
        assert_eq!(board.said("poll", path), expected, "{path}");
    }
    assert_eq!(board.said("no-switch", "reason"), "below-threshold");
    assert!(board.driver.writes.is_empty());
    assert_eq!(format!("{:?}", board.state), format!("{:?}", AutoState::new()));
}

#[test]
fn a_quiet_tick_fetches_the_active_account_and_one_candidate() {
    let mut board = Board::new();
    for slot in 3..=5 {
        let email = format!("slot{slot}@example.com");
        board.seed(slot, &email, &format!("rt-{slot}"), T0 + m(86_400.0));
        board.usage(&email, 10.0, 3600.0);
    }
    board.usage("one@example.com", 50.0, 3600.0);
    board.usage("two@example.com", 10.0, 3600.0);
    assert_eq!(board.tick(), TickOutcome::NoAction);
    let fetched = board.took();
    assert_eq!(fetched.len(), 2, "{fetched:?}");
    assert!(fetched.contains(&"one@example.com".to_string()), "{fetched:?}");
    let first = fetched.iter().find(|email| *email != "one@example.com").cloned().unwrap();

    board.advance(60.0);
    assert_eq!(board.tick(), TickOutcome::NoAction);
    let second = board.took();
    assert_eq!(second.len(), 1, "{second:?}");
    assert_ne!(second[0], "one@example.com", "the active account is not due");
    assert_ne!(second[0], first, "the candidate poll rotates: {second:?} after {fetched:?}");
}

#[test]
fn at_threshold_switches_to_ranked_candidate() {
    let mut board = Board::new();
    board.seed(3, "three@example.com", "rt-3", T0 + m(86_400.0));
    board.usage("one@example.com", 95.0, 3600.0);
    board.usage("two@example.com", 10.0, 3600.0);
    board.usage("three@example.com", 60.0, 3600.0);
    assert_eq!(board.tick(), TickOutcome::Switched);

    for (path, expected) in [
        ("trigger", "proactive"),
        ("from/number", "1"),
        ("to/number", "2"),
        ("to/email", "two@example.com"),
        ("dryRun", "false"),
    ] {
        assert_eq!(board.said("switch", path), expected, "{path}");
    }
    assert_eq!(board.live_email(), "two@example.com");
    assert_eq!(board.state.schema_version, 1);
    assert_eq!(board.state.cooldown_until, Some(T0 + m(300.0)));
    let departure = board.state.left_at_limit.as_ref().unwrap();
    assert_eq!((departure.from, departure.to), (1, 2));
    assert_eq!(departure.trigger, "proactive");
    assert_eq!(departure.headroom, Some(m(5.0)));
    assert_eq!(board.history.len(), 1);
    assert_eq!(board.history[0].trigger, "proactive");
    assert_eq!(board.history[0].to.slot, Some(2));
}

#[test]
fn a_landed_switch_is_reported_when_its_bookkeeping_fails() {
    let mut board = Board::new();
    board.usage("one@example.com", 95.0, 3600.0);
    board.usage("two@example.com", 10.0, 3600.0);
    board.state_unwritable = true;
    assert_eq!(board.tick(), TickOutcome::Switched);
    assert_eq!(board.said("switch", "to/number"), "2");
    assert_eq!(board.live_email(), "two@example.com");
    assert!(board.said("switch", "warnings").contains("were not recorded"));
    assert!(board.last("error").is_none());
}

#[test]
fn cooldown_blocks_proactive_switch() {
    let mut board = Board::new();
    board.usage("one@example.com", 95.0, 3600.0);
    board.usage("two@example.com", 10.0, 3600.0);
    board.state.schema_version = 1;
    board.state.cooldown_until = Some(T0 + m(300.0));
    assert_eq!(board.tick(), TickOutcome::NoAction);
    assert_eq!(board.said("no-switch", "reason"), "cooldown");
    assert!(board.driver.writes.is_empty());
    assert_eq!(board.live_email(), "one@example.com");

    board.advance(301.0);
    assert_eq!(board.tick(), TickOutcome::Switched);
    assert_eq!(board.live_email(), "two@example.com");
}

#[test]
fn dead_target_is_quarantined_and_skipped() {
    let mut board = Board::new();
    board.seed(3, "three@example.com", "rt-3", T0 + m(86_400.0));
    board.seed(2, "two@example.com", "rt-2", T0 - m(60.0));
    board.driver.renews = Renews::Unless(vec!["rt-2".to_string()]);
    board.usage("one@example.com", 95.0, 3600.0);
    board.usage("two@example.com", 10.0, 3600.0);
    board.usage("three@example.com", 60.0, 3600.0);
    assert_eq!(board.tick(), TickOutcome::Switched);

    for (path, expected) in [
        ("number", "2"),
        ("slot", "2"),
        ("email", "two@example.com"),
        ("reason", "invalid_grant"),
    ] {
        assert_eq!(board.said("account-quarantined", path), expected, "{path}");
    }
    assert_eq!(board.said("switch", "to/number"), "3");
    assert_eq!(board.live_email(), "three@example.com");
    let entry = board.state.quarantine.get("2").unwrap();
    assert_eq!(entry.reason, "invalid_grant");
    assert_eq!(
        entry.fingerprint,
        Some(fingerprint(&login("two@example.com", "rt-2", T0 - m(60.0))))
    );

    board.advance(400.0);
    board.usage("three@example.com", 95.0, 3600.0);
    board.usage("two@example.com", 0.0, 3600.0);
    board.usage("one@example.com", 10.0, 3600.0);
    assert_eq!(board.tick(), TickOutcome::Switched);
    assert_eq!(board.live_email(), "one@example.com");
    assert_eq!(board.count("account-quarantined"), 1);
    assert!(board.state.quarantine.contains_key("2"));
}

#[test]
fn a_replaced_credential_releases_the_quarantine() {
    let mut board = Board::new();
    board.state.schema_version = 1;
    board.state.quarantine.insert(
        "2".to_string(),
        Quarantine {
            reason: "invalid_grant".to_string(),
            since: format_ts(T0).unwrap(),
            fingerprint: Some("sha256:stale".to_string()),
        },
    );
    board.usage("one@example.com", 50.0, 3600.0);
    board.usage("two@example.com", 10.0, 3600.0);
    assert_eq!(board.tick(), TickOutcome::NoAction);
    assert_eq!(board.said("account-unquarantined", "number"), "2");
    assert_eq!(board.said("account-unquarantined", "reason"), "credentials-replaced");
    assert!(board.state.quarantine.items.is_empty());
}

#[test]
fn all_exhausted_emits_earliest_reset() {
    let mut board = Board::new();
    let full = |in_s: f64| vec![window(WindowKind::FiveHour, 100.0, T0 + m(in_s))];
    board.driver.usage.insert("one@example.com".to_string(), full(7200.0));
    board.driver.usage.insert("two@example.com".to_string(), full(3600.0));
    let (outcome, delay) = board.tick_and_schedule();
    assert_eq!(outcome, TickOutcome::Blocked);
    assert_eq!(
        board.said("all-exhausted", "earliestResetAt"),
        format_ts(T0 + m(3600.0)).unwrap()
    );
    assert!(board.driver.writes.is_empty());
    assert_eq!(delay, MAX_SLEEP_S);
    assert_eq!(board.said("sleep", "seconds"), format!("{:?}", MAX_SLEEP_S as f64 / 1e6));
    assert_eq!(board.said("sleep", "until"), format_ts(T0 + MAX_SLEEP_S).unwrap());
}

#[test]
fn an_unmanaged_or_absent_live_login_is_reported_not_acted_on() {
    let mut board = Board::new();
    board.driver.live = Some(login("stranger@example.com", "rt-x", T0 + m(86_400.0)));
    assert_eq!(board.tick(), TickOutcome::NoAction);
    assert_eq!(board.said("poll", "active"), "null");
    assert_eq!(board.said("no-switch", "reason"), "unmanaged-active-account");
    assert!(board.said("no-switch", "detail").contains("swapd add"));
    assert!(board.took().is_empty());

    board.driver.live = None;
    board.advance(60.0);
    assert_eq!(board.tick(), TickOutcome::NoAction);
    assert_eq!(board.said("no-switch", "reason"), "no-active-account");
}

#[test]
fn a_switch_in_flight_is_reported_as_switch_in_progress() {
    let mut board = Board::new();
    board.slots.active_slot = Some(1);
    board.fenced = true;
    assert_eq!(board.tick(), TickOutcome::NoAction);
    assert_eq!(board.said("no-switch", "reason"), "switch-in-progress");
    assert!(board.driver.writes.is_empty());
    assert!(board.took().is_empty());
}

#[test]
fn an_empty_ranking_says_which_kind_of_empty_it_is() {
    let mut board = Board::new();
    board.usage("one@example.com", 95.0, 3600.0);
    let (outcome, delay) = board.tick_and_schedule();
    assert_eq!(outcome, TickOutcome::Blocked);
    assert_eq!(board.said("no-switch", "reason"), "no-comparison");
    assert_eq!(delay, m(60.0));

    let mut board = Board::new();
    board.set("hysteresisPct", Json::Micro(m(20.0)));
    board.usage("one@example.com", 95.0, 3600.0);
    board.usage("two@example.com", 85.0, 3600.0);
    assert_eq!(board.tick(), TickOutcome::Blocked);
    assert_eq!(board.said("no-switch", "reason"), "no-qualifying-candidate");
    assert!(board.last("all-exhausted").is_none());
}

#[test]
fn an_api_key_slot_never_takes_the_one_candidate_poll() {
    let mut board = Board::new();
    board.seed_api_key(3, "keyed@example.com");
    board.usage("one@example.com", 50.0, 3600.0);
    board.usage("two@example.com", 10.0, 3600.0);
    assert_eq!(board.tick(), TickOutcome::NoAction);
    board.took();
    board.advance(400.0);
    assert_eq!(board.tick(), TickOutcome::NoAction);
    let fetched = board.took();
    assert!(fetched.contains(&"two@example.com".to_string()), "{fetched:?}");
}

#[test]
fn an_api_key_peer_never_hides_all_exhausted() {
    let mut board = Board::new();
    board.seed_api_key(3, "keyed@example.com");
    for email in ["one@example.com", "two@example.com"] {
        board.driver.usage.insert(
            email.to_string(),
            vec![window(WindowKind::FiveHour, 100.0, T0 + m(3600.0))],
        );
    }
    assert_eq!(board.tick(), TickOutcome::Blocked);
    assert_eq!(
        board.said("all-exhausted", "earliestResetAt"),
        format_ts(T0 + m(3600.0)).unwrap()
    );
    assert!(board.last("no-switch").is_none(), "{:?}", board.kinds());
}

#[test]
fn an_api_key_slot_alone_is_no_candidates_until_it_is_opted_in() {
    let mut board = Board::new();
    board.seed_api_key(2, "keyed@example.com");
    board.usage("one@example.com", 95.0, 3600.0);
    assert_eq!(board.tick(), TickOutcome::Blocked);
    assert_eq!(board.said("no-switch", "reason"), "no-candidates");

    board.set("includeApiKeyAccounts", Json::Bool(true));
    board.advance(400.0);
    board.usage("one@example.com", 95.0, 3600.0);
    assert_eq!(board.tick(), TickOutcome::Blocked);
    assert_eq!(board.said("no-switch", "reason"), "unsupported");
    assert!(board.said("no-switch", "detail").contains("slots 2"));
}

#[test]
fn with_everything_above_the_threshold_the_soonest_back_wins() {
    let mut board = Board::new();
    board.seed(3, "three@example.com", "rt-3", T0 + m(86_400.0));
    board.usage("one@example.com", 96.0, 4.0 * 3600.0);
    board.usage("two@example.com", 95.0, 1800.0);
    board.usage("three@example.com", 91.0, 3.0 * 3600.0);
    assert_eq!(board.tick(), TickOutcome::Switched);
    assert_eq!(board.said("switch", "to/number"), "2");
}

#[test]
fn a_spent_active_falls_back_to_the_only_thing_left() {
    let mut board = Board::new();
    board.usage("one@example.com", 97.0, 6.0 * 3600.0);
    board.usage("two@example.com", 95.0, 5.0 * 3600.0);
    assert_eq!(board.tick(), TickOutcome::Switched);
    assert_eq!(board.said("switch", "to/number"), "2");
}

#[test]
fn consume_first_holds_on_unknown_resets_later_resets_and_stale_usage() {
    let mut board = Board::new();
    board.set("strategy", Json::Str("consume-first".to_string()));
    let mut weekly = window(WindowKind::SevenDay, 25.0, T0);
    weekly.resets_at = None;
    board.driver.usage.insert(
        "one@example.com".to_string(),
        vec![window(WindowKind::FiveHour, 50.0, T0 + m(3600.0)), weekly],
    );
    board.usage("two@example.com", 10.0, 3600.0);
    assert_eq!(board.tick(), TickOutcome::NoAction);
    assert_eq!(board.said("no-switch", "reason"), "reset-unknown");

    board.advance(400.0);
    board.usage("one@example.com", 50.0, 3600.0);
    board.usage("two@example.com", 10.0, 7200.0);
    assert_eq!(board.tick(), TickOutcome::NoAction);
    assert_eq!(board.said("no-switch", "reason"), "already-consuming-soonest");
    assert_eq!(board.live_email(), "one@example.com");
}

#[test]
fn consume_first_refetches_a_stale_pick_before_it_commits() {
    let mut board = stale_consume_first_pick();
    assert_eq!(board.took().len(), 0);
    assert_eq!(board.tick(), TickOutcome::Switched, "{:?}", board.kinds());
    let refetched = board.took();
    assert!(refetched.contains(&"two@example.com".to_string()), "{refetched:?}");
    assert_eq!(board.live_email(), "two@example.com");
    assert_eq!(board.said("switch", "trigger"), "consume-first");
}

#[test]
fn consume_first_holds_when_the_refetch_fails() {
    let mut board = stale_consume_first_pick();
    board.driver.usage.remove("two@example.com");
    assert_eq!(board.tick(), TickOutcome::NoAction, "{:?}", board.kinds());
    let calls = board.took();
    assert_eq!(calls.iter().filter(|e| *e == "one@example.com").count(), 1, "{calls:?}");
    assert_eq!(board.said("no-switch", "reason"), "stale-usage");
    assert!(board.said("no-switch", "detail").contains("the fetch failed"));
    assert_eq!(board.live_email(), "one@example.com");
}

/// A board whose next tick moves to slot 2 to consume first, but that slot 2's
/// measurement is old and not due.
fn stale_consume_first_pick() -> Board {
    let mut board = Board::new();
    board.usage("one@example.com", 50.0, 7200.0);
    board.usage("two@example.com", 10.0, 3600.0);
    assert_eq!(board.tick(), TickOutcome::NoAction);
    board.advance(400.0);
    assert_eq!(board.tick(), TickOutcome::NoAction);
    board.advance(400.0);
    board.usage("one@example.com", 50.0, 7200.0);
    board.usage("two@example.com", 10.0, 3600.0);
    board.set("strategy", Json::Str("consume-first".to_string()));
    board.took();
    board
}

#[test]
fn an_expired_active_token_idle_holds_instead_of_failing_over() {
    let mut board = Board::new();
    board.usage("one@example.com", 50.0, 3600.0);
    board.usage("two@example.com", 10.0, 3600.0);
    assert_eq!(board.tick(), TickOutcome::NoAction);

    board.driver.live = Some(login("one@example.com", "rt-1", T0 - m(1.0)));
    board.advance(10.0);
    let (outcome, delay) = board.tick_and_schedule();
    assert_eq!(outcome, TickOutcome::NoAction);
    assert_eq!(board.said("no-switch", "reason"), "active-idle", "{:?}", board.kinds());
    assert_eq!(delay, m(300.0));
    assert!(board.last("switch").is_none());
}

#[test]
fn a_tie_between_windows_binds_on_the_first_one() {
    let tied = vec![
        window(WindowKind::FiveHour, 100.0, T0 + m(3600.0)),
        window(WindowKind::SevenDay, 100.0, T0 + m(86_400.0)),
    ];
    assert_eq!(binding_recovery_ts(&tied, &Vec::new(), T0), Some(T0 + m(3600.0)));
}

#[test]
fn disabled_keeps_polling_and_never_switches() {
    let mut board = Board::new();
    board.set("enabled", Json::Bool(false));
    board.usage("one@example.com", 99.0, 3600.0);
    board.usage("two@example.com", 10.0, 3600.0);
    assert_eq!(board.tick(), TickOutcome::NoAction);
    assert_eq!(board.kinds(), vec!["poll", "no-switch"]);
    assert_eq!(board.said("no-switch", "reason"), "disabled");
    assert!(board.driver.writes.is_empty());
}

#[test]
fn a_threshold_change_takes_effect_without_a_restart() {
    let mut board = Board::new();
    board.usage("one@example.com", 80.0, 3600.0);
    board.usage("two@example.com", 10.0, 3600.0);
    let mut engine = AutoEngine::new();
    assert_eq!(board.tick_with(&mut engine), TickOutcome::NoAction);
    assert_eq!(board.said("no-switch", "reason"), "below-threshold");

    board.set("threshold", Json::Micro(m(75.0)));
    board.advance(400.0);
    assert_eq!(board.tick_with(&mut engine), TickOutcome::Switched);
    assert_eq!(board.said("poll", "threshold"), "75.0");
    assert_eq!(board.live_email(), "two@example.com");
}

#[test]
fn an_unreadable_active_account_fails_over_after_unhealthy_ticks() {
    let mut board = Board::new();
    board.set("unhealthyTicks", Json::Int(2));
    board.usage("two@example.com", 10.0, 3600.0);
    let mut engine = AutoEngine::new();
    assert_eq!(board.tick_with(&mut engine), TickOutcome::NoAction);
    assert_eq!(board.said("no-switch", "reason"), "active-usage-unknown");
    assert_eq!(board.said("no-switch", "detail"), "1/2 before failover");
    assert_eq!(board.said("poll", "fetchErrors/1"), "http-500");

    board.advance(400.0);
    assert_eq!(board.tick_with(&mut engine), TickOutcome::Switched);
    assert_eq!(board.said("switch", "trigger"), "failover");
    assert_eq!(board.live_email(), "two@example.com");
}

#[test]
fn the_account_just_left_is_not_taken_straight_back() {
    let mut board = leaving_slot_one();
    board.state.schema_version = 1;
    board.state.left_at_limit = Some(Departure {
        from: 1,
        to: 2,
        trigger: "proactive".to_string(),
        headroom: Some(m(23.0)),
        recovery_at: Some(T0 + m(3600.0)),
    });
    assert_eq!(board.tick(), TickOutcome::Switched);
    assert_eq!(board.said("switch", "to/number"), "3");

    let mut board = leaving_slot_one();
    assert_eq!(board.tick(), TickOutcome::Switched);
    assert_eq!(board.said("switch", "to/number"), "1");
}

/// Slot 2 live at the threshold, slot 1 and slot 3 with more headroom.
fn leaving_slot_one() -> Board {
    let mut board = Board::new();
    board.seed(3, "three@example.com", "rt-3", T0 + m(86_400.0));
    board.driver.live = Some(login("two@example.com", "rt-2", T0 + m(86_400.0)));
    board.usage("two@example.com", 90.0, 3600.0);
    board.usage("one@example.com", 77.0, 3600.0);
    board.usage("three@example.com", 80.0, 3600.0);
    board
}

#[test]
fn one_tick_prepares_once() {
    let mut board = Board::new();
    board.seed(3, "three@example.com", "rt-3", T0 + m(86_400.0));
    board.seed(4, "four@example.com", "rt-4", T0 + m(86_400.0));
    board.usage("one@example.com", 80.0, 3600.0);
    for email in ["two@example.com", "three@example.com", "four@example.com"] {
        board.usage(email, 10.0, 3600.0);
    }
    board.driver.live_reads = 0;
    board.secret_gets.clear();
    assert_eq!(board.tick(), TickOutcome::NoAction, "{:?}", board.kinds());
    assert_eq!(board.took().len(), 4);
    assert_eq!(board.driver.live_reads, 1);
    for slot in 1..=4 {
        let key = slot_key(P, slot);
        assert_eq!(board.secret_gets.iter().filter(|k| **k == key).count(), 2, "slot {slot}");
    }
    assert_eq!(board.secret_gets.len(), 8);
}

#[test]
fn a_switch_tick_re_prepares() {
    let mut board = stale_consume_first_pick();
    board.driver.live_reads = 0;
    assert_eq!(board.tick(), TickOutcome::Switched, "{:?}", board.kinds());
    assert_eq!(board.driver.live_reads, 2);
    assert_eq!(board.live_email(), "two@example.com");
}

// -- a pass ------------------------------------------------------------------

fn usable(driver: Driver, tokens: &[&str]) -> Driver {
    let mut driver = driver;
    driver.usable = Some(tokens.iter().map(|t| t.to_string()).collect());
    driver
}

#[test]
fn a_switch_landing_during_the_refresh_is_not_reverted() {
    let stored = login_for("one@example.com", "rt-1");
    let mut board = Board::one_slot(Driver::new(&stored), &stored);
    let landed = login_for("two@example.com", "rt-2");
    board.driver.switch_during_refresh = Some(landed.clone());
    board.collect(&CollectOpts::default());
    assert_eq!(board.driver.renewals.len(), 1);
    assert!(board.driver.writes.is_empty());
    assert_eq!(board.driver.live, Some(landed));
    assert_eq!(board.secrets[&slot_key(P, 1)], login_for("one@example.com", "rt-next-1"));
}

#[test]
fn a_refresh_of_the_active_slot_lands_in_the_live_store() {
    let stored = login_for("one@example.com", "rt-1");
    let mut board = Board::one_slot(Driver::new(&stored), &stored);
    board.collect(&CollectOpts::default());
    let refreshed = login_for("one@example.com", "rt-next-1");
    assert_eq!(board.driver.writes, vec![refreshed.clone()]);
    assert_eq!(board.driver.live, Some(refreshed));
}

#[test]
fn a_torn_live_login_is_not_adopted_while_a_switch_holds_the_lock() {
    let torn = login_for("one@example.com", "rt-2");
    let stored = login_for("one@example.com", "rt-1");
    let mut board = Board::one_slot(usable(Driver::new(&torn), &["rt-1", "rt-2"]), &stored);
    board.fenced = true;
    let view = board.collect(&CollectOpts::default());
    assert_eq!(board.secrets[&slot_key(P, 1)], stored);
    assert_eq!(view.active_slot, None);
    assert_eq!(view.accounts[0].usage_status, UsageStatus::Stale);
    assert!(board.driver.renewals.is_empty());
}

#[test]
fn active_unreadable_reports_switch_in_progress_and_is_absent_on_a_normal_pass() {
    let stored = login_for("one@example.com", "rt-1");
    let mut board = Board::one_slot(usable(Driver::new(&stored), &["rt-1"]), &stored);
    board.fenced = true;
    let view = board.collect(&CollectOpts::default());
    assert_eq!(view.active_unreadable.as_deref(), Some("switch-in-progress"));
    assert_eq!(view.last_known_active_slot, Some(1));
    board.fenced = false;
    let view = board.collect(&CollectOpts::default());
    assert_eq!(view.active_unreadable, None);
    assert_eq!(view.last_known_active_slot, None);
}

#[test]
fn a_heal_then_a_refresh_leaves_the_successor_live() {
    let stored = login_expiring("one@example.com", "rt-1", 2_000_000_000_000);
    let live = login_expiring("one@example.com", "rt-0", 1_000_000_000_000);
    let mut board = Board::one_slot(Driver::new(&live), &stored);
    board.collect(&CollectOpts::default());
    let refreshed = stored.replace("rt-", "rt-next-");
    assert_eq!(board.driver.writes, vec![stored, refreshed.clone()]);
    assert_eq!(board.driver.live, Some(refreshed));
}

#[test]
fn a_fingerprint_matched_active_slot_still_gets_its_live_login_updated() {
    let login = anonymous_login("rt-1", 4_102_444_800_000);
    let mut board = Board::one_slot(Driver::new(&login), &login);
    board.slots.active_slot = None;
    let view = board.collect(&CollectOpts::default());
    assert_eq!(view.active_slot, Some(1), "matched by fingerprint");
    let refreshed = anonymous_login("rt-next-1", 4_102_444_800_000);
    assert_eq!(board.driver.writes, vec![refreshed.clone()]);
    assert_eq!(board.driver.live, Some(refreshed));
}

#[test]
fn a_contended_refresh_lock_is_stale_not_a_strike() {
    let stored = login_for("one@example.com", "rt-1");
    let mut board = Board::one_slot(Driver::new(&stored), &stored);
    board.renewing = true;
    let view = board.collect(&CollectOpts::default());
    assert!(board.driver.renewals.is_empty());
    assert_eq!(view.accounts[0].usage_status, UsageStatus::Stale);
    let row = board.store.rows.get("codex:1").unwrap();
    assert_eq!(row.consecutive_failures, 0);
    assert!(row.last_error.is_none());
    assert!(row.backoff_until.is_none());
    assert!(row.claim_until.is_none());
}

fn forced() -> CollectOpts {
    CollectOpts { force_slots: vec![1], ..CollectOpts::default() }
}

#[test]
fn a_second_execute_uses_the_successor_token() {
    let stored = login_for("one@example.com", "rt-1");
    let mut board = Board::one_slot(Driver::new(&stored), &stored);
    let mut prepared = board.prepare();
    let (view, _) = board.execute(&mut prepared, &forced());
    assert_eq!(view.accounts[0].usage_status, UsageStatus::Okay);
    assert_eq!(board.secrets[&slot_key(P, 1)], login_for("one@example.com", "rt-next-1"));

    board.driver.usable.as_mut().unwrap().remove("rt-next-1");
    let (view, _) = board.execute(&mut prepared, &forced());
    assert_eq!(board.driver.renewals.len(), 2);
    assert_eq!(board.driver.renewals[1], login_for("one@example.com", "rt-next-1"));
    let last = login_for("one@example.com", "rt-next-next-1");
    assert_eq!(board.secrets[&slot_key(P, 1)], last);
    assert_eq!(view.accounts[0].usage_status, UsageStatus::Okay);
    assert_eq!(board.driver.live, Some(last));
}

#[test]
fn pass_marks_do_not_leak_between_executes() {
    let expired = login_expiring("one@example.com", "rt-1", 1_000_000);
    let mut board = Board::one_slot(Driver::new(&expired), &expired);
    let mut prepared = board.prepare();
    let nothing = CollectOpts { only: Some(Vec::new()), ..CollectOpts::default() };
    let (view, _) = board.execute(&mut prepared, &nothing);
    assert_eq!(view.accounts[0].usage_status, UsageStatus::TokenExpired);
    let (view, _) = board.execute(&mut prepared, &forced());
    assert_eq!(board.driver.renewals.len(), 1);
    assert_eq!(view.accounts[0].usage_status, UsageStatus::Okay);
}

#[test]
fn two_refreshers_of_one_slot_spend_one_token() {
    let stored = login_for("one@example.com", "rt-1");
    let mut board = Board::one_slot(Driver::new(&stored), &stored);
    let login = credential(&stored);
    let outcomes = vec![board.refresh(1, &login), board.refresh(1, &login)];
    assert_eq!(board.driver.renewals.len(), 1);
    let successor = login_for("one@example.com", "rt-next-1");
    for outcome in outcomes {
        match outcome {
            Refreshed::Rotated(login) | Refreshed::Adopted(login) => {
                assert_eq!(login.bytes, successor)
            }
            Refreshed::Failed(e) => panic!("neither may fail: {e:?}"),
        }
    }
    assert_eq!(board.secrets[&slot_key(P, 1)], successor);
}

// -- a switch ----------------------------------------------------------------

#[test]
fn switch_restores_live_on_write_failure() {
    let live = undated("one@example.com", "rt-1");
    let mut board = Board::two_slots(&live);
    board.driver.fail_first_write = true;
    let e = board.perform(2, "manual", Freshen::on_demand()).unwrap_err();
    assert_eq!(e.code, ErrorCode::InvalidInput);
    assert_eq!(board.driver.writes.len(), 2);
    assert!(board.driver.writes[0].contains("rt-2"));
    assert_eq!(board.driver.writes[1], live);
    assert_eq!(board.driver.live, Some(live));
    assert!(board.history.is_empty());
    assert_eq!(board.slots.active_slot, None);
}

#[test]
fn a_switch_lands_the_target_and_records_the_landing() {
    let mut board = Board::two_slots(&undated("one@example.com", "rt-rotated"));
    let result = board.perform(2, "manual", Freshen::on_demand()).unwrap();
    assert!(result.switched);
    assert_eq!(result.from.as_ref().unwrap().slot, Some(1));
    assert_eq!(result.to.slot, Some(2));
    assert!(result.warnings.is_empty());
    assert_eq!(board.secrets[&slot_key(P, 1)], undated("one@example.com", "rt-rotated"));
    assert_eq!(board.slots.active_slot, Some(2));
    assert_eq!(board.history.len(), 1);
}

#[test]
fn the_backup_never_overwrites_a_newer_stored_generation() {
    let live = login("one@example.com", "rt-spent", m(2_000_000_000.0));
    let stored = login("one@example.com", "rt-successor", m(2_100_000_000.0));
    let mut board = Board::two_slots(&live);
    let stamp = fingerprint(&stored);
    board.persist(1, &credential(&stored));
    let result = board.perform(2, "manual", Freshen::on_demand()).unwrap();
    assert!(result.switched);
    assert_eq!(result.from.as_ref().unwrap().slot, Some(1));
    assert_eq!(board.secrets[&slot_key(P, 1)], stored);
    assert!(result.warnings.iter().any(|w| w.contains("newer generation")));
    assert_eq!(board.slots.slots.get(1).unwrap().fingerprint, Some(stamp));
}

#[test]
fn switching_to_a_managed_key_slot_is_refused_before_any_side_effect() {
    let live = undated("one@example.com", "rt-1");
    let mut board = Board::two_slots(&live);
    board.secrets.insert(slot_key(P, 2), "sk-ant-api03-managed".to_string());
    let e = board.perform(2, "manual", Freshen::on_demand()).unwrap_err();
    assert_eq!(e.code, ErrorCode::Unsupported);
    assert!(board.driver.writes.is_empty());
    assert_eq!(board.secrets[&slot_key(P, 1)], live);
    assert_eq!(board.slots.active_slot, None);
}

#[test]
fn a_landed_switch_reports_an_unrecorded_active_slot_as_a_warning() {
    let mut board = Board::two_slots(&undated("one@example.com", "rt-1"));
    board.slots_unwritable = true;
    let result = board.perform(2, "manual", Freshen::on_demand()).unwrap();
    assert!(result.switched);
    assert_eq!(board.driver.live, Some(undated("two@example.com", "rt-2")));
    assert!(result.warnings.iter().any(|w| w.contains("stays stale") && w.contains("swapd add")));
    assert_eq!(board.history.len(), 1);
}

#[test]
fn the_auto_engine_freshens_a_target_that_expires_within_the_buffer() {
    let soon = login("two@example.com", "rt-2", T0 + m(240.0));
    let mut board = Board::two_slots(&undated("one@example.com", "rt-1"));
    board.secrets.insert(slot_key(P, 2), soon.clone());
    board.driver.renews = Renews::Rotates;
    let result = board.perform(2, "auto", Freshen::auto()).unwrap();
    assert!(result.switched);
    assert_eq!(board.driver.renewals.len(), 1);
    let stored = board.secrets[&slot_key(P, 2)].clone();
    assert!(stored.contains("rt-next-2"), "{stored}");
    assert_eq!(board.driver.live, Some(stored));

    let mut board = Board::two_slots(&undated("one@example.com", "rt-1"));
    board.secrets.insert(slot_key(P, 2), soon);
    board.driver.renews = Renews::Rotates;
    assert!(board.perform(2, "manual", Freshen::on_demand()).unwrap().switched);
    assert!(board.driver.renewals.is_empty());
}

#[test]
fn a_required_freshen_that_fails_transiently_refuses_the_switch() {
    let soon = login("two@example.com", "rt-2", T0 + m(240.0));
    let mut board = Board::two_slots(&undated("one@example.com", "rt-1"));
    board.secrets.insert(slot_key(P, 2), soon.clone());
    board.driver.renews = Renews::Transiently;
    let e = board.perform(2, "auto", Freshen::auto()).unwrap_err();
    assert_eq!(e.code, ErrorCode::RefreshDenied);
    assert!(e.message.contains("expires within 10 minutes"), "{}", e.message);
    assert!(board.driver.writes.is_empty());
    assert_eq!(board.secrets[&slot_key(P, 2)], soon);

    let expired = login("two@example.com", "rt-2", T0 - m(1.0));
    board.secrets.insert(slot_key(P, 2), expired);
    let result = board.perform(2, "manual", Freshen::on_demand()).unwrap();
    assert!(result.switched);
    assert!(result.warnings.iter().any(|w| w.contains("could not be refreshed")));
}

#[test]
fn switching_to_the_live_account_is_a_no_op() {
    let mut board = Board::two_slots(&undated("two@example.com", "rt-2"));
    let result = board.perform(2, "manual", Freshen::on_demand()).unwrap();
    assert!(!result.switched);
    assert_eq!(result.reason.as_deref(), Some("already-active"));
    assert!(board.driver.writes.is_empty());
}

#[test]
fn a_stranger_s_login_is_stashed_before_it_is_overwritten() {
    let stranger = undated("stranger@example.com", "rt-x");
    let mut board = Board::two_slots(&stranger);
    let result = board.perform(2, "manual", Freshen::on_demand()).unwrap();
    assert_eq!(result.from.as_ref().unwrap().slot, None);
    assert_eq!(result.from.as_ref().unwrap().email, "stranger@example.com");
    assert_eq!(board.secrets["codex:unclaimed-1757000000-rt-x"], stranger);
    assert!(result.warnings[0].contains("codex:unclaimed-1757000000-rt-x"));
}

#[test]
fn a_rotation_is_ranked_by_its_strategy() {
    let mut board = Board::new();
    board.seed(3, "three@example.com", "rt-3", T0 + m(86_400.0));
    board.usage("one@example.com", 50.0, 3600.0);
    board.usage("two@example.com", 60.0, 3600.0);
    board.usage("three@example.com", 20.0, 7200.0);
    let view = board.collect(&CollectOpts { all_stale: true, ..CollectOpts::default() });
    let settings = board.settings();
    let entries = board.entries(&view);
    let healthy =
        healthy_slots(P, &view.accounts, &entries, &settings.models, settings.threshold);
    assert_eq!(healthy, vec![1, 2, 3]);
    let by = |strategy: Strategy, preferred: &Vec<String>| {
        rank(&view.accounts, &healthy, strategy, preferred, &settings.models)
    };
    let none = Vec::new();
    assert_eq!(by(Strategy::Best, &none), vec![3, 2]);
    assert_eq!(by(Strategy::ConsumeFirst, &none), vec![2, 3]);
    assert_eq!(by(Strategy::NextAvailable, &none), vec![2, 3]);
    assert_eq!(view.next_candidate, Some(2));
    assert_eq!(by(Strategy::Best, &vec!["TWO@example.com".to_string()]), vec![2, 3]);
}

#[test]
fn events_read_as_lines() {
    let mut board = Board::new();
    board.set("model", Json::Str("Fabel".to_string()));
    board.usage("one@example.com", 95.0, 3600.0);
    board.usage("two@example.com", 10.0, 3600.0);
    board.tick_and_schedule();
    let kinds = board.kinds();
    assert_eq!(kinds, vec!["poll", "config-warning", "switch", "sleep"]);
    for emit in &board.events {
        assert!(!emit.human().is_empty());
    }
    assert!(board.said("config-warning", "message").starts_with("model: Fabel matches no account"));
}

#[test]
fn in_shadow_no_token_is_spent_and_nothing_is_written_live() {
    let stored = login_expiring("one@example.com", "rt-1", 2_000_000_000_000);
    let live = login_expiring("one@example.com", "rt-0", 1_000_000_000_000);
    let mut board = Board::one_slot(Driver::new(&live), &stored);
    board.shadow = true;
    let view = board.collect(&CollectOpts::default());
    assert_eq!(view.accounts[0].usage_status, UsageStatus::TokenExpired);
    assert!(board.driver.renewals.is_empty());
    assert!(board.driver.writes.is_empty());
    assert!(check_shadow("list", true).is_ok());
    assert!(check_shadow("rotate", false).is_ok());
    assert_eq!(
        check_shadow("rotate", true).unwrap_err().message,
        "'rotate' is refused while SWAPD_SHADOW is set"
    );
}

#[test]
fn a_move_by_choice_settles() {
    let mut board = Board::new();
    board.set("cooldownSeconds", Json::Int(0));
    board.usage("one@example.com", 95.0, 3600.0);
    board.usage("two@example.com", 80.0, 3600.0);
    assert_eq!(board.tick(), TickOutcome::Switched);
    board.advance(1.0);
    assert_eq!(board.tick(), TickOutcome::NoAction, "{:?}", board.kinds());
    assert_eq!(board.said("no-switch", "reason"), "below-threshold");
    assert_eq!(board.live_email(), "two@example.com");
}

#[test]
fn a_target_that_was_quarantined_is_let_back_by_a_new_login() {
    let mut board = Board::new();
    board.seed(2, "two@example.com", "rt-2", T0 - m(60.0));
    board.driver.renews = Renews::Unless(vec!["rt-2".to_string()]);
    board.usage("one@example.com", 95.0, 3600.0);
    board.usage("two@example.com", 10.0, 3600.0);
    assert_eq!(board.tick(), TickOutcome::Blocked);
    assert_eq!(board.said("no-switch", "reason"), "no-viable-target");
    board.advance(1.0);
    assert_eq!(board.tick(), TickOutcome::Blocked);
    assert_eq!(board.said("no-switch", "reason"), "no-candidates");
    board.secrets.insert(slot_key(P, 2), login("two@example.com", "rt-new", T0 + m(86_400.0)));
    board.advance(1.0);
    assert_eq!(board.tick(), TickOutcome::Switched, "{:?}", board.kinds());
    assert_eq!(board.live_email(), "two@example.com");
}

#[test]
fn two_slots_with_one_login_are_not_both_active() {
    let login = anonymous_login("rt-1", 4_102_444_800_000);
    let mut board = Board::one_slot(usable(Driver::new(&login), &["rt-1"]), &login);
    board.secrets.insert(slot_key(P, 2), login);
    board.slots.insert(2, row("two@example.com"));
    let view = board.collect(&CollectOpts::default());
    assert_eq!(view.active_slot, Some(1));
    assert!(!view.accounts[1].active);
}

#[test]
fn a_slot_that_the_order_forgets_is_still_collected() {
    let mut slots = ProviderSlots::new();
    for n in [1, 2, 3] {
        slots.insert(n, row("x@example.com"));
    }
    slots.order = vec![3, 9];
    assert_eq!(rotation_order(&slots), vec![3, 1, 2]);
}

#[test]
fn an_account_that_was_left_spent_is_not_gone_back_to() {
    let left = |now: i64| Departure {
        from: 1,
        to: 2,
        trigger: "at-limit".to_string(),
        headroom: Some(0),
        recovery_at: Some(now + m(3600.0)),
    };
    // The endpoint still shows room on slot 1, which was refused a moment ago.
    let board = || {
        let mut board = Board::new();
        board.driver.live = Some(login("two@example.com", "rt-2", T0 + m(86_400.0)));
        board.usage("two@example.com", 100.0, 7200.0);
        board.usage("one@example.com", 20.0, 3600.0);
        board
    };
    let mut barred = board();
    barred.state.left_at_limit = Some(left(T0));
    assert_eq!(barred.tick(), TickOutcome::Blocked, "{:?}", barred.kinds());
    assert!(barred.last("switch").is_none());
    let mut free = board();
    assert_eq!(free.tick(), TickOutcome::Switched);
    assert_eq!(free.said("switch", "trigger"), "at-limit");
    assert_eq!(free.said("switch", "to/number"), "1");
}

#[test]
fn a_preferred_account_comes_first_among_those_that_qualify() {
    let board = |preferred: bool, pct: f64| {
        let mut board = Board::new();
        board.seed(3, "three@example.com", "rt-3", T0 + m(86_400.0));
        if preferred {
            board.set("preferred", Json::Str("three@example.com".to_string()));
        }
        board.usage("one@example.com", 95.0, 3600.0);
        board.usage("two@example.com", 10.0, 3600.0);
        board.usage("three@example.com", pct, 3600.0);
        assert_eq!(board.tick(), TickOutcome::Switched);
        board.said("switch", "to/number")
    };
    assert_eq!(board(false, 60.0), "2");
    assert_eq!(board(true, 60.0), "3");
    // Preference alone admits nothing.
    assert_eq!(board(true, 93.0), "2");
}

#[test]
fn a_misspelt_model_is_warned_of_once_for_each_value() {
    let mut board = Board::new();
    board.set("model", Json::Str("Fabel".to_string()));
    board.usage("one@example.com", 80.0, 3600.0);
    board.usage("two@example.com", 10.0, 3600.0);
    board.tick();
    board.tick();
    assert_eq!(board.count("config-warning"), 1);
    board.set("model", Json::Str("Opsu".to_string()));
    board.tick();
    board.tick();
    assert_eq!(board.count("config-warning"), 2);
}

#[test]
fn an_unreadable_live_store_says_why() {
    let why = |e: DriverError| live_for_pass(false, Err(e)).unwrap();
    assert_eq!(why(DriverError::KeychainUnavailable).1.as_deref(), Some("keychain-unavailable"));
    assert_eq!(why(DriverError::Locked("x".to_string())).1.as_deref(), Some("cli-busy"));
    assert_eq!(why(DriverError::NoLogin).1, None);
    assert!(live_for_pass(false, Err(DriverError::Io("x".to_string()))).is_err());
    assert!(!has_live_login(&Some(credential("  "))));
    assert!(has_live_login(&Some(credential("{}"))));
    assert!(!has_live_login(&None));
}

#[test]
fn a_pick_is_measured_again_once() {
    let stale = Snapshot { readings: SlotMap::new() };
    let decision = Decision {
        step: Step::Try(Trigger::ConsumeFirst),
        oauth: vec![2],
        api_keys: Vec::new(),
        preferred: Vec::new(),
        ordered: vec![2],
        left: (None, None),
    };
    let mut course = Course::new();
    assert!(course.take(&decision).is_none());
    assert!(matches!(course.next(&stale), CourseStep::Remeasure(2)));
    course.measured_again(true);
    assert!(course.take(&decision).is_none());
    assert!(matches!(course.next(&stale), CourseStep::End(_, TickOutcome::NoAction)));
}
