//! The ban engine: what to do about an offense, and about bans that end.
//!
//! The engine decides; its surroundings hold the store, the firewall and the alerts. A decision
//! that needs an answer from them is given as a step, and the answer is handed to the function
//! that continues from there.

use crate::action::{
    action_models, notify, notify_model, push_action, Action, ActionModel, NewIpOffense,
    NewOffenseModel, OffenseMetadata,
};
use crate::address::{dotted_address, Ipv4Addr};
use crate::alert::{
    ban_alert, ban_alert_model, ban_message, clone_opt, describe_ban_until, OffenseModel,
};
use crate::budget::{budget_step, drop_expired, WINDOW_SECS};
use crate::clock::{
    as_signed, rfc3339_text, secs_in_range, to_rfc3339, to_signed, utc_now, Timestamp,
};
use crate::config::{any_range_has, can_search, IpBanConfig};
use crate::ident::{is_v4_text, new_v4};
use crate::text::chars_of;
use std::collections::VecDeque;
use vstd::prelude::*;

pub use crate::alert::OffenseInput;

verus! {

pub struct IpBanEngine {
    config: IpBanConfig,
    /// Times of recent blocks, for the per-minute ceiling.
    recent_blocks: VecDeque<Timestamp>,
}

/// Where the handling of an offense stands.
#[derive(Debug)]
pub enum RecordStep {
    /// The address is never banned, and the offense is not recorded.
    Allowlisted,
    /// Look for an active block of the address, then go on with `after_block_lookup`.
    FindActiveBlock(String),
    /// The address is blocked already, and the offense is not recorded.
    AlreadyBlocked,
    /// Record the offense and count those of its kind by the address since the given time, then
    /// go on with `after_count`.
    RecordOccurrence { offense: NewIpOffense, since: Timestamp },
    /// There are too few offenses yet.
    BelowThreshold,
    /// There are enough offenses, but too many bans within the last minute.
    CeilingReached,
    /// The address is to be banned.
    Perform(Vec<Action>),
    /// A time that has to be computed lies out of range. What precedes it is still to be done, and
    /// a failure there comes first.
    TimeOverflow(Vec<Action>),
}

/// The texts of a `RecordStep`.
pub enum RecordStepModel {
    Allowlisted,
    FindActiveBlock(Seq<char>),
    AlreadyBlocked,
    RecordOccurrence { offense: NewOffenseModel, since: Timestamp },
    BelowThreshold,
    CeilingReached,
    Perform(Seq<ActionModel>),
    TimeOverflow(Seq<ActionModel>),
}

impl View for RecordStep {
    type V = RecordStepModel;

    open spec fn view(&self) -> RecordStepModel {
        match *self {
            RecordStep::Allowlisted => RecordStepModel::Allowlisted,
            RecordStep::FindActiveBlock(ip) => RecordStepModel::FindActiveBlock(ip@),
            RecordStep::AlreadyBlocked => RecordStepModel::AlreadyBlocked,
            RecordStep::RecordOccurrence { offense, since } => RecordStepModel::RecordOccurrence {
                offense: offense@,
                since,
            },
            RecordStep::BelowThreshold => RecordStepModel::BelowThreshold,
            RecordStep::CeilingReached => RecordStepModel::CeilingReached,
            RecordStep::Perform(actions) => RecordStepModel::Perform(action_models(actions@)),
            RecordStep::TimeOverflow(actions) => RecordStepModel::TimeOverflow(
                action_models(actions@),
            ),
        }
    }
}

impl RecordStepModel {
    /// What the handling of the offense answers once this step is done: whether the offense led
    /// to a ban. `None` where it is not settled by this step.
    pub open spec fn answer(self) -> Option<bool> {
        match self {
            RecordStepModel::Allowlisted => Some(false),
            RecordStepModel::FindActiveBlock(_) => None,
            RecordStepModel::AlreadyBlocked => Some(false),
            RecordStepModel::RecordOccurrence { .. } => None,
            RecordStepModel::BelowThreshold => Some(false),
            RecordStepModel::CeilingReached => Some(true),
            RecordStepModel::Perform(_) => Some(true),
            RecordStepModel::TimeOverflow(_) => None,
        }
    }
}

impl RecordStep {
    /// What the handling of the offense answers once this step is done: whether the offense led
    /// to a ban. `None` where it is not settled by this step.
    pub fn answer(&self) -> (r: Option<bool>)
        ensures
            r == self@.answer(),
    {
        match self {
            RecordStep::Allowlisted => Some(false),
            RecordStep::FindActiveBlock(_) => None,
            RecordStep::AlreadyBlocked => Some(false),
            RecordStep::RecordOccurrence { .. } => None,
            RecordStep::BelowThreshold => Some(false),
            RecordStep::CeilingReached => Some(true),
            RecordStep::Perform(_) => Some(true),
            RecordStep::TimeOverflow(_) => None,
        }
    }
}

/// What comes of an attempt to ban an address.
#[derive(Debug)]
pub enum BlockOutcome {
    /// There were too many bans within the last minute.
    CeilingReached,
    /// The address is to be blocked at the firewall, but the end of the ban lies out of range.
    TimeOverflow(Vec<Action>),
    /// The address is to be banned.
    Block(Vec<Action>),
}

/// Whether the allowlist can be searched for the address that the text spells.
pub open spec fn can_search_allowlist(config: IpBanConfig, ip: Seq<char>) -> bool {
    dotted_address(ip) matches Some(addr) ==> can_search(config.allowlist_ranges@, addr)
}

/// Whether the text spells an address in an allowlisted range.
pub open spec fn is_protected(config: IpBanConfig, ip: Seq<char>) -> bool {
    dotted_address(ip) matches Some(addr) && any_range_has(config.allowlist_ranges@, addr)
}

/// The first step for an offense.
pub open spec fn first_step(config: IpBanConfig, offense: OffenseModel) -> RecordStepModel {
    if is_protected(config, offense.ip_address) {
        RecordStepModel::Allowlisted
    } else {
        RecordStepModel::FindActiveBlock(offense.ip_address)
    }
}

/// The record of an offense that is detected now.
pub open spec fn occurrence_model(
    offense: OffenseModel,
    now: Timestamp,
    id: Seq<char>,
) -> NewOffenseModel {
    NewOffenseModel {
        id,
        ip_address: offense.ip_address,
        source_type: offense.source_type,
        container_id: offense.container_id,
        first_seen: now,
        reason: offense.reason,
        metadata: Some((offense.source_path, offense.sample_line)),
    }
}

/// The step that follows the search for an active block, at the time `now` and with the
/// identifier `id` at hand.
pub open spec fn lookup_step(
    config: IpBanConfig,
    offense: OffenseModel,
    blocked: bool,
    now: Timestamp,
    id: Seq<char>,
) -> RecordStepModel {
    let start = now.secs - as_signed(config.find_time_secs);
    if blocked {
        RecordStepModel::AlreadyBlocked
    } else if !secs_in_range(start) {
        RecordStepModel::TimeOverflow(seq![])
    } else {
        RecordStepModel::RecordOccurrence {
            offense: occurrence_model(offense, now, id),
            since: Timestamp { secs: start as i64, nanos: now.nanos },
        }
    }
}

/// What comes before all else in a ban: the address is blocked at the firewall.
pub open spec fn firewall_block(offense: OffenseModel) -> Seq<ActionModel> {
    seq![ActionModel::FirewallBlock(offense.ip_address)]
}

/// What bans an address until then.
pub open spec fn ban_actions(
    offense: OffenseModel,
    offense_count: int,
    until: Timestamp,
    until_text: Seq<char>,
) -> Seq<ActionModel> {
    seq![
        ActionModel::FirewallBlock(offense.ip_address),
        ActionModel::MarkBlocked {
            ip_address: offense.ip_address,
            source_type: offense.source_type,
            blocked_until: until,
        },
        ActionModel::CreateAlert(ban_alert_model(offense, offense_count, until_text)),
        notify_model("ip ban"@),
    ]
}

/// The end of a ban that begins now.
pub open spec fn ban_end(config: IpBanConfig, now: Timestamp) -> Timestamp {
    Timestamp { secs: (now.secs + as_signed(config.ban_time_secs)) as i64, nanos: now.nanos }
}

/// Whether the end of a ban that begins now lies in range.
pub open spec fn ban_end_in_range(config: IpBanConfig, now: Timestamp) -> bool {
    secs_in_range(now.secs + as_signed(config.ban_time_secs))
}

/// The step that follows the count of offenses.
pub open spec fn count_step(
    config: IpBanConfig,
    recent: Seq<Timestamp>,
    offense: OffenseModel,
    offense_count: int,
    now: Timestamp,
) -> RecordStepModel {
    if offense_count < config.max_retries {
        RecordStepModel::BelowThreshold
    } else if !budget_step(config.max_bans_per_minute as int, recent, now).1 {
        RecordStepModel::CeilingReached
    } else if !ban_end_in_range(config, now) {
        RecordStepModel::TimeOverflow(firewall_block(offense))
    } else {
        let until = ban_end(config, now);
        RecordStepModel::Perform(
            ban_actions(offense, offense_count, until, rfc3339_text(until.secs, until.nanos)),
        )
    }
}

/// The blocks that are remembered after the count of offenses.
pub open spec fn count_step_recent(
    config: IpBanConfig,
    recent: Seq<Timestamp>,
    offense_count: int,
    now: Timestamp,
) -> Seq<Timestamp> {
    if offense_count < config.max_retries {
        recent
    } else {
        budget_step(config.max_bans_per_minute as int, recent, now).0
    }
}

impl IpBanEngine {
    /// The settings of the engine.
    pub closed spec fn settings(&self) -> IpBanConfig {
        self.config
    }

    /// The times of the blocks that the engine remembers, the oldest first.
    pub closed spec fn recent(&self) -> Seq<Timestamp> {
        self.recent_blocks@
    }

    /// No more blocks are remembered than the ceiling allows, and their times are valid.
    pub open spec fn wf(&self) -> bool {
        &&& self.recent().len() <= self.settings().max_bans_per_minute
        &&& forall|i: int| 0 <= i < self.recent().len() ==> (#[trigger] self.recent()[i]).valid()
    }

    pub fn new(config: IpBanConfig) -> (r: IpBanEngine)
        ensures
            r.wf(),
            r.settings() == config,
            r.recent() == Seq::<Timestamp>::empty(),
    {
        IpBanEngine { config, recent_blocks: VecDeque::new() }
    }

    pub fn config(&self) -> (r: &IpBanConfig)
        ensures
            *r == self.settings(),
    {
        &self.config
    }

    /// Whether another address may be blocked right now. If so, that counts as a block.
    ///
    /// A burst of blocks is far more likely to be a misread log than a crowd of attackers
    /// arriving in the same second, and the cost of the two mistakes is not symmetric: a missed
    /// ban is an alert nobody acted on, a wrong ban is a locked-out customer. The ceiling holds
    /// the damage to a handful.
    pub fn ban_budget_available(&mut self, now: Timestamp) -> (r: bool)
        requires
            old(self).wf(),
            now.valid(),
        ensures
            final(self).wf(),
            final(self).settings() == old(self).settings(),
            (final(self).recent(), r) == budget_step(
                old(self).settings().max_bans_per_minute as int,
                old(self).recent(),
                now,
            ),
    {
        if self.config.max_bans_per_minute == 0 {
            return true;
        }
        let ghost start = self.recent();
        while self.recent_blocks.len() > 0 && now.is_past(self.recent_blocks[0], WINDOW_SECS)
            invariant
                self.wf(),
                now.valid(),
                self.settings() == old(self).settings(),
                drop_expired(start, now) == drop_expired(self.recent(), now),
            decreases self.recent().len(),
        {
            let ghost before = self.recent();
            self.recent_blocks.pop_front();
            proof {
                assert(self.recent() =~= before.drop_first());
                assert forall|i: int| 0 <= i < self.recent().len() implies (
                #[trigger] self.recent()[i]).valid() by {
                    assert(self.recent()[i] == before[i + 1]);
                }
            }
        }
        if self.recent_blocks.len() >= self.config.max_bans_per_minute as usize {
            return false;
        }
        self.recent_blocks.push_back(now);
        true
    }

    /// The first step for an offense.
    ///
    /// Protected addresses are told apart before the offense is even recorded: banning a load
    /// balancer or health checker takes the service down, so they must not accumulate offenses
    /// that a later change of settings could act on.
    pub fn record_offense(&self, offense: &OffenseInput) -> (r: RecordStep)
        requires
            can_search_allowlist(self.settings(), offense@.ip_address),
        ensures
            r@ == first_step(self.settings(), offense@),
    {
        let text = chars_of(offense.ip_address.as_str());
        if let Some(addr) = Ipv4Addr::parse(text.as_slice()) {
            if self.config.is_allowlisted(&addr) {
                return RecordStep::Allowlisted;
            }
        }
        RecordStep::FindActiveBlock(offense.ip_address.clone())
    }

    /// Whether `record_offense` can be asked about the address.
    pub fn can_record(&self, ip_address: &str) -> (r: bool)
        ensures
            r == can_search_allowlist(self.settings(), ip_address@),
    {
        match Ipv4Addr::parse(chars_of(ip_address).as_slice()) {
            Some(addr) => self.config.can_search_allowlist(&addr),
            None => true,
        }
    }

    /// Goes on once it is known whether the address has an active block. The time and the
    /// identifier of a record are those of the moment.
    pub fn after_block_lookup(&self, offense: &OffenseInput, blocked: bool) -> (r: RecordStep)
        ensures
            blocked ==> r@ == RecordStepModel::AlreadyBlocked,
            !blocked ==> exists|now: Timestamp, id: Seq<char>|
                now.valid() && now.secs >= 0 && is_v4_text(id) && r@ == #[trigger] lookup_step(
                    self.settings(),
                    offense@,
                    false,
                    now,
                    id,
                ),
    {
        if blocked {
            return RecordStep::AlreadyBlocked;
        }
        let now = utc_now();
        let id = new_v4();
        let ghost id_text = id@;
        let r = self.occurrence_at(offense, now, id);
        assert(r@ == lookup_step(self.settings(), offense@, false, now, id_text));
        r
    }

    /// Goes on where the address has no active block, at the time `now` and with the identifier
    /// `id` for the new record.
    pub fn occurrence_at(&self, offense: &OffenseInput, now: Timestamp, id: String) -> (r:
        RecordStep)
        requires
            now.valid(),
        ensures
            r@ == lookup_step(self.settings(), offense@, false, now, id@),
    {
        match now.minus(to_signed(self.config.find_time_secs)) {
            None => {
                let nothing: Vec<Action> = Vec::new();
                assert(action_models(nothing@) =~= seq![]);
                RecordStep::TimeOverflow(nothing)
            },
            Some(since) => RecordStep::RecordOccurrence {
                offense: NewIpOffense {
                    id,
                    ip_address: offense.ip_address.clone(),
                    source_type: offense.source_type.clone(),
                    container_id: clone_opt(&offense.container_id),
                    first_seen: now,
                    reason: offense.reason.clone(),
                    metadata: Some(
                        OffenseMetadata {
                            source_path: clone_opt(&offense.source_path),
                            sample_line: clone_opt(&offense.sample_line),
                        },
                    ),
                },
                since,
            },
        }
    }

    /// Goes on once the offenses are counted. `now` is the time of the record.
    pub fn after_count(&mut self, offense: &OffenseInput, offense_count: u32, now: Timestamp) -> (r:
        RecordStep)
        requires
            old(self).wf(),
            now.valid(),
        ensures
            final(self).wf(),
            final(self).settings() == old(self).settings(),
            final(self).recent() == count_step_recent(
                old(self).settings(),
                old(self).recent(),
                offense_count as int,
                now,
            ),
            r@ == count_step(
                old(self).settings(),
                old(self).recent(),
                offense@,
                offense_count as int,
                now,
            ),
    {
        if offense_count < self.config.max_retries {
            return RecordStep::BelowThreshold;
        }
        match self.block_ip(offense, offense_count, now) {
            BlockOutcome::CeilingReached => RecordStep::CeilingReached,
            BlockOutcome::TimeOverflow(actions) => RecordStep::TimeOverflow(actions),
            BlockOutcome::Block(actions) => RecordStep::Perform(actions),
        }
    }

    /// Bans an address, unless there were too many bans within the last minute. The end of the
    /// ban matters only once the firewall has blocked the address.
    pub fn block_ip(&mut self, offense: &OffenseInput, offense_count: u32, now: Timestamp) -> (r:
        BlockOutcome)
        requires
            old(self).wf(),
            now.valid(),
        ensures
            final(self).wf(),
            final(self).settings() == old(self).settings(),
            (final(self).recent(), !(r is CeilingReached)) == budget_step(
                old(self).settings().max_bans_per_minute as int,
                old(self).recent(),
                now,
            ),
            r is TimeOverflow <==> !(r is CeilingReached) && !ban_end_in_range(
                old(self).settings(),
                now,
            ),
            r matches BlockOutcome::TimeOverflow(actions) ==> action_models(actions@)
                == firewall_block(offense@),
            r matches BlockOutcome::Block(actions) ==> ({
                let until = ban_end(old(self).settings(), now);
                action_models(actions@) == ban_actions(
                    offense@,
                    offense_count as int,
                    until,
                    rfc3339_text(until.secs, until.nanos),
                )
            }),
    {
        if !self.ban_budget_available(now) {
            return BlockOutcome::CeilingReached;
        }
        match now.plus(to_signed(self.config.ban_time_secs)) {
            None => {
                let mut actions: Vec<Action> = Vec::new();
                push_action(&mut actions, Action::FirewallBlock(offense.ip_address.clone()));
                assert(action_models(actions@) =~= firewall_block(offense@));
                BlockOutcome::TimeOverflow(actions)
            },
            Some(until) => {
                let until_text = to_rfc3339(until);
                BlockOutcome::Block(
                    Self::plan_ban(offense, offense_count, until, until_text.as_str()),
                )
            },
        }
    }

    /// What bans an address until then, given the text of that time.
    pub fn plan_ban(
        offense: &OffenseInput,
        offense_count: u32,
        blocked_until: Timestamp,
        until_text: &str,
    ) -> (r: Vec<Action>)
        ensures
            action_models(r@) == ban_actions(
                offense@,
                offense_count as int,
                blocked_until,
                until_text@,
            ),
    {
        let mut actions: Vec<Action> = Vec::new();
        push_action(&mut actions, Action::FirewallBlock(offense.ip_address.clone()));
        push_action(
            &mut actions,
            Action::MarkBlocked {
                ip_address: offense.ip_address.clone(),
                source_type: offense.source_type.clone(),
                blocked_until,
            },
        );
        push_action(
            &mut actions,
            Action::CreateAlert(ban_alert(offense, offense_count, until_text)),
        );
        push_action(&mut actions, notify("ip ban"));
        assert(action_models(actions@) =~= ban_actions(
            offense@,
            offense_count as int,
            blocked_until,
            until_text@,
        ));
        actions
    }

    /// Explains a ban in the alert itself: which file or container the evidence came from, what
    /// triggered it, and the line that did.
    ///
    /// Without this the alert says only that an address was blocked after repeated offenses,
    /// which is not enough to tell a real attacker from a parsing mistake, and the offending
    /// address may appear nowhere in the logs an operator would think to grep.
    pub fn describe_ban(offense: &OffenseInput, offense_count: u32, blocked_until: Timestamp) -> (r:
        String)
        requires
            blocked_until.valid(),
        ensures
            r@ == ban_message(
                offense@,
                offense_count as int,
                rfc3339_text(blocked_until.secs, blocked_until.nanos),
            ),
    {
        let until_text = to_rfc3339(blocked_until);
        describe_ban_until(offense, offense_count, until_text.as_str())
    }

    /// The time at which the bans that have expired are looked for: the moment's.
    pub fn expiry_cutoff(&self) -> (r: Timestamp)
        ensures
            r.valid(),
            r.secs >= 0,
    {
        utc_now()
    }
}

} // verus!
