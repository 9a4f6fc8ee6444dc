//! What the engine asks its surroundings to do, and the records that it hands over.

use crate::alert::{opt_text, Alert, AlertModel};
use crate::clock::Timestamp;
use vstd::prelude::*;

verus! {

/// One thing to do. The things of a list are done in order, up to the first that fails
/// (`progress::ActionRun`).
#[derive(Debug, Clone)]
pub enum Action {
    /// Block the address at the firewall.
    FirewallBlock(String),
    /// Unblock the address at the firewall.
    FirewallUnblock(String),
    /// Mark the offenses of that kind by the address as blocked until then.
    MarkBlocked { ip_address: String, source_type: String, blocked_until: Timestamp },
    /// Mark the offense with that identifier as released.
    MarkReleased(String),
    /// Store the alert.
    CreateAlert(Alert),
    /// Send out the alert stored last, unless the environment variable turns that off. A
    /// failure to send is logged under the name of the action, and is no failure of the list.
    Notify { env_toggle: String, action_name: String },
}

/// The texts of an `Action`.
pub enum ActionModel {
    FirewallBlock(Seq<char>),
    FirewallUnblock(Seq<char>),
    MarkBlocked { ip_address: Seq<char>, source_type: Seq<char>, blocked_until: Timestamp },
    MarkReleased(Seq<char>),
    CreateAlert(AlertModel),
    Notify { env_toggle: Seq<char>, action_name: Seq<char> },
}

impl View for Action {
    type V = ActionModel;

    open spec fn view(&self) -> ActionModel {
        match *self {
            Action::FirewallBlock(ip) => ActionModel::FirewallBlock(ip@),
            Action::FirewallUnblock(ip) => ActionModel::FirewallUnblock(ip@),
            Action::MarkBlocked { ip_address, source_type, blocked_until } => {
                ActionModel::MarkBlocked {
                    ip_address: ip_address@,
                    source_type: source_type@,
                    blocked_until,
                }
            },
            Action::MarkReleased(id) => ActionModel::MarkReleased(id@),
            Action::CreateAlert(alert) => ActionModel::CreateAlert(alert@),
            Action::Notify { env_toggle, action_name } => ActionModel::Notify {
                env_toggle: env_toggle@,
                action_name: action_name@,
            },
        }
    }
}

/// The texts of a list of actions.
pub open spec fn action_models(actions: Seq<Action>) -> Seq<ActionModel> {
    actions.map_values(|a: Action| a@)
}

/// Sending out the alert of a ban or a release.
pub open spec fn notify_model(action_name: Seq<char>) -> ActionModel {
    ActionModel::Notify { env_toggle: "STACKDOG_NOTIFY_IP_BAN_ACTIONS"@, action_name }
}

pub fn notify(action_name: &str) -> (r: Action)
    ensures
        r@ == notify_model(action_name@),
{
    Action::Notify {
        env_toggle: "STACKDOG_NOTIFY_IP_BAN_ACTIONS".to_owned(),
        action_name: action_name.to_owned(),
    }
}

/// Appends an action.
pub fn push_action(actions: &mut Vec<Action>, action: Action)
    ensures
        action_models(final(actions)@) == action_models(old(actions)@).push(action@),
{
    actions.push(action);
    assert(action_models(actions@) =~= action_models(old(actions)@).push(action@));
}

/// What is kept of an offense beside its kind and reason.
#[derive(Debug, Clone)]
pub struct OffenseMetadata {
    pub source_path: Option<String>,
    pub sample_line: Option<String>,
}

/// The record of a new offense.
#[derive(Debug, Clone)]
pub struct NewIpOffense {
    pub id: String,
    pub ip_address: String,
    pub source_type: String,
    pub container_id: Option<String>,
    pub first_seen: Timestamp,
    pub reason: String,
    pub metadata: Option<OffenseMetadata>,
}

/// The texts of a `NewIpOffense`.
pub struct NewOffenseModel {
    pub id: Seq<char>,
    pub ip_address: Seq<char>,
    pub source_type: Seq<char>,
    pub container_id: Option<Seq<char>>,
    pub first_seen: Timestamp,
    pub reason: Seq<char>,
    /// The source path and the sample line.
    pub metadata: Option<(Option<Seq<char>>, Option<Seq<char>>)>,
}

impl View for NewIpOffense {
    type V = NewOffenseModel;

    open spec fn view(&self) -> NewOffenseModel {
        NewOffenseModel {
            id: self.id@,
            ip_address: self.ip_address@,
            source_type: self.source_type@,
            container_id: opt_text(self.container_id),
            first_seen: self.first_seen,
            reason: self.reason@,
            metadata: match self.metadata {
                Some(m) => Some((opt_text(m.source_path), opt_text(m.sample_line))),
                None => None,
            },
        }
    }
}

/// A stored offense that an address is blocked for.
#[derive(Debug, Clone)]
pub struct BlockedOffense {
    pub id: String,
    pub ip_address: String,
}

/// The texts of a `BlockedOffense`.
pub struct BlockedModel {
    pub id: Seq<char>,
    pub ip_address: Seq<char>,
}

impl View for BlockedOffense {
    type V = BlockedModel;

    open spec fn view(&self) -> BlockedModel {
        BlockedModel { id: self.id@, ip_address: self.ip_address@ }
    }
}

/// The texts of a list of blocked offenses.
pub open spec fn blocked_models(rows: Seq<BlockedOffense>) -> Seq<BlockedModel> {
    rows.map_values(|r: BlockedOffense| r@)
}

} // verus!
