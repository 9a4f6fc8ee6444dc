//! What alerts and records hold, piece by piece.

use crate::action::{
    action_models, blocked_models, Action, ActionModel, BlockedOffense, NewIpOffense,
};
use crate::alert::{
    ban_alert, ban_alert_model, ban_message, opt_text, pair_texts, prefix, release_alert,
    sample_note, shown_sample, source_note, Alert, AlertMetadata, AlertModel, AlertSeverity,
    AlertType, OffenseInput, OffenseModel, ReleaseCause,
};
use crate::clock::{rfc3339_text, Timestamp};
use crate::engine::IpBanEngine;
use crate::extract::string_texts;
use crate::ident::is_v4_text;
use crate::text::{decimal_text, texts, CharClass};
use crate::text_laws::law_trimming_leaves_the_core;
use vstd::prelude::*;

verus! {

/// A sample line is shown without the white space around it: whole where it has at most 300
/// characters, and otherwise its first 300 with an ellipsis behind them.
pub proof fn law_samples_are_shown(before: Seq<char>, sample: Seq<char>, after: Seq<char>)
    requires
        forall|i: int| 0 <= i < before.len() ==> CharClass::WhiteSpace.has(#[trigger] before[i]),
        forall|i: int| 0 <= i < after.len() ==> CharClass::WhiteSpace.has(#[trigger] after[i]),
        sample.len() > 0 ==> !CharClass::WhiteSpace.has(sample[0]) && !CharClass::WhiteSpace.has(
            sample.last(),
        ),
    ensures
        ({
            let shown = shown_sample(before + sample + after);
            &&& sample.len() <= 300 ==> shown == sample
            &&& sample.len() > 300 ==> {
                &&& shown.len() == 301
                &&& forall|i: int| 0 <= i < 300 ==> #[trigger] shown[i] == sample[i]
                &&& shown[300] as int == 0x2026
            }
        }),
{
    law_trimming_leaves_the_core(before, sample, after, CharClass::WhiteSpace);
}

/// What a message begins with: the address, the number and kind of the offenses, and the end of
/// the ban.
pub open spec fn message_start(offense: OffenseModel, count: int, until: Seq<char>) -> Seq<char> {
    "Blocked IP "@ + offense.ip_address + " after "@ + decimal_text(count) + " "@
        + offense.source_type + " offenses (until "@ + until + ")"@
}

/// Whether the text is the start of a container's identifier that a message shows: twelve
/// characters, or all where it has no more.
pub open spec fn is_short_id(short: Seq<char>, id: Seq<char>) -> bool {
    &&& short.len() == (if id.len() <= 12 {
        id.len() as int
    } else {
        12
    })
    &&& forall|i: int| 0 <= i < short.len() ==> #[trigger] short[i] == id[i]
}

/// A message names where the evidence was found after its start: the file where there is one, else
/// the container by the start of its identifier, else nothing. Then come the reason and, where
/// there is one, the sample line.
pub proof fn law_message_says_where_and_why(
    offense: OffenseModel,
    count: int,
    until: Seq<char>,
    source: Seq<char>,
    sample: Seq<char>,
)
    requires
        match offense.source_path {
            Some(path) => source == " — Source: "@ + path,
            None => match offense.container_id {
                Some(id) => exists|short: Seq<char>|
                    #[trigger] is_short_id(short, id) && source == " — Source: container "@
                        + short,
                None => source.len() == 0,
            },
        },
        match offense.sample_line {
            Some(line) => sample == " | Sample: "@ + shown_sample(line),
            None => sample.len() == 0,
        },
    ensures
        ban_message(offense, count, until) == message_start(offense, count, until) + source
            + " | Reason: "@ + offense.reason + sample,
{
    if offense.source_path is None && offense.container_id is Some {
        let id = offense.container_id->0;
        let short = choose|short: Seq<char>|
            #[trigger] is_short_id(short, id) && source == " — Source: container "@ + short;
        assert(short =~= prefix(id, 12));
        assert(source == source_note(offense));
    }
    if offense.source_path is None && offense.container_id is None {
        assert(source =~= source_note(offense));
    }
    if offense.sample_line is None {
        assert(sample =~= sample_note(offense));
    }
    assert(source == source_note(offense));
    assert(sample == sample_note(offense));
}

/// The engine describes a ban by that message, with the end of the ban as its date and time.
pub proof fn law_description_is_the_message(
    offense: &OffenseInput,
    count: u32,
    until: Timestamp,
    message: String,
)
    requires
        call_ensures(IpBanEngine::describe_ban, (offense, count, until), message),
    ensures
        message@ == ban_message(offense@, count as int, rfc3339_text(until.secs, until.nanos)),
{
}

/// Whether the alert tells of the ban: it has the severity of the offense, the message as its text,
/// and the evidence as its facts, which are the address, the number of offenses and the end of the
/// ban, and where they are known the file and the whole sample line.
pub open spec fn tells_of_ban(
    alert: AlertModel,
    offense: OffenseModel,
    count: int,
    until: Seq<char>,
) -> bool {
    let facts = alert.metadata.extra;
    let path = offense.source_path;
    let line = offense.sample_line;
    &&& alert.alert_type == AlertType::ThresholdExceeded
    &&& alert.severity == offense.severity
    &&& alert.message == ban_message(offense, count, until)
    &&& alert.metadata.source == Some("ip_ban"@)
    &&& alert.metadata.reason == Some(offense.reason)
    &&& alert.metadata.container_id == offense.container_id
    &&& facts.len() == 3 + (if path is Some {
        1int
    } else {
        0
    }) + (if line is Some {
        1int
    } else {
        0
    })
    &&& facts.contains(("ip_address"@, offense.ip_address))
    &&& facts.contains(("offense_count"@, decimal_text(count)))
    &&& facts.contains(("blocked_until"@, until))
    &&& path is Some ==> facts.contains(("source_path"@, path->0))
    &&& line is Some ==> facts.contains(("sample_line"@, line->0))
}

pub proof fn lemma_ban_alert_tells(offense: OffenseModel, count: int, until: Seq<char>)
    ensures
        tells_of_ban(ban_alert_model(offense, count, until), offense, count, until),
{
    let facts = ban_alert_model(offense, count, until).metadata.extra;
    assert(facts[0] == ("ip_address"@, offense.ip_address));
    assert(facts[1] == ("offense_count"@, decimal_text(count)));
    assert(facts[2] == ("blocked_until"@, until));
    if offense.source_path is Some {
        assert(facts[3] == ("source_path"@, offense.source_path->0));
        if offense.sample_line is Some {
            assert(facts[4] == ("sample_line"@, offense.sample_line->0));
        }
    } else if offense.sample_line is Some {
        assert(facts[3] == ("sample_line"@, offense.sample_line->0));
    }
}

/// The alert of a ban tells of it.
pub proof fn law_ban_alert_holds_the_evidence(
    offense: &OffenseInput,
    count: u32,
    until: &str,
    alert: Alert,
)
    requires
        call_ensures(ban_alert, (offense, count, until), alert),
    ensures
        tells_of_ban(alert@, offense@, count as int, until@),
{
    lemma_ban_alert_tells(offense@, count as int, until@);
}

/// The alert of a release is for information, names the address, and says whether the ban was
/// lifted or has expired.
pub proof fn law_release_alert_says_why(ip: &str, cause: ReleaseCause, alert: Alert)
    requires
        call_ensures(release_alert, (ip, cause), alert),
    ensures
        alert.alert_type == AlertType::SystemEvent,
        alert.severity == AlertSeverity::Info,
        alert.message@ == "Released IP ban for "@ + ip@,
        alert@.metadata.source == Some("ip_ban"@),
        alert@.metadata.reason == Some(
            (if cause == ReleaseCause::Manual {
                "Manually released ban for "@
            } else {
                "Released expired ban for "@
            }) + ip@,
        ),
        alert@.metadata.container_id is None,
        alert@.metadata.extra.len() == 0,
{
}

/// The text of an optional string is that of the string, where there is one.
pub proof fn law_optional_texts(s: Option<String>)
    ensures
        opt_text(s) is Some <==> s is Some,
        s is Some ==> opt_text(s)->0 == s->0@,
{
}

/// The texts of an offense are those of its fields, each under its own name.
pub proof fn law_offense_texts(offense: OffenseInput)
    ensures
        offense@.ip_address == offense.ip_address@,
        offense@.source_type == offense.source_type@,
        offense@.reason == offense.reason@,
        offense@.severity == offense.severity,
        offense.container_id is Some ==> offense@.container_id == Some(offense.container_id->0@),
        offense.container_id is None ==> offense@.container_id is None,
        offense.source_path is Some ==> offense@.source_path == Some(offense.source_path->0@),
        offense.source_path is None ==> offense@.source_path is None,
        offense.sample_line is Some ==> offense@.sample_line == Some(offense.sample_line->0@),
        offense.sample_line is None ==> offense@.sample_line is None,
{
}

/// The texts of an alert are those of its fields, each under its own name.
pub proof fn law_alert_texts(alert: Alert, metadata: AlertMetadata, i: int)
    ensures
        alert@.alert_type == alert.alert_type,
        alert@.severity == alert.severity,
        alert@.message == alert.message@,
        alert@.metadata == alert.metadata@,
        metadata.source is Some ==> metadata@.source == Some(metadata.source->0@),
        metadata.source is None ==> metadata@.source is None,
        metadata.reason is Some ==> metadata@.reason == Some(metadata.reason->0@),
        metadata.reason is None ==> metadata@.reason is None,
        metadata.container_id is Some ==> metadata@.container_id == Some(metadata.container_id->0@),
        metadata.container_id is None ==> metadata@.container_id is None,
        metadata@.extra.len() == metadata.extra@.len(),
        0 <= i < metadata.extra@.len() ==> metadata@.extra[i] == (
            metadata.extra@[i].0@,
            metadata.extra@[i].1@,
        ),
{
    assert(pair_texts(metadata.extra@).len() == metadata.extra@.len());
}

/// The texts of a record are those of its fields, each under its own name.
pub proof fn law_record_texts(record: NewIpOffense, row: BlockedOffense)
    ensures
        record@.id == record.id@,
        record@.ip_address == record.ip_address@,
        record@.source_type == record.source_type@,
        record@.first_seen == record.first_seen,
        record@.reason == record.reason@,
        record.container_id is Some ==> record@.container_id == Some(record.container_id->0@),
        record.container_id is None ==> record@.container_id is None,
        record.metadata is None <==> record@.metadata is None,
        record.metadata matches Some(m) ==> {
            let (path, line) = record@.metadata->0;
            &&& m.source_path is Some ==> path == Some(m.source_path->0@)
            &&& m.source_path is None ==> path is None
            &&& m.sample_line is Some ==> line == Some(m.sample_line->0@)
            &&& m.sample_line is None ==> line is None
        },
        row@.id == row.id@,
        row@.ip_address == row.ip_address@,
{
}

/// The texts of an action are those of its parts, and it is of the same kind.
pub proof fn law_action_texts(action: Action)
    ensures
        match action {
            Action::FirewallBlock(ip) => action@ == ActionModel::FirewallBlock(ip@),
            Action::FirewallUnblock(ip) => action@ == ActionModel::FirewallUnblock(ip@),
            Action::MarkBlocked { ip_address, source_type, blocked_until } => {
                &&& action@ is MarkBlocked
                &&& action@->ip_address == ip_address@
                &&& action@->source_type == source_type@
                &&& action@->blocked_until == blocked_until
            },
            Action::MarkReleased(id) => action@ == ActionModel::MarkReleased(id@),
            Action::CreateAlert(alert) => action@ == ActionModel::CreateAlert(alert@),
            Action::Notify { env_toggle, action_name } => {
                &&& action@ is Notify
                &&& action@->env_toggle == env_toggle@
                &&& action@->action_name == action_name@
            },
        },
{
}

/// The texts of a list are those of its items, in their order.
pub proof fn law_list_texts(
    actions: Seq<Action>,
    rows: Seq<BlockedOffense>,
    strings: Seq<String>,
    slices: Seq<&[char]>,
    i: int,
)
    ensures
        action_models(actions).len() == actions.len(),
        0 <= i < actions.len() ==> action_models(actions)[i] == actions[i]@,
        blocked_models(rows).len() == rows.len(),
        0 <= i < rows.len() ==> blocked_models(rows)[i] == rows[i]@,
        string_texts(strings).len() == strings.len(),
        0 <= i < strings.len() ==> string_texts(strings)[i] == strings[i]@,
        texts(slices).len() == slices.len(),
        0 <= i < slices.len() ==> texts(slices)[i] == slices[i]@,
{
}

/// An identifier has 32 hexadecimal digits in lower case and four hyphens, and names its version
/// and variant.
pub proof fn law_identifiers(id: Seq<char>, i: int)
    requires
        is_v4_text(id),
        0 <= i < id.len(),
    ensures
        id.len() == 36,
        id[i] == '-' <==> i == 8 || i == 13 || i == 18 || i == 23,
        id[i] != '-' ==> 0x30 <= id[i] as int <= 0x39 || 0x61 <= id[i] as int <= 0x66,
        id[14] == '4',
        id[19] == '8' || id[19] == '9' || id[19] == 'a' || id[19] == 'b',
{
    assert(id[i] == id[i]);
}

} // verus!
