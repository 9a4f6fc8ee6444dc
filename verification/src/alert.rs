//! Offenses, and the alerts that bans and releases raise.

use crate::text::{chars_of, decimal_text, push_decimal, text_of, trim, trimmed, CharClass};
use vstd::prelude::*;
use vstd::slice::slice_subrange;
use vstd::string::*;

verus! {

#[derive(Debug, Clone, Copy, PartialEq, Eq, Structural)]
pub enum AlertSeverity {
    Info,
    Low,
    Medium,
    High,
    Critical,
}

#[derive(Debug, Clone, Copy, PartialEq, Eq, Structural)]
pub enum AlertType {
    /// An address was banned.
    ThresholdExceeded,
    /// A ban ended.
    SystemEvent,
}

/// One detection of an offense.
#[derive(Debug, Clone)]
pub struct OffenseInput {
    pub ip_address: String,
    pub source_type: String,
    pub reason: String,
    pub severity: AlertSeverity,
    pub container_id: Option<String>,
    pub source_path: Option<String>,
    pub sample_line: Option<String>,
}

/// The texts of an `OffenseInput`.
pub struct OffenseModel {
    pub ip_address: Seq<char>,
    pub source_type: Seq<char>,
    pub reason: Seq<char>,
    pub severity: AlertSeverity,
    pub container_id: Option<Seq<char>>,
    pub source_path: Option<Seq<char>>,
    pub sample_line: Option<Seq<char>>,
}

/// The text of an optional string.
pub open spec fn opt_text(s: Option<String>) -> Option<Seq<char>> {
    match s {
        Some(t) => Some(t@),
        None => None,
    }
}

impl View for OffenseInput {
    type V = OffenseModel;

    open spec fn view(&self) -> OffenseModel {
        OffenseModel {
            ip_address: self.ip_address@,
            source_type: self.source_type@,
            reason: self.reason@,
            severity: self.severity,
            container_id: opt_text(self.container_id),
            source_path: opt_text(self.source_path),
            sample_line: opt_text(self.sample_line),
        }
    }
}

/// Where an alert comes from, and what else is known of its cause.
#[derive(Debug, Clone)]
pub struct AlertMetadata {
    pub source: Option<String>,
    pub reason: Option<String>,
    pub container_id: Option<String>,
    /// Further facts, each under a key of its own.
    pub extra: Vec<(String, String)>,
}

/// The texts of an `AlertMetadata`.
pub struct MetadataModel {
    pub source: Option<Seq<char>>,
    pub reason: Option<Seq<char>>,
    pub container_id: Option<Seq<char>>,
    pub extra: Seq<(Seq<char>, Seq<char>)>,
}

pub open spec fn pair_texts(pairs: Seq<(String, String)>) -> Seq<(Seq<char>, Seq<char>)> {
    pairs.map_values(|p: (String, String)| (p.0@, p.1@))
}

impl View for AlertMetadata {
    type V = MetadataModel;

    open spec fn view(&self) -> MetadataModel {
        MetadataModel {
            source: opt_text(self.source),
            reason: opt_text(self.reason),
            container_id: opt_text(self.container_id),
            extra: pair_texts(self.extra@),
        }
    }
}

/// An alert that is to be stored and sent out.
#[derive(Debug, Clone)]
pub struct Alert {
    pub alert_type: AlertType,
    pub severity: AlertSeverity,
    pub message: String,
    pub metadata: AlertMetadata,
}

/// The texts of an `Alert`.
pub struct AlertModel {
    pub alert_type: AlertType,
    pub severity: AlertSeverity,
    pub message: Seq<char>,
    pub metadata: MetadataModel,
}

impl View for Alert {
    type V = AlertModel;

    open spec fn view(&self) -> AlertModel {
        AlertModel {
            alert_type: self.alert_type,
            severity: self.severity,
            message: self.message@,
            metadata: self.metadata@,
        }
    }
}

/// Longest sample line kept in an alert message, so one enormous log line cannot blow past a
/// notification channel's size limit.
pub const SAMPLE_LIMIT: usize = 300;

/// Characters of a container's identifier that an alert message shows.
pub const SHORT_ID_LEN: usize = 12;

/// The first `n` characters of `s`, or all of it where it is shorter.
pub open spec fn prefix(s: Seq<char>, n: int) -> Seq<char> {
    if s.len() > n {
        s.take(n)
    } else {
        s
    }
}

/// The sample line as a message shows it: without white space at its ends, and cut off with an
/// ellipsis where it is too long.
pub open spec fn shown_sample(line: Seq<char>) -> Seq<char> {
    let sample = trim(line, CharClass::WhiteSpace);
    if sample.len() > SAMPLE_LIMIT {
        sample.take(SAMPLE_LIMIT as int).push('…')
    } else {
        sample
    }
}

/// The part of a message that says where the evidence was found: the file, else the container.
pub open spec fn source_note(offense: OffenseModel) -> Seq<char> {
    match (offense.source_path, offense.container_id) {
        (Some(path), _) => " — Source: "@ + path,
        (None, Some(id)) => " — Source: container "@ + prefix(id, SHORT_ID_LEN as int),
        (None, None) => seq![],
    }
}

/// The part of a message that shows the line that triggered the ban.
pub open spec fn sample_note(offense: OffenseModel) -> Seq<char> {
    match offense.sample_line {
        Some(line) => " | Sample: "@ + shown_sample(line),
        None => seq![],
    }
}

/// What a ban's alert says: the address, the number of offenses, the time at which the ban ends,
/// where the evidence was found, what triggered the ban, and the line that did.
pub open spec fn ban_message(offense: OffenseModel, offense_count: int, until: Seq<char>) -> Seq<
    char,
> {
    "Blocked IP "@ + offense.ip_address + " after "@ + decimal_text(offense_count) + " "@
        + offense.source_type + " offenses (until "@ + until + ")"@ + source_note(offense)
        + " | Reason: "@ + offense.reason + sample_note(offense)
}

fn short_id(id: &str) -> (r: String)
    ensures
        r@ == prefix(id@, SHORT_ID_LEN as int),
{
    let chars = chars_of(id);
    if chars.len() > SHORT_ID_LEN {
        let front = slice_subrange(chars.as_slice(), 0, SHORT_ID_LEN);
        assert(front@ =~= id@.take(SHORT_ID_LEN as int));
        text_of(front)
    } else {
        text_of(chars.as_slice())
    }
}

fn shorten_sample(line: &str) -> (r: String)
    ensures
        r@ == shown_sample(line@),
{
    let chars = chars_of(line);
    let sample = trimmed(chars.as_slice(), CharClass::WhiteSpace);
    if sample.len() > SAMPLE_LIMIT {
        let front = slice_subrange(sample, 0, SAMPLE_LIMIT);
        assert(front@ =~= sample@.take(SAMPLE_LIMIT as int));
        let mut r = text_of(front);
        r.push('…');
        r
    } else {
        text_of(sample)
    }
}

/// Explains a ban, given the text of the time at which it ends.
pub fn describe_ban_until(offense: &OffenseInput, offense_count: u32, until: &str) -> (r: String)
    ensures
        r@ == ban_message(offense@, offense_count as int, until@),
{
    let mut message = String::new();
    message.append("Blocked IP ");
    message.append(offense.ip_address.as_str());
    message.append(" after ");
    push_decimal(&mut message, offense_count);
    message.append(" ");
    message.append(offense.source_type.as_str());
    message.append(" offenses (until ");
    message.append(until);
    message.append(")");
    assert(message@ =~= "Blocked IP "@ + offense@.ip_address + " after "@ + decimal_text(
        offense_count as int,
    ) + " "@ + offense@.source_type + " offenses (until "@ + until@ + ")"@);
    let ghost head = message@;

    if let Some(source_path) = &offense.source_path {
        message.append(" — Source: ");
        message.append(source_path.as_str());
    } else if let Some(container_id) = &offense.container_id {
        message.append(" — Source: container ");
        message.append(short_id(container_id.as_str()).as_str());
    }
    assert(message@ =~= head + source_note(offense@));

    message.append(" | Reason: ");
    message.append(offense.reason.as_str());
    let ghost body = message@;

    if let Some(sample_line) = &offense.sample_line {
        message.append(" | Sample: ");
        message.append(shorten_sample(sample_line.as_str()).as_str());
    }
    assert(message@ =~= body + sample_note(offense@));
    message
}

/// A list with the one pair where there is a value, else an empty one.
pub open spec fn optional_pair(key: Seq<char>, value: Option<Seq<char>>) -> Seq<
    (Seq<char>, Seq<char>),
> {
    match value {
        Some(v) => seq![(key, v)],
        None => seq![],
    }
}

/// The further facts that a ban's alert gives.
pub open spec fn ban_extra(offense: OffenseModel, offense_count: int, until: Seq<char>) -> Seq<
    (Seq<char>, Seq<char>),
> {
    seq![
        ("ip_address"@, offense.ip_address),
        ("offense_count"@, decimal_text(offense_count)),
        ("blocked_until"@, until),
    ] + optional_pair("source_path"@, offense.source_path) + optional_pair(
        "sample_line"@,
        offense.sample_line,
    )
}

/// The alert that a ban raises.
pub open spec fn ban_alert_model(
    offense: OffenseModel,
    offense_count: int,
    until: Seq<char>,
) -> AlertModel {
    AlertModel {
        alert_type: AlertType::ThresholdExceeded,
        severity: offense.severity,
        message: ban_message(offense, offense_count, until),
        metadata: MetadataModel {
            source: Some("ip_ban"@),
            reason: Some(offense.reason),
            container_id: offense.container_id,
            extra: ban_extra(offense, offense_count, until),
        },
    }
}

/// Why a ban ends.
#[derive(Debug, Clone, Copy, PartialEq, Eq, Structural)]
pub enum ReleaseCause {
    /// Someone lifted it.
    Manual,
    /// Its time has passed.
    Expired,
}

/// What an alert gives as the reason for a release, before the address.
pub open spec fn release_words(cause: ReleaseCause) -> Seq<char> {
    match cause {
        ReleaseCause::Manual => "Manually released ban for "@,
        ReleaseCause::Expired => "Released expired ban for "@,
    }
}

/// The alert that a release raises.
pub open spec fn release_alert_model(ip: Seq<char>, cause: ReleaseCause) -> AlertModel {
    AlertModel {
        alert_type: AlertType::SystemEvent,
        severity: AlertSeverity::Info,
        message: "Released IP ban for "@ + ip,
        metadata: MetadataModel {
            source: Some("ip_ban"@),
            reason: Some(release_words(cause) + ip),
            container_id: None,
            extra: seq![],
        },
    }
}

/// A copy of an optional string.
pub fn clone_opt(s: &Option<String>) -> (r: Option<String>)
    ensures
        opt_text(r) == opt_text(*s),
{
    match s {
        Some(t) => Some(t.clone()),
        None => None,
    }
}

fn push_pair(extra: &mut Vec<(String, String)>, key: &str, value: &str)
    ensures
        pair_texts(final(extra)@) == pair_texts(old(extra)@).push((key@, value@)),
{
    extra.push((key.to_owned(), value.to_owned()));
    assert(pair_texts(extra@) =~= pair_texts(old(extra)@).push((key@, value@)));
}

/// The alert that a ban raises, given the text of the time at which the ban ends.
pub fn ban_alert(offense: &OffenseInput, offense_count: u32, until: &str) -> (r: Alert)
    ensures
        r@ == ban_alert_model(offense@, offense_count as int, until@),
{
    let mut extra: Vec<(String, String)> = Vec::new();
    let mut count_text = String::new();
    push_decimal(&mut count_text, offense_count);
    push_pair(&mut extra, "ip_address", offense.ip_address.as_str());
    push_pair(&mut extra, "offense_count", count_text.as_str());
    push_pair(&mut extra, "blocked_until", until);
    if let Some(source_path) = &offense.source_path {
        push_pair(&mut extra, "source_path", source_path.as_str());
    }
    if let Some(sample_line) = &offense.sample_line {
        push_pair(&mut extra, "sample_line", sample_line.as_str());
    }
    assert(count_text@ =~= decimal_text(offense_count as int));
    assert(pair_texts(extra@) =~= ban_extra(offense@, offense_count as int, until@));
    Alert {
        alert_type: AlertType::ThresholdExceeded,
        severity: offense.severity,
        message: describe_ban_until(offense, offense_count, until),
        metadata: AlertMetadata {
            source: Some("ip_ban".to_owned()),
            reason: Some(offense.reason.clone()),
            container_id: clone_opt(&offense.container_id),
            extra,
        },
    }
}

/// The alert that a release raises.
pub fn release_alert(ip: &str, cause: ReleaseCause) -> (r: Alert)
    ensures
        r@ == release_alert_model(ip@, cause),
{
    let mut message = "Released IP ban for ".to_owned();
    message.append(ip);
    let mut reason = match cause {
        ReleaseCause::Manual => "Manually released ban for ".to_owned(),
        ReleaseCause::Expired => "Released expired ban for ".to_owned(),
    };
    reason.append(ip);
    let extra: Vec<(String, String)> = Vec::new();
    assert(pair_texts(extra@) =~= seq![]);
    Alert {
        alert_type: AlertType::SystemEvent,
        severity: AlertSeverity::Info,
        message,
        metadata: AlertMetadata {
            source: Some("ip_ban".to_owned()),
            reason: Some(reason),
            container_id: None,
            extra,
        },
    }
}

/// Whether `part` stands somewhere in `s`.
pub open spec fn has_part(s: Seq<char>, part: Seq<char>) -> bool {
    exists|i: int|
        0 <= i <= s.len() - part.len() && #[trigger] s.subrange(i, i + part.len()) == part
}

proof fn lemma_has_part(before: Seq<char>, part: Seq<char>, after: Seq<char>, s: Seq<char>)
    requires
        s == before + part + after,
    ensures
        has_part(s, part),
{
    let i = before.len() as int;
    assert(s.subrange(i, i + part.len()) =~= part);
}

/// A ban's message names the evidence: the address, the number and kind of the offenses, the
/// end of the ban, the reason, the file or else the container that the evidence came from, and
/// the line that triggered the ban, as far as these are known.
pub proof fn law_message_names_the_evidence(
    offense: OffenseModel,
    offense_count: int,
    until: Seq<char>,
)
    ensures
        ({
            let message = ban_message(offense, offense_count, until);
            &&& has_part(message, offense.ip_address)
            &&& has_part(
                message,
                " after "@ + decimal_text(offense_count) + " "@ + offense.source_type
                    + " offenses"@,
            )
            &&& has_part(message, until)
            &&& has_part(message, offense.reason)
            &&& offense.source_path matches Some(path) ==> has_part(message, path)
            &&& offense.source_path is None ==> (offense.container_id matches Some(id)
                ==> has_part(message, "container "@ + prefix(id, SHORT_ID_LEN as int)))
            &&& offense.sample_line matches Some(line) ==> has_part(message, shown_sample(line))
        }),
{
    let m = ban_message(offense, offense_count, until);
    let ip = offense.ip_address;
    let count = decimal_text(offense_count);
    let kind = offense.source_type;
    let src = source_note(offense);
    let sample = sample_note(offense);
    let reason = " | Reason: "@ + offense.reason + sample;
    let start = "Blocked IP "@;
    let counted = " after "@ + count + " "@ + kind;
    let until_words = " offenses (until "@;
    let head = start + ip + counted + until_words + until + ")"@ + src;
    assert(m =~= head + reason);
    assert(has_part(m, ip)) by {
        let after = counted + until_words + until + ")"@ + src + reason;
        assert(m =~= start + ip + after);
        lemma_has_part(start, ip, after, m);
    }
    assert(has_part(m, counted + " offenses"@)) by {
        reveal_strlit(" offenses (until ");
        reveal_strlit(" offenses");
        let until_rest = until_words.skip(9);
        assert(until_words =~= " offenses"@ + until_rest);
        let after = until_rest + until + ")"@ + src + reason;
        assert(m =~= (start + ip) + (counted + " offenses"@) + after);
        lemma_has_part(start + ip, counted + " offenses"@, after, m);
    }
    assert(has_part(m, until)) by {
        let before = start + ip + counted + until_words;
        let after = ")"@ + src + reason;
        assert(m =~= before + until + after);
        lemma_has_part(before, until, after, m);
    }
    assert(has_part(m, offense.reason)) by {
        let before = head + " | Reason: "@;
        assert(m =~= before + offense.reason + sample);
        lemma_has_part(before, offense.reason, sample, m);
    }
    let front = start + ip + counted + until_words + until + ")"@;
    if let Some(path) = offense.source_path {
        assert(m =~= (front + " — Source: "@) + path + reason);
        lemma_has_part(front + " — Source: "@, path, reason, m);
    } else if let Some(id) = offense.container_id {
        let shown = "container "@ + prefix(id, SHORT_ID_LEN as int);
        assert(has_part(m, shown)) by {
            reveal_strlit(" — Source: container ");
            reveal_strlit("container ");
            let lead = " — Source: container "@.take(11);
            assert(" — Source: container "@ =~= lead + "container "@);
            assert(m =~= (front + lead) + shown + reason);
            lemma_has_part(front + lead, shown, reason, m);
        }
    }
    if let Some(line) = offense.sample_line {
        let before = head + " | Reason: "@ + offense.reason + " | Sample: "@;
        assert(m =~= before + shown_sample(line) + seq![]);
        lemma_has_part(before, shown_sample(line), seq![], m);
    }
}

/// However long the sample line is, it adds no more than a fixed number of characters to the
/// message, and a line that is cut off ends in an ellipsis.
pub proof fn law_sample_is_bounded(offense: OffenseModel, offense_count: int, until: Seq<char>)
    ensures
        ({
            let message = ban_message(offense, offense_count, until);
            let without = ban_message(
                OffenseModel { sample_line: None, ..offense },
                offense_count,
                until,
            );
            &&& message.len() <= without.len() + " | Sample: "@.len() + SAMPLE_LIMIT + 1
            &&& offense.sample_line matches Some(line) ==> trim(line, CharClass::WhiteSpace).len()
                > SAMPLE_LIMIT ==> message.last() == '…'
        }),
{
}

} // verus!
