//! The spool: what is written for a message, when it is tried again, and when it is given up.

use vstd::arithmetic::mul::*;
use vstd::arithmetic::power2::*;
use vstd::prelude::*;

use crate::cloudflare::{self, DeliveryDecision};
use crate::config::{self, QueueConfig};
use crate::text;

verus! {

/// A spooled message.
#[derive(Debug, Clone)]
pub struct QueueEnvelope {
    pub id: String,
    pub envelope_from: String,
    pub recipients: Vec<String>,
    pub raw_mime_b64: String,
    pub attempt_count: u32,
    pub next_attempt_at: u64,
    pub last_error: Option<String>,
    pub created_at: u64,
}

/// A spooled message, in terms of text and numbers.
pub struct EnvelopeModel {
    pub id: Seq<char>,
    pub envelope_from: Seq<char>,
    pub recipients: Seq<Seq<char>>,
    pub raw_mime_b64: Seq<char>,
    pub attempt_count: nat,
    pub next_attempt_at: nat,
    pub last_error: Option<Seq<char>>,
    pub created_at: nat,
}

impl View for QueueEnvelope {
    type V = EnvelopeModel;

    open spec fn view(&self) -> EnvelopeModel {
        EnvelopeModel {
            id: self.id@,
            envelope_from: self.envelope_from@,
            recipients: text::texts(self.recipients@),
            raw_mime_b64: self.raw_mime_b64@,
            attempt_count: self.attempt_count as nat,
            next_attempt_at: self.next_attempt_at as nat,
            last_error: text::optional_text(self.last_error),
            created_at: self.created_at as nat,
        }
    }
}

/// What `base64`'s standard engine encodes bytes to.
pub uninterp spec fn base64_encoding(bytes: Seq<u8>) -> Seq<char>;

/// What `base64`'s standard engine decodes a text to, where it does.
pub uninterp spec fn base64_decoding(encoded: Seq<char>) -> Option<Seq<u8>>;

/// The error of `base64`'s decoding.
#[verifier::external_type_specification]
#[verifier::external_body]
pub struct ExDecodeError(base64::DecodeError);

/// The length of the base64 text of `len` bytes: four characters for each group of three bytes,
/// and for a last group that is not full.
pub open spec fn base64_len(len: nat) -> nat {
    (len + 2) / 3 * 4
}

/// `base64::engine::general_purpose::STANDARD.encode`: gives the base64 text of the bytes, which
/// decodes to them again. The text must fit into memory.
#[verifier::external_body]
fn encode_base64(bytes: &[u8]) -> (encoded: String)
    requires
        base64_len(bytes@.len()) <= isize::MAX,
    ensures
        encoded@ == base64_encoding(bytes@),
        base64_decoding(encoded@) == Some(bytes@),
{
    base64::Engine::encode(&base64::engine::general_purpose::STANDARD, bytes)
}

/// `base64::engine::general_purpose::STANDARD.decode`: gives the bytes that a base64 text stands
/// for, or an error where it stands for none.
#[verifier::external_body]
fn decode_base64(encoded: &str) -> (res: Result<Vec<u8>, base64::DecodeError>)
    ensures
        res is Ok == base64_decoding(encoded@) is Some,
        res matches Ok(bytes) ==> base64_decoding(encoded@) == Some(bytes@),
{
    base64::Engine::decode(&base64::engine::general_purpose::STANDARD, encoded.as_bytes())
}

/// A spooled message whose text is not base64.
#[derive(Debug, Clone, Copy, PartialEq, Eq, Structural)]
pub struct UndecodableMessage;

impl QueueEnvelope {
    /// The raw message.
    pub fn raw_mime(&self) -> (res: Result<Vec<u8>, UndecodableMessage>)
        ensures
            match base64_decoding(self@.raw_mime_b64) {
                Some(bytes) => res matches Ok(got) && got@ == bytes,
                None => res == Err::<Vec<u8>, UndecodableMessage>(UndecodableMessage),
            },
    {
        match decode_base64(self.raw_mime_b64.as_str()) {
            Ok(bytes) => Ok(bytes),
            Err(_) => Err(UndecodableMessage),
        }
    }
}

/// The spool of one relay: its settings, its directories, and the number of the next message that
/// it accepts.
#[derive(Debug)]
pub struct QueueStore {
    pub config: QueueConfig,
    pub pending_dir: String,
    pub dead_dir: String,
    pub sequence: u64,
}

/// A file of the spool that is written under another name first and then renamed.
pub struct SpoolWrite {
    pub envelope: QueueEnvelope,
    pub tmp_path: String,
    pub path: String,
}

/// What becomes of a pending message after an attempt to deliver it.
pub enum SpoolAction {
    /// Its file is removed: it has been delivered.
    Remove { path: String },
    /// Its file is written anew: it is tried again later.
    Rewrite(SpoolWrite),
    /// It is written to the dead letters, and its file is removed.
    Bury { envelope: QueueEnvelope, path: String, dead_path: String },
}

/// Whether a file name of the pending directory is that of a spooled message: `.json` stands at
/// its end, and something before that.
pub open spec fn is_spool_name(file_name: Seq<char>) -> bool {
    file_name.len() > 5 && file_name.skip(file_name.len() - 5) == ".json"@
}

/// A file name without its extension: without its last dot and what follows it, unless the name
/// starts with that dot or has none.
pub open spec fn file_stem(file_name: Seq<char>) -> Seq<char> {
    let stem_len = file_name.len() - text::after_last(file_name, '.').len() - 1;
    if file_name.contains('.') && stem_len > 0 {
        file_name.take(stem_len)
    } else {
        file_name
    }
}

/// The name under which a spool file is written before it is renamed.
pub open spec fn tmp_name(file_name: Seq<char>) -> Seq<char> {
    file_stem(file_name) + ".tmp"@
}

/// The number of times that the first wait is doubled: once with each attempt after the first, and no
/// more than sixteen times.
pub open spec fn doublings(attempt_count: nat) -> nat {
    if attempt_count <= 1 {
        0
    } else if attempt_count >= 17 {
        16
    } else {
        (attempt_count - 1) as nat
    }
}

/// The seconds to wait after an attempt: the first wait, doubled, and at most the longest wait.
pub open spec fn backoff(config: config::QueueConfigModel, attempt_count: nat) -> nat {
    let wait = config.backoff_initial_secs * pow2(doublings(attempt_count));
    if wait <= config.backoff_max_secs {
        wait
    } else {
        config.backoff_max_secs
    }
}

/// The envelope of a message that has been accepted, given the base64 text of the message.
pub open spec fn accepted_envelope(
    id: Seq<char>,
    now: nat,
    envelope_from: Seq<char>,
    recipients: Seq<Seq<char>>,
    raw_mime_b64: Seq<char>,
) -> EnvelopeModel {
    EnvelopeModel {
        id,
        envelope_from,
        recipients,
        raw_mime_b64,
        attempt_count: 0,
        next_attempt_at: now,
        last_error: None,
        created_at: now,
    }
}

/// The seconds that the worker waits before it looks for the next message.
pub open spec fn worker_pause(poll_interval_secs: nat, dealt_with_one: bool) -> nat {
    if dealt_with_one {
        0
    } else {
        poll_interval_secs
    }
}

/// What becomes of a message after an attempt to deliver it.
pub enum Fate {
    /// It has left the spool.
    Delivered,
    /// It stays pending, to be tried again.
    Pending(EnvelopeModel),
    /// It is given up.
    Dead(EnvelopeModel),
}

/// One more attempt is counted and the reason noted; the message is given up when it has had all
/// its attempts, and waits for the next one otherwise.
pub open spec fn retried(
    config: config::QueueConfigModel,
    envelope: EnvelopeModel,
    reason: Seq<char>,
    now: nat,
) -> Fate {
    let counted = EnvelopeModel {
        attempt_count: envelope.attempt_count + 1,
        last_error: Some(reason),
        ..envelope
    };
    if counted.attempt_count >= config.max_attempts {
        Fate::Dead(counted)
    } else {
        Fate::Pending(
            EnvelopeModel {
                next_attempt_at: now + backoff(config, counted.attempt_count),
                ..counted
            },
        )
    }
}

/// What becomes of a message that is given up.
pub open spec fn buried(envelope: EnvelopeModel, reason: Seq<char>) -> EnvelopeModel {
    EnvelopeModel { last_error: Some(reason), ..envelope }
}

/// What an attempt came to: a decision, or the words of the error that stood in its way.
pub open spec fn attempt_view(outcome: Result<DeliveryDecision, String>) -> Result<
    cloudflare::DecisionModel,
    Seq<char>,
> {
    match outcome {
        Ok(decision) => Ok(decision@),
        Err(error) => Err(error@),
    }
}

/// What becomes of a message after an attempt: it leaves the spool when delivered, is given up on
/// a permanent failure, and is retried on a transient failure or an error.
pub open spec fn fate(
    config: config::QueueConfigModel,
    envelope: EnvelopeModel,
    outcome: Result<cloudflare::DecisionModel, Seq<char>>,
    now: nat,
) -> Fate {
    match outcome {
        Ok(cloudflare::DecisionModel::Delivered) => Fate::Delivered,
        Ok(cloudflare::DecisionModel::Retry(reason)) => retried(config, envelope, reason, now),
        Ok(cloudflare::DecisionModel::Dead(reason)) => Fate::Dead(buried(envelope, reason)),
        Err(error) => retried(config, envelope, error, now),
    }
}

/// Whether the numbers of a message after an attempt still fit.
pub open spec fn fits(fate: Fate) -> bool {
    match fate {
        Fate::Delivered => true,
        Fate::Pending(envelope) => envelope.attempt_count <= u32::MAX && envelope.next_attempt_at
            <= u64::MAX,
        Fate::Dead(envelope) => envelope.attempt_count <= u32::MAX,
    }
}

impl QueueStore {
    /// The directories are those of the spool.
    pub open spec fn wf(self) -> bool {
        &&& self.pending_dir@ == text::joined_path(self.config@.spool_dir, "pending"@)
        &&& self.dead_dir@ == text::joined_path(self.config@.spool_dir, "dead"@)
    }

    /// The spool of a configuration, which has accepted nothing yet.
    pub fn new(config: QueueConfig) -> (store: QueueStore)
        ensures
            store.wf(),
            store.config == config,
            store.sequence == 1,
    {
        let pending_dir = text::join_path(config.spool_dir.as_str(), "pending");
        let dead_dir = text::join_path(config.spool_dir.as_str(), "dead");
        QueueStore { config, pending_dir, dead_dir, sequence: 1 }
    }

    /// The path of the file of a pending message.
    pub fn pending_path(&self, id: &str) -> (path: String)
        ensures
            path@ == text::joined_path(self.pending_dir@, id@ + ".json"@),
    {
        let mut name = id.to_owned();
        name.append(".json");
        text::join_path(self.pending_dir.as_str(), name.as_str())
    }

    /// Makes the id of the next message.
    pub fn next_id(&mut self, now: u64, process_id: u32) -> (id: String)
        ensures
            id@ == id_text(now as nat, process_id as nat, old(self).sequence as nat),
            final(self).sequence == next_sequence(old(self).sequence),
            final(self).config == old(self).config,
            final(self).pending_dir == old(self).pending_dir,
            final(self).dead_dir == old(self).dead_dir,
    {
        proof {
            reveal_strlit("-");
        }
        let mut id = String::new();
        text::append_decimal(&mut id, now);
        id.append("-");
        text::append_decimal(&mut id, process_id as u64);
        id.append("-");
        text::append_decimal(&mut id, self.sequence);
        self.sequence = if self.sequence == u64::MAX {
            0
        } else {
            self.sequence + 1
        };
        id
    }

    /// What is written for a message that has been accepted.
    pub fn enqueue(
        &mut self,
        now: u64,
        process_id: u32,
        envelope_from: String,
        recipients: Vec<String>,
        raw_mime: &[u8],
    ) -> (write: SpoolWrite)
        requires
            base64_len(raw_mime@.len()) <= isize::MAX,
        ensures
            write.envelope@ == (EnvelopeModel {
                id: id_text(now as nat, process_id as nat, old(self).sequence as nat),
                envelope_from: envelope_from@,
                recipients: text::texts(recipients@),
                raw_mime_b64: base64_encoding(raw_mime@),
                attempt_count: 0,
                next_attempt_at: now as nat,
                last_error: None,
                created_at: now as nat,
            }),
            base64_decoding(write.envelope@.raw_mime_b64) == Some(raw_mime@),
            write.envelope@ == accepted_envelope(
                id_text(now as nat, process_id as nat, old(self).sequence as nat),
                now as nat,
                envelope_from@,
                text::texts(recipients@),
                base64_encoding(raw_mime@),
            ),
            write.tmp_path@ == text::joined_path(
                old(self).pending_dir@,
                write.envelope@.id + ".tmp"@,
            ),
            write.path@ == text::joined_path(
                old(self).pending_dir@,
                write.envelope@.id + ".json"@,
            ),
            final(self).sequence == next_sequence(old(self).sequence),
            final(self).config == old(self).config,
            final(self).pending_dir == old(self).pending_dir,
            final(self).dead_dir == old(self).dead_dir,
    {
        let id = self.next_id(now, process_id);
        let path = self.pending_path(id.as_str());
        let mut name = id.clone();
        name.append(".tmp");
        let tmp_path = text::join_path(self.pending_dir.as_str(), name.as_str());
        let envelope = QueueEnvelope {
            id,
            envelope_from,
            recipients,
            raw_mime_b64: encode_base64(raw_mime),
            attempt_count: 0,
            next_attempt_at: now,
            last_error: None,
            created_at: now,
        };
        SpoolWrite { envelope, tmp_path, path }
    }

    /// The seconds to wait after an attempt.
    pub fn backoff_seconds(&self, attempt_count: u32) -> (secs: u64)
        ensures
            secs == backoff(self.config@, attempt_count as nat),
    {
        let doublings: u32 = if attempt_count <= 1 {
            0
        } else if attempt_count >= 17 {
            16
        } else {
            attempt_count - 1
        };
        let mut factor: u64 = 1;
        let mut i: u32 = 0;
        proof {
            lemma2_to64();
        }
        while i < doublings
            invariant
                i <= doublings <= 16,
                factor == pow2(i as nat),
                factor <= 65536,
            decreases doublings - i,
        {
            proof {
                lemma2_to64();
                lemma_pow2_unfold((i + 1) as nat);
                lemma_pow2_strictly_increases(i as nat, 16);
            }
            factor = factor * 2;
            i += 1;
        }
        match self.config.backoff_initial_secs.checked_mul(factor) {
            Some(wait) => if wait <= self.config.backoff_max_secs {
                wait
            } else {
                self.config.backoff_max_secs
            },
            None => self.config.backoff_max_secs,
        }
    }

    /// Whether an action brings the file of a message to the state that its fate asks for.
    pub open spec fn carries_out(self, action: SpoolAction, file_name: Seq<char>, fate: Fate) -> bool {
        let pending = text::joined_path(self.pending_dir@, file_name);
        match fate {
            Fate::Delivered => action matches SpoolAction::Remove { path } && path@ == pending,
            Fate::Pending(envelope) => action matches SpoolAction::Rewrite(write)
                && write.envelope@ == envelope && write.path@ == pending && write.tmp_path@
                == text::joined_path(self.pending_dir@, tmp_name(file_name)),
            Fate::Dead(envelope) => action matches SpoolAction::Bury {
                envelope: got,
                path,
                dead_path,
            } && got@ == envelope && path@ == pending && dead_path@ == text::joined_path(
                self.dead_dir@,
                file_name,
            ),
        }
    }

    /// Gives a message up: it goes to the dead letters under the name of its file.
    pub fn move_to_dead(&self, file_name: &str, envelope: QueueEnvelope, reason: &str) -> (action:
        SpoolAction)
        ensures
            self.carries_out(action, file_name@, Fate::Dead(buried(envelope@, reason@))),
    {
        let mut envelope = envelope;
        envelope.last_error = Some(reason.to_owned());
        SpoolAction::Bury {
            envelope,
            path: text::join_path(self.pending_dir.as_str(), file_name),
            dead_path: text::join_path(self.dead_dir.as_str(), file_name),
        }
    }

    /// Writes a pending message anew.
    pub fn rewrite_pending(&self, file_name: &str, envelope: QueueEnvelope) -> (action: SpoolAction)
        ensures
            self.carries_out(action, file_name@, Fate::Pending(envelope@)),
    {
        let stem = match text::rsplit_once_char(file_name, '.') {
            Some((before, after)) => {
                proof {
                    text::lemma_after_last(before@, '.', after@);
                    assert(file_name@.take(before@.len() as int) =~= before@);
                }
                if before.is_empty() {
                    file_name
                } else {
                    before
                }
            },
            None => file_name,
        };
        let mut tmp = stem.to_owned();
        tmp.append(".tmp");
        SpoolAction::Rewrite(
            SpoolWrite {
                envelope,
                tmp_path: text::join_path(self.pending_dir.as_str(), tmp.as_str()),
                path: text::join_path(self.pending_dir.as_str(), file_name),
            },
        )
    }

    /// Counts a failed attempt, and retries the message later or gives it up.
    pub fn mark_retry(&self, file_name: &str, envelope: QueueEnvelope, reason: &str, now: u64) -> (
    action: SpoolAction)
        requires
            fits(retried(self.config@, envelope@, reason@, now as nat)),
        ensures
            self.carries_out(
                action,
                file_name@,
                retried(self.config@, envelope@, reason@, now as nat),
            ),
    {
        let mut envelope = envelope;
        envelope.attempt_count = envelope.attempt_count + 1;
        envelope.last_error = Some(reason.to_owned());
        if envelope.attempt_count >= self.config.max_attempts {
            return self.move_to_dead(file_name, envelope, reason);
        }
        envelope.next_attempt_at = now + self.backoff_seconds(envelope.attempt_count);
        self.rewrite_pending(file_name, envelope)
    }

    /// Decides what is done with a message after an attempt to deliver it.
    pub fn settle_attempt(
        &self,
        file_name: &str,
        envelope: QueueEnvelope,
        outcome: Result<DeliveryDecision, String>,
        now: u64,
    ) -> (action: SpoolAction)
        requires
            fits(fate(self.config@, envelope@, attempt_view(outcome), now as nat)),
        ensures
            self.carries_out(
                action,
                file_name@,
                fate(self.config@, envelope@, attempt_view(outcome), now as nat),
            ),
    {
        match outcome {
            Ok(DeliveryDecision::Delivered) => SpoolAction::Remove {
                path: text::join_path(self.pending_dir.as_str(), file_name),
            },
            Ok(DeliveryDecision::Retry(reason)) => self.mark_retry(
                file_name,
                envelope,
                reason.as_str(),
                now,
            ),
            Ok(DeliveryDecision::Dead(reason)) => self.move_to_dead(
                file_name,
                envelope,
                reason.as_str(),
            ),
            Err(error) => self.mark_retry(file_name, envelope, error.as_str(), now),
        }
    }

    /// The seconds that the worker waits before it looks for the next message: none after it has
    /// dealt with one.
    pub fn worker_pause_secs(&self, dealt_with_one: bool) -> (secs: u64)
        ensures
            secs == (if dealt_with_one {
                0
            } else {
                self.config@.poll_interval_secs
            }),
            secs == worker_pause(self.config@.poll_interval_secs, dealt_with_one),
    {
        if dealt_with_one {
            0
        } else {
            self.config.poll_interval_secs
        }
    }
}

/// Whether a file name of the pending directory is that of a spooled message.
pub fn is_spool_file(file_name: &str) -> (res: bool)
    ensures
        res == is_spool_name(file_name@),
{
    let length = file_name.unicode_len();
    if length <= 5 {
        return false;
    }
    let ending = file_name.substring_char(length - 5, length);
    text::same_text(ending, ".json")
}

/// The id of a message: when, by which process and as which of its messages it was accepted.
pub open spec fn id_text(now: nat, process_id: nat, sequence: nat) -> Seq<char> {
    text::decimal(now).push('-') + (text::decimal(process_id).push('-') + text::decimal(sequence))
}

/// The number after another one; after the last one it starts over.
pub open spec fn next_sequence(sequence: u64) -> u64 {
    if sequence == u64::MAX {
        0
    } else {
        (sequence + 1) as u64
    }
}

/// The number of the message that is accepted after `accepted` others.
pub open spec fn sequence_after(sequence: u64, accepted: nat) -> u64
    decreases accepted,
{
    if accepted == 0 {
        sequence
    } else {
        next_sequence(sequence_after(sequence, (accepted - 1) as nat))
    }
}

/// A pending message and the name of its file.
pub struct PendingMessage {
    pub file_name: String,
    pub envelope: QueueEnvelope,
}

/// A pending message, in terms of text and numbers.
pub struct PendingModel {
    pub file_name: Seq<char>,
    pub envelope: EnvelopeModel,
}

impl View for PendingMessage {
    type V = PendingModel;

    open spec fn view(&self) -> PendingModel {
        PendingModel { file_name: self.file_name@, envelope: self.envelope@ }
    }
}

/// Whether a message may be tried at a time.
pub open spec fn is_due(message: PendingModel, now: nat) -> bool {
    message.envelope.next_attempt_at <= now
}

/// Whether the message at index `i` is the next one to try: it is due, no due message is due
/// before it, and of those due at the same time it was seen first.
pub open spec fn is_next_due(seen: Seq<PendingModel>, now: nat, i: int) -> bool {
    &&& 0 <= i < seen.len()
    &&& is_due(seen[i], now)
    &&& forall|k: int|
        0 <= k < seen.len() && is_due(#[trigger] seen[k], now)
            ==> seen[i].envelope.next_attempt_at <= seen[k].envelope.next_attempt_at
    &&& forall|k: int|
        0 <= k < i && is_due(#[trigger] seen[k], now) ==> seen[i].envelope.next_attempt_at
            < seen[k].envelope.next_attempt_at
}

/// Whether a message is the next one to try of those that were seen.
pub open spec fn is_next_due_message(seen: Seq<PendingModel>, now: nat, message: PendingModel) -> bool {
    exists|i: int| #[trigger] is_next_due(seen, now, i) && seen[i] == message
}

/// Whether no message may be tried at a time.
pub open spec fn none_due(seen: Seq<PendingModel>, now: nat) -> bool {
    forall|k: int| 0 <= k < seen.len() ==> !is_due(#[trigger] seen[k], now)
}

/// A scan of the pending messages for the next one to try.
pub struct DueScan {
    now: u64,
    best: Option<PendingMessage>,
    seen: Ghost<Seq<PendingModel>>,
}

impl DueScan {
    /// The time for which messages have to be due.
    pub closed spec fn now(self) -> nat {
        self.now as nat
    }

    /// The messages that have been offered, in their order.
    pub closed spec fn seen(self) -> Seq<PendingModel> {
        self.seen@
    }

    /// The best message so far is the next one to try of those that were seen.
    pub closed spec fn wf(self) -> bool {
        match self.best {
            None => none_due(self.seen@, self.now as nat),
            Some(message) => is_next_due_message(self.seen@, self.now as nat, message@),
        }
    }

    /// A scan that has seen nothing.
    pub fn new(now: u64) -> (scan: DueScan)
        ensures
            scan.wf(),
            scan.now() == now,
            scan.seen() == Seq::<PendingModel>::empty(),
    {
        DueScan { now, best: None, seen: Ghost(Seq::empty()) }
    }

    /// Shows a pending message to the scan.
    pub fn offer(&mut self, message: PendingMessage)
        requires
            old(self).wf(),
        ensures
            final(self).wf(),
            final(self).now() == old(self).now(),
            final(self).seen() == old(self).seen().push(message@),
    {
        let ghost before = self.seen@;
        let ghost now = self.now as nat;
        let ghost best_before = self.best;
        let replace = if message.envelope.next_attempt_at > self.now {
            false
        } else {
            match &self.best {
                None => true,
                Some(current) => message.envelope.next_attempt_at
                    < current.envelope.next_attempt_at,
            }
        };
        self.seen = Ghost(before.push(message@));
        let ghost after = self.seen@;
        if replace {
            self.best = Some(message);
            proof {
                assert(is_next_due(after, now, before.len() as int));
            }
        } else {
            proof {
                if let Some(current) = best_before {
                    let i = choose|i: int| #[trigger]
                        is_next_due(before, now, i) && before[i] == current@;
                    assert(is_next_due(after, now, i));
                }
            }
        }
    }

    /// The message to try next, where one is due.
    pub fn next_due_envelope(self) -> (next: Option<PendingMessage>)
        requires
            self.wf(),
        ensures
            match next {
                None => none_due(self.seen(), self.now()),
                Some(message) => is_next_due_message(self.seen(), self.now(), message@),
            },
    {
        self.best
    }
}

/// Whether two envelopes hold the same message: only what is noted about its attempts differs.
pub open spec fn same_message(a: EnvelopeModel, b: EnvelopeModel) -> bool {
    &&& a.id == b.id
    &&& a.envelope_from == b.envelope_from
    &&& a.recipients == b.recipients
    &&& a.raw_mime_b64 == b.raw_mime_b64
    &&& a.created_at == b.created_at
}

/// A message leaves the spool only when it has been delivered. After any other outcome the same
/// message is pending or among the dead letters, and says why.
pub proof fn law_only_delivered_messages_leave_the_spool(
    config: config::QueueConfigModel,
    envelope: EnvelopeModel,
    outcome: Result<cloudflare::DecisionModel, Seq<char>>,
    now: nat,
)
    ensures
        match fate(config, envelope, outcome, now) {
            Fate::Delivered => outcome == Ok::<cloudflare::DecisionModel, Seq<char>>(
                cloudflare::DecisionModel::Delivered,
            ),
            Fate::Pending(kept) => same_message(kept, envelope) && kept.last_error is Some,
            Fate::Dead(kept) => same_message(kept, envelope) && kept.last_error is Some,
        },
{
}

/// A permanent failure is not retried.
pub proof fn law_permanent_failures_are_not_retried(
    config: config::QueueConfigModel,
    envelope: EnvelopeModel,
    reason: Seq<char>,
    now: nat,
)
    ensures
        fate(config, envelope, Ok(cloudflare::DecisionModel::Dead(reason)), now) is Dead,
{
}

/// What becomes of a message after failures one after the other, each with its reason and time.
pub open spec fn after_failures(
    config: config::QueueConfigModel,
    envelope: EnvelopeModel,
    failures: Seq<(Seq<char>, nat)>,
) -> Fate
    decreases failures.len(),
{
    if failures.len() == 0 {
        Fate::Pending(envelope)
    } else {
        match after_failures(config, envelope, failures.drop_last()) {
            Fate::Pending(kept) => retried(config, kept, failures.last().0, failures.last().1),
            other => other,
        }
    }
}

/// Retrying comes to an end: a message that has attempts left is pending as long as it has had
/// fewer attempts than allowed, and then it is dead; one that has none left is dead with the next
/// failure.
pub proof fn law_retrying_ends(
    config: config::QueueConfigModel,
    envelope: EnvelopeModel,
    failures: Seq<(Seq<char>, nat)>,
)
    ensures
        match after_failures(config, envelope, failures) {
            Fate::Delivered => false,
            Fate::Pending(kept) => (failures.len() == 0 || envelope.attempt_count + failures.len()
                < config.max_attempts) && kept.attempt_count == envelope.attempt_count
                + failures.len() && same_message(kept, envelope),
            Fate::Dead(kept) => failures.len() > 0 && envelope.attempt_count + failures.len()
                >= config.max_attempts && kept.attempt_count == (if envelope.attempt_count
                < config.max_attempts {
                config.max_attempts
            } else {
                envelope.attempt_count + 1
            }) && same_message(kept, envelope),
        },
    decreases failures.len(),
{
    if failures.len() > 0 {
        law_retrying_ends(config, envelope, failures.drop_last());
    }
}

/// A wait never gets shorter with more attempts, and is never longer than the longest one; nor is
/// it shorter than the first one, where that is no longer than the longest.
pub proof fn law_waits_grow_within_bounds(config: config::QueueConfigModel, fewer: nat, more: nat)
    requires
        fewer <= more,
    ensures
        backoff(config, fewer) <= backoff(config, more) <= config.backoff_max_secs,
        config.backoff_initial_secs <= config.backoff_max_secs ==> config.backoff_initial_secs
            <= backoff(config, fewer),
{
    let f = pow2(doublings(fewer));
    let m = pow2(doublings(more));
    lemma2_to64();
    if doublings(fewer) < doublings(more) {
        lemma_pow2_strictly_increases(doublings(fewer), doublings(more));
    }
    lemma_pow2_pos(doublings(fewer));
    lemma_mul_inequality(f as int, m as int, config.backoff_initial_secs as int);
    lemma_mul_inequality(1, f as int, config.backoff_initial_secs as int);
    lemma_mul_is_commutative(f as int, config.backoff_initial_secs as int);
    lemma_mul_is_commutative(m as int, config.backoff_initial_secs as int);
}

/// A message that is retried is due once its wait is over and not before; so not at the time of
/// the failure, where the waits are not zero.
pub proof fn law_retried_messages_wait(
    config: config::QueueConfigModel,
    envelope: EnvelopeModel,
    reason: Seq<char>,
    now: nat,
    file_name: Seq<char>,
    later: nat,
)
    requires
        retried(config, envelope, reason, now) is Pending,
    ensures
        ({
            let kept = retried(config, envelope, reason, now)->Pending_0;
            let pending = PendingModel { file_name, envelope: kept };
            &&& is_due(pending, later) == (later >= now + backoff(config, kept.attempt_count))
            &&& config.backoff_initial_secs > 0 && config.backoff_max_secs > 0 ==> !is_due(
                pending,
                now,
            )
        }),
{
    let attempts = envelope.attempt_count + 1;
    lemma_pow2_pos(doublings(attempts));
    lemma_mul_inequality(
        1,
        pow2(doublings(attempts)) as int,
        config.backoff_initial_secs as int,
    );
    lemma_mul_is_commutative(
        pow2(doublings(attempts)) as int,
        config.backoff_initial_secs as int,
    );
}

/// A file that is still being written is never taken for a spooled message.
pub proof fn law_unfinished_files_are_passed_over(file_name: Seq<char>)
    ensures
        !is_spool_name(tmp_name(file_name)),
{
    reveal_strlit(".tmp");
    reveal_strlit(".json");
    let name = tmp_name(file_name);
    if name.len() > 5 {
        assert(name.skip(name.len() - 5).last() == 'p');
    }
}

/// The file of an accepted message is one that a scan looks at, and it is written under the same
/// unfinished name when it is accepted and when it is rewritten.
pub proof fn law_accepted_messages_are_scanned(id: Seq<char>)
    requires
        id.len() > 0,
    ensures
        is_spool_name(id + ".json"@),
        tmp_name(id + ".json"@) == id + ".tmp"@,
{
    reveal_strlit(".json");
    reveal_strlit("json");
    let name = id + ".json"@;
    assert(name.skip(name.len() - 5) =~= ".json"@);
    assert(name =~= id.push('.') + "json"@);
    text::lemma_after_last(id, '.', "json"@);
    assert(name[id.len() as int] == '.');
}

/// Two messages have the same id only if they were accepted at the same second, by the same
/// process, as the same one of its messages.
pub proof fn law_ids_differ(
    now_a: nat,
    process_a: nat,
    sequence_a: nat,
    now_b: nat,
    process_b: nat,
    sequence_b: nat,
)
    requires
        id_text(now_a, process_a, sequence_a) == id_text(now_b, process_b, sequence_b),
    ensures
        now_a == now_b,
        process_a == process_b,
        sequence_a == sequence_b,
{
    text::lemma_decimal_digits(now_a);
    text::lemma_decimal_digits(now_b);
    text::lemma_decimal_digits(process_a);
    text::lemma_decimal_digits(process_b);
    let rest_a = text::decimal(process_a).push('-') + text::decimal(sequence_a);
    let rest_b = text::decimal(process_b).push('-') + text::decimal(sequence_b);
    text::lemma_split_first(text::decimal(now_a), rest_a, text::decimal(now_b), rest_b, '-');
    text::lemma_split_first(
        text::decimal(process_a),
        text::decimal(sequence_a),
        text::decimal(process_b),
        text::decimal(sequence_b),
        '-',
    );
    text::lemma_decimal_injective(now_a, now_b);
    text::lemma_decimal_injective(process_a, process_b);
    text::lemma_decimal_injective(sequence_a, sequence_b);
}

proof fn lemma_sequence_after(sequence: u64, earlier: nat, later: nat)
    requires
        earlier <= later,
        later - earlier <= u64::MAX,
    ensures
        sequence_after(sequence, later) == sequence_after(sequence, earlier) + (later - earlier)
            || sequence_after(sequence, later) == sequence_after(sequence, earlier) + (later
            - earlier) - (u64::MAX + 1),
    decreases later - earlier,
{
    if earlier < later {
        lemma_sequence_after(sequence, earlier, (later - 1) as nat);
    }
}

proof fn lemma_id_starts_with_digit(now: nat, process_id: nat, sequence: nat)
    ensures
        id_text(now, process_id, sequence).len() > 0,
        id_text(now, process_id, sequence)[0] != '/',
{
    text::lemma_decimal_digits(now);
    assert(id_text(now, process_id, sequence)[0] == text::decimal(now).push('-')[0]);
}

/// Different names that are not absolute paths give different paths below the same directory.
proof fn lemma_joined_names_differ(base: Seq<char>, a: Seq<char>, b: Seq<char>, ending: Seq<char>)
    requires
        a != b,
        a.len() > 0 && a[0] != '/',
        b.len() > 0 && b[0] != '/',
    ensures
        text::joined_path(base, a + ending) != text::joined_path(base, b + ending),
{
    let path_a = text::joined_path(base, a + ending);
    let path_b = text::joined_path(base, b + ending);
    let prefix = if base.len() == 0 || base.last() == '/' {
        base
    } else {
        base.push('/')
    };
    assert(path_a == prefix + (a + ending));
    assert(path_b == prefix + (b + ending));
    if path_a == path_b {
        assert(a =~= path_a.subrange(prefix.len() as int, (prefix.len() + a.len()) as int));
        assert(b =~= path_b.subrange(prefix.len() as int, (prefix.len() + b.len()) as int));
    }
}

/// Two messages that one spool accepts have different ids and lie in different files, whenever
/// they are accepted, also within the same second; and neither is written over the other before it
/// is renamed. (The numbers start over after as many messages as there are numbers.)
pub proof fn law_accepted_messages_do_not_collide(
    pending_dir: Seq<char>,
    sequence: u64,
    earlier: nat,
    later: nat,
    now_a: nat,
    process_a: nat,
    now_b: nat,
    process_b: nat,
)
    requires
        earlier < later,
        later - earlier <= u64::MAX,
    ensures
        ({
            let a = id_text(now_a, process_a, sequence_after(sequence, earlier) as nat);
            let b = id_text(now_b, process_b, sequence_after(sequence, later) as nat);
            &&& a != b
            &&& text::joined_path(pending_dir, a + ".json"@) != text::joined_path(
                pending_dir,
                b + ".json"@,
            )
            &&& text::joined_path(pending_dir, a + ".tmp"@) != text::joined_path(
                pending_dir,
                b + ".tmp"@,
            )
        }),
{
    let number_a = sequence_after(sequence, earlier) as nat;
    let number_b = sequence_after(sequence, later) as nat;
    lemma_sequence_after(sequence, earlier, later);
    let a = id_text(now_a, process_a, number_a);
    let b = id_text(now_b, process_b, number_b);
    if a == b {
        law_ids_differ(now_a, process_a, number_a, now_b, process_b, number_b);
    }
    lemma_id_starts_with_digit(now_a, process_a, number_a);
    lemma_id_starts_with_digit(now_b, process_b, number_b);
    lemma_joined_names_differ(pending_dir, a, b, ".json"@);
    lemma_joined_names_differ(pending_dir, a, b, ".tmp"@);
}

/// The files of a spool after one was written under another name first and then renamed.
pub open spec fn files_after_write(
    files: Map<Seq<char>, EnvelopeModel>,
    tmp_path: Seq<char>,
    path: Seq<char>,
    envelope: EnvelopeModel,
) -> Map<Seq<char>, EnvelopeModel> {
    files.insert(tmp_path, envelope).remove(tmp_path).insert(path, envelope)
}

/// The files of a spool after an action was carried out.
pub open spec fn files_after_action(
    files: Map<Seq<char>, EnvelopeModel>,
    action: SpoolAction,
) -> Map<Seq<char>, EnvelopeModel> {
    match action {
        SpoolAction::Remove { path } => files.remove(path@),
        SpoolAction::Rewrite(write) => files_after_write(
            files,
            write.tmp_path@,
            write.path@,
            write.envelope@,
        ),
        SpoolAction::Bury { envelope, path, dead_path } => files.insert(
            dead_path@,
            envelope@,
        ).remove(path@),
    }
}

/// Whether the files at a path are the same before and after.
pub open spec fn same_at(
    before: Map<Seq<char>, EnvelopeModel>,
    after: Map<Seq<char>, EnvelopeModel>,
    path: Seq<char>,
) -> bool {
    before.dom().contains(path) == after.dom().contains(path) && before[path] == after[path]
}

/// An accepted message is in its file under its id when it has been written. No unfinished file is
/// left, and the file of every other pending message is as it was.
pub proof fn law_accepted_message_is_in_its_file(
    pending_dir: Seq<char>,
    files: Map<Seq<char>, EnvelopeModel>,
    envelope: EnvelopeModel,
    now: nat,
    process_id: nat,
    sequence: nat,
    other: Seq<char>,
)
    requires
        envelope.id == id_text(now, process_id, sequence),
    ensures
        ({
            let tmp_path = text::joined_path(pending_dir, envelope.id + ".tmp"@);
            let path = text::joined_path(pending_dir, envelope.id + ".json"@);
            let after = files_after_write(files, tmp_path, path, envelope);
            &&& after.dom().contains(path) && after[path] == envelope
            &&& !after.dom().contains(tmp_path)
            &&& is_spool_name(other) && other[0] != '/' && other != envelope.id + ".json"@
                ==> same_at(files, after, text::joined_path(pending_dir, other))
        }),
{
    let id = envelope.id;
    reveal_strlit(".json");
    reveal_strlit(".tmp");
    lemma_id_starts_with_digit(now, process_id, sequence);
    law_accepted_messages_are_scanned(id);
    law_unfinished_files_are_passed_over(id + ".json"@);
    let none = Seq::<char>::empty();
    assert(id + ".json"@ + none =~= id + ".json"@);
    assert(id + ".tmp"@ + none =~= id + ".tmp"@);
    lemma_joined_names_differ(pending_dir, id + ".json"@, id + ".tmp"@, none);
    if is_spool_name(other) && other[0] != '/' && other != id + ".json"@ {
        assert(other + none =~= other);
        lemma_joined_names_differ(pending_dir, id + ".json"@, other, none);
        lemma_joined_names_differ(pending_dir, id + ".tmp"@, other, none);
    }
}

/// A pending file is never a dead letter.
proof fn lemma_pending_is_not_dead(spool_dir: Seq<char>, a: Seq<char>, b: Seq<char>)
    requires
        a.len() > 0 && a[0] != '/',
        b.len() > 0 && b[0] != '/',
    ensures
        text::joined_path(text::joined_path(spool_dir, "pending"@), a) != text::joined_path(
            text::joined_path(spool_dir, "dead"@),
            b,
        ),
{
    reveal_strlit("pending");
    reveal_strlit("dead");
    let prefix = if spool_dir.len() == 0 || spool_dir.last() == '/' {
        spool_dir
    } else {
        spool_dir.push('/')
    };
    let pending_dir = text::joined_path(spool_dir, "pending"@);
    let dead_dir = text::joined_path(spool_dir, "dead"@);
    assert(pending_dir == prefix + "pending"@);
    assert(dead_dir == prefix + "dead"@);
    assert(text::joined_path(pending_dir, a)[prefix.len() as int] == 'p');
    assert(text::joined_path(dead_dir, b)[prefix.len() as int] == 'd');
}

/// After an attempt a message is where its fate says: gone from the pending ones when it has been
/// delivered, in its pending file when it is retried, in its dead letter when it is given up. The
/// file of every other pending message is as it was.
pub proof fn law_settled_messages_are_where_they_belong(
    store: QueueStore,
    files: Map<Seq<char>, EnvelopeModel>,
    file_name: Seq<char>,
    action: SpoolAction,
    fate: Fate,
    other: Seq<char>,
)
    requires
        store.wf(),
        is_spool_name(file_name) && file_name[0] != '/',
        store.carries_out(action, file_name, fate),
    ensures
        ({
            let pending = text::joined_path(store.pending_dir@, file_name);
            let dead = text::joined_path(store.dead_dir@, file_name);
            let after = files_after_action(files, action);
            &&& match fate {
                Fate::Delivered => !after.dom().contains(pending) && same_at(files, after, dead),
                Fate::Pending(envelope) => after.dom().contains(pending) && after[pending]
                    == envelope && same_at(files, after, dead) && !after.dom().contains(
                    text::joined_path(store.pending_dir@, tmp_name(file_name)),
                ),
                Fate::Dead(envelope) => !after.dom().contains(pending) && after.dom().contains(dead)
                    && after[dead] == envelope,
            }
            &&& is_spool_name(other) && other[0] != '/' && other != file_name ==> same_at(
                files,
                after,
                text::joined_path(store.pending_dir@, other),
            )
        }),
{
    reveal_strlit(".tmp");
    let tmp = tmp_name(file_name);
    let none = Seq::<char>::empty();
    law_unfinished_files_are_passed_over(file_name);
    assert(tmp[0] == file_name[0]);
    assert(file_name + none =~= file_name);
    assert(tmp + none =~= tmp);
    lemma_joined_names_differ(store.pending_dir@, file_name, tmp, none);
    let spool_dir = store.config@.spool_dir;
    lemma_pending_is_not_dead(spool_dir, file_name, file_name);
    lemma_pending_is_not_dead(spool_dir, tmp, file_name);
    if is_spool_name(other) && other[0] != '/' && other != file_name {
        assert(other + none =~= other);
        lemma_joined_names_differ(store.pending_dir@, file_name, other, none);
        lemma_joined_names_differ(store.pending_dir@, tmp, other, none);
        lemma_pending_is_not_dead(spool_dir, other, file_name);
    }
}

/// What is said of an envelope is said of what it holds: the whole message, for every recipient.
pub proof fn law_envelopes_stand_for_themselves(envelope: QueueEnvelope)
    ensures
        envelope@.id == envelope.id@,
        envelope@.envelope_from == envelope.envelope_from@,
        envelope@.recipients.len() == envelope.recipients@.len(),
        forall|k: int|
            0 <= k < envelope@.recipients.len() ==> #[trigger] envelope@.recipients[k]
                == envelope.recipients@[k]@,
        envelope@.raw_mime_b64 == envelope.raw_mime_b64@,
        envelope@.attempt_count == envelope.attempt_count,
        envelope@.next_attempt_at == envelope.next_attempt_at,
        envelope@.last_error is Some == envelope.last_error is Some,
        envelope.last_error matches Some(error) ==> envelope@.last_error == Some(error@),
        envelope@.created_at == envelope.created_at,
{
}

/// A pending message stands for its file's name and its envelope.
pub proof fn law_pending_messages_stand_for_themselves(message: PendingMessage)
    ensures
        message@.file_name == message.file_name@,
        message@.envelope == message.envelope@,
{
}

/// What an attempt came to is its decision, or the words of its error.
pub proof fn law_attempts_stand_for_themselves(decision: DeliveryDecision, error: String)
    ensures
        attempt_view(Ok(decision)) == Ok::<cloudflare::DecisionModel, Seq<char>>(decision@),
        attempt_view(Err(error)) == Err::<cloudflare::DecisionModel, Seq<char>>(error@),
{
}

/// The text of each three bytes has four characters, and so has that of a rest.
pub proof fn law_base64_text_has_four_characters_for_three_bytes(groups: nat)
    ensures
        base64_len(3 * groups) == 4 * groups,
        base64_len(3 * groups + 1) == 4 * groups + 4,
        base64_len(3 * groups + 2) == 4 * groups + 4,
{
}

/// The files of spooled messages are those that have a name before `.json`.
pub proof fn law_spool_files_end_with_json(file_name: Seq<char>)
    ensures
        is_spool_name(file_name) <==> exists|stem: Seq<char>|
            stem.len() > 0 && file_name == #[trigger] (stem + ".json"@),
{
    reveal_strlit(".json");
    if is_spool_name(file_name) {
        let stem = file_name.take(file_name.len() - 5);
        assert(file_name =~= stem + ".json"@);
    }
    if exists|stem: Seq<char>| stem.len() > 0 && file_name == #[trigger] (stem + ".json"@) {
        let stem = choose|stem: Seq<char>|
            stem.len() > 0 && file_name == #[trigger] (stem + ".json"@);
        assert(file_name.skip(file_name.len() - 5) =~= ".json"@);
    }
}

/// A file is written under its own name first, with `.tmp` in place of its extension; a name
/// without an extension, or one that is nothing but that, is kept before it.
pub proof fn law_unfinished_files_are_named_tmp(stem: Seq<char>, extension: Seq<char>)
    requires
        !extension.contains('.'),
    ensures
        stem.len() > 0 ==> tmp_name(stem.push('.') + extension) == stem + ".tmp"@,
        tmp_name(seq!['.'] + extension) == seq!['.'] + extension + ".tmp"@,
        tmp_name(extension) == extension + ".tmp"@,
{
    let name = stem.push('.') + extension;
    text::lemma_after_last(stem, '.', extension);
    assert(name[stem.len() as int] == '.');
    assert(name.take(stem.len() as int) =~= stem);
    let hidden = seq!['.'] + extension;
    let none = Seq::<char>::empty();
    assert(hidden =~= none.push('.') + extension);
    text::lemma_after_last(none, '.', extension);
}

/// The wait after the first attempt is the first wait, and after each of the next sixteen it is
/// twice the one before; never is it more than the longest. After that it stays the same.
pub proof fn law_waits_double(config: config::QueueConfigModel, attempt_count: nat)
    ensures
        backoff(config, 1) == (if config.backoff_initial_secs <= config.backoff_max_secs {
            config.backoff_initial_secs
        } else {
            config.backoff_max_secs
        }),
        backoff(config, 0) == backoff(config, 1),
        1 <= attempt_count <= 16 ==> backoff(config, attempt_count + 1) == (if 2 * backoff(
            config,
            attempt_count,
        ) <= config.backoff_max_secs {
            2 * backoff(config, attempt_count)
        } else {
            config.backoff_max_secs
        }),
        attempt_count >= 17 ==> backoff(config, attempt_count + 1) == backoff(
            config,
            attempt_count,
        ),
{
    lemma2_to64();
    let first = config.backoff_initial_secs;
    assert(first * pow2(0) == first) by {
        lemma_mul_basics(first as int);
    }
    if 1 <= attempt_count <= 16 {
        let fewer = doublings(attempt_count);
        lemma_pow2_unfold(doublings(attempt_count + 1));
        assert(pow2(doublings(attempt_count + 1)) == 2 * pow2(fewer));
        assert(first * (2 * pow2(fewer)) == 2 * (first * pow2(fewer))) by (nonlinear_arith);
    }
}

/// A failed attempt is counted, its reason noted and, while attempts are left, the next one put
/// off by the wait that belongs to the count. Nothing else about the message changes.
pub proof fn law_failed_attempts_are_counted(
    config: config::QueueConfigModel,
    envelope: EnvelopeModel,
    reason: Seq<char>,
    now: nat,
)
    ensures
        match retried(config, envelope, reason, now) {
            Fate::Delivered => false,
            Fate::Pending(kept) => {
                &&& envelope.attempt_count + 1 < config.max_attempts
                &&& kept.attempt_count == envelope.attempt_count + 1
                &&& kept.next_attempt_at == now + backoff(config, envelope.attempt_count + 1)
                &&& kept.last_error == Some(reason)
                &&& kept.id == envelope.id
                &&& kept.envelope_from == envelope.envelope_from
                &&& kept.recipients == envelope.recipients
                &&& kept.raw_mime_b64 == envelope.raw_mime_b64
                &&& kept.created_at == envelope.created_at
            },
            Fate::Dead(kept) => {
                &&& envelope.attempt_count + 1 >= config.max_attempts
                &&& kept.attempt_count == envelope.attempt_count + 1
                &&& kept.next_attempt_at == envelope.next_attempt_at
                &&& kept.last_error == Some(reason)
                &&& kept.id == envelope.id
                &&& kept.envelope_from == envelope.envelope_from
                &&& kept.recipients == envelope.recipients
                &&& kept.raw_mime_b64 == envelope.raw_mime_b64
                &&& kept.created_at == envelope.created_at
            },
        },
{
}

/// What is decided about a message is what becomes of it. A delivered one is done with; a
/// permanent failure gives it up at once, with the reason noted and no attempt counted; a
/// transient failure and an error count as a failed attempt alike.
pub proof fn law_decisions_are_carried_out(
    config: config::QueueConfigModel,
    envelope: EnvelopeModel,
    reason: Seq<char>,
    now: nat,
)
    ensures
        fate(config, envelope, Ok(cloudflare::DecisionModel::Delivered), now) is Delivered,
        fate(config, envelope, Ok(cloudflare::DecisionModel::Retry(reason)), now) == retried(
            config,
            envelope,
            reason,
            now,
        ),
        fate(config, envelope, Err(reason), now) == fate(
            config,
            envelope,
            Ok(cloudflare::DecisionModel::Retry(reason)),
            now,
        ),
        fate(config, envelope, Ok(cloudflare::DecisionModel::Dead(reason)), now) matches Fate::Dead(
            kept,
        ) && kept.last_error == Some(reason) && kept.attempt_count == envelope.attempt_count
            && kept.next_attempt_at == envelope.next_attempt_at && same_message(kept, envelope)
            && kept == buried(envelope, reason),
{
}

/// The same message is one with the same id, sender, recipients, text and time of acceptance.
pub proof fn law_same_messages_hold_the_same(a: EnvelopeModel, b: EnvelopeModel)
    ensures
        same_message(a, b) <==> (EnvelopeModel {
            attempt_count: b.attempt_count,
            next_attempt_at: b.next_attempt_at,
            last_error: b.last_error,
            ..a
        }) == b,
{
}

/// Numbers fit that are no greater than the greatest ones that a spool file can hold.
pub proof fn law_numbers_fit(envelope: EnvelopeModel)
    ensures
        fits(Fate::Delivered),
        fits(Fate::Pending(envelope)) <==> envelope.attempt_count <= u32::MAX
            && envelope.next_attempt_at <= u64::MAX,
        fits(Fate::Dead(envelope)) <==> envelope.attempt_count <= u32::MAX,
{
}

/// The directories of a spool are those that are made for it.
pub proof fn law_spools_use_the_directories_that_are_made(store: QueueStore)
    ensures
        store.wf() <==> store.pending_dir@ == config::spool_directories(
            store.config@.spool_dir,
        )[1] && store.dead_dir@ == config::spool_directories(store.config@.spool_dir)[2],
{
}

/// The numbers of accepted messages count up by one.
pub proof fn law_messages_are_counted(sequence: u64)
    ensures
        sequence < u64::MAX ==> next_sequence(sequence) == sequence + 1,
        next_sequence(u64::MAX) == 0,
{
}

/// An id is three numbers with hyphens between them: the time, the process and the message's
/// number.
pub proof fn law_ids_are_three_numbers(now: nat, process_id: nat, sequence: nat)
    ensures
        id_text(now, process_id, sequence) == text::decimal(now) + "-"@ + text::decimal(process_id)
            + "-"@ + text::decimal(sequence),
{
    reveal_strlit("-");
    assert(id_text(now, process_id, sequence) =~= text::decimal(now) + "-"@ + text::decimal(
        process_id,
    ) + "-"@ + text::decimal(sequence));
}

/// The message to try next is one whose time has come. No other whose time has come is to be tried
/// before it, and of those with the same time it is the one that was seen first.
pub proof fn law_the_message_due_first_is_next(seen: Seq<PendingModel>, now: nat, i: int, k: int)
    requires
        is_next_due(seen, now, i),
        0 <= k < seen.len(),
    ensures
        0 <= i < seen.len(),
        seen[i].envelope.next_attempt_at <= now,
        seen[i].envelope.next_attempt_at <= seen[k].envelope.next_attempt_at,
        seen[k].envelope.next_attempt_at == seen[i].envelope.next_attempt_at ==> i <= k,
        is_next_due_message(seen, now, seen[i]),
{
    assert(is_due(seen[k], now) || seen[k].envelope.next_attempt_at > now);
}

/// There is a message to try next exactly if the time of one has come.
pub proof fn law_a_due_message_is_found(seen: Seq<PendingModel>, now: nat)
    ensures
        none_due(seen, now) <==> forall|k: int|
            0 <= k < seen.len() ==> (#[trigger] seen[k]).envelope.next_attempt_at > now,
        none_due(seen, now) <==> forall|message: PendingModel|
            !#[trigger] is_next_due_message(seen, now, message),
    decreases seen.len(),
{
    if none_due(seen, now) {
        assert forall|k: int| 0 <= k < seen.len() implies (
        #[trigger] seen[k]).envelope.next_attempt_at > now by {
            assert(!is_due(seen[k], now));
        }
        assert forall|message: PendingModel| !#[trigger] is_next_due_message(
            seen,
            now,
            message,
        ) by {
            if is_next_due_message(seen, now, message) {
                let i = choose|i: int| #[trigger] is_next_due(seen, now, i) && seen[i] == message;
                assert(is_due(seen[i], now));
            }
        }
    } else {
        let i = lemma_next_due_exists(seen, now);
        assert(is_next_due_message(seen, now, seen[i]));
        let k = choose|k: int| 0 <= k < seen.len() && is_due(#[trigger] seen[k], now);
        assert(seen[k].envelope.next_attempt_at <= now);
    }
}

proof fn lemma_next_due_exists(seen: Seq<PendingModel>, now: nat) -> (i: int)
    requires
        !none_due(seen, now),
    ensures
        is_next_due(seen, now, i),
    decreases seen.len(),
{
    let before = seen.drop_last();
    let last = seen.len() - 1;
    if none_due(before, now) {
        assert forall|k: int| 0 <= k < last implies !is_due(#[trigger] seen[k], now) by {
            assert(before[k] == seen[k]);
        }
        assert(is_due(seen[last], now));
        last
    } else {
        let i = lemma_next_due_exists(before, now);
        assert forall|k: int| 0 <= k < last implies before[k] == #[trigger] seen[k] by {}
        if is_due(seen[last], now) && seen[last].envelope.next_attempt_at
            < seen[i].envelope.next_attempt_at {
            last
        } else {
            i
        }
    }
}

/// A message that has been accepted is due at once, has had no attempt and no error, and holds what
/// was accepted, for every recipient.
pub proof fn law_accepted_messages_are_due_at_once(
    id: Seq<char>,
    now: nat,
    envelope_from: Seq<char>,
    recipients: Seq<Seq<char>>,
    raw_mime_b64: Seq<char>,
    file_name: Seq<char>,
    at: nat,
)
    ensures
        ({
            let envelope = accepted_envelope(id, now, envelope_from, recipients, raw_mime_b64);
            &&& is_due(PendingModel { file_name, envelope }, at) <==> at >= now
            &&& envelope.attempt_count == 0
            &&& envelope.last_error is None
            &&& envelope.created_at == now
            &&& envelope.id == id
            &&& envelope.envelope_from == envelope_from
            &&& envelope.recipients == recipients
            &&& envelope.raw_mime_b64 == raw_mime_b64
        }),
{
}

/// The worker goes on at once after a message, and waits for the set time when there was none.
pub proof fn law_the_worker_waits_when_nothing_is_due(poll_interval_secs: nat)
    ensures
        worker_pause(poll_interval_secs, true) == 0,
        worker_pause(poll_interval_secs, false) == poll_interval_secs,
{
}

} // verus!
