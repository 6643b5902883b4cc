//! The Cloudflare side: the request that is sent for a message, and what a reply means for it.

use vstd::prelude::*;
use vstd::utf8::*;

use crate::config;
use crate::mime::{self, MimeError};
use crate::queue::{self, QueueEnvelope};
use crate::text;

verus! {

/// What an attempt to deliver a message came to.
#[derive(Debug, Clone, PartialEq, Eq)]
pub enum DeliveryDecision {
    Delivered,
    Retry(String),
    Dead(String),
}

/// A decision, in terms of text.
pub enum DecisionModel {
    Delivered,
    Retry(Seq<char>),
    Dead(Seq<char>),
}

impl View for DeliveryDecision {
    type V = DecisionModel;

    open spec fn view(&self) -> DecisionModel {
        match self {
            DeliveryDecision::Delivered => DecisionModel::Delivered,
            DeliveryDecision::Retry(reason) => DecisionModel::Retry(reason@),
            DeliveryDecision::Dead(reason) => DecisionModel::Dead(reason@),
        }
    }
}

/// The body of a request to send a raw message.
#[derive(Debug)]
pub struct SendRawRequest {
    pub from: String,
    pub recipients: Vec<String>,
    pub mime_message: String,
}

/// A reply of the service, as it was read.
#[derive(Debug)]
pub struct ApiResponse {
    pub success: bool,
    pub errors: Vec<ApiError>,
}

/// One error of a reply.
#[derive(Debug)]
pub struct ApiError {
    pub code: u32,
    pub message: String,
}

/// Why there is no decision about a message.
#[derive(Debug, Clone)]
pub enum DeliveryError {
    /// The spooled text is not base64.
    Undecodable,
    /// The message cannot be forwarded.
    Mime(MimeError),
    /// The reply to a request that succeeded cannot be read.
    UnreadableReply(String),
}

impl DeliveryError {
    /// The error in words.
    pub open spec fn text(self) -> Seq<char> {
        match self {
            DeliveryError::Undecodable => "failed to decode spooled raw MIME message"@,
            DeliveryError::Mime(e) => e.text(),
            DeliveryError::UnreadableReply(body) =>
                "failed to parse Cloudflare response body: "@ + body@,
        }
    }

    /// Says what went wrong.
    pub fn message(&self) -> (message: String)
        ensures
            message@ == self.text(),
    {
        match self {
            DeliveryError::Undecodable => "failed to decode spooled raw MIME message".to_owned(),
            DeliveryError::Mime(e) => e.message(),
            DeliveryError::UnreadableReply(body) => {
                let mut message = "failed to parse Cloudflare response body: ".to_owned();
                message.append(body.as_str());
                message
            },
        }
    }
}

/// The text that is sent of a raw message: what is forwarded of it, which has to be UTF-8.
pub open spec fn sent_message(raw: Seq<u8>) -> Result<Seq<char>, MimeError> {
    match mime::sanitized_message(raw) {
        Err(e) => Err(e),
        Ok(message) => if valid_utf8(message) {
            Ok(decode_utf8(message))
        } else {
            Err(MimeError::MessageNotUtf8)
        },
    }
}

/// Makes the text that is sent of a raw message.
pub fn sendable_message(raw: &[u8]) -> (res: Result<String, MimeError>)
    ensures
        match sent_message(raw@) {
            Ok(message) => res matches Ok(got) && got@ == message,
            Err(e) => res == Err::<String, MimeError>(e),
        },
{
    let sanitized = mime::sanitize_raw_mime_for_cloudflare(raw)?;
    match std::str::from_utf8(sanitized.as_slice()) {
        Ok(message) => {
            proof {
                encode_utf8_decode_utf8(message@);
            }
            Ok(message.to_owned())
        },
        Err(_) => Err(MimeError::MessageNotUtf8),
    }
}

/// Whether a request body sends a message for an envelope.
pub open spec fn sends(
    request: SendRawRequest,
    envelope: queue::EnvelopeModel,
    message: Seq<char>,
) -> bool {
    &&& request.from@ == envelope.envelope_from
    &&& text::texts(request.recipients@) == envelope.recipients
    &&& request.mime_message@ == message
}

/// Makes the request body for a spooled message.
pub fn build_send_raw_request(envelope: &QueueEnvelope) -> (res: Result<
    SendRawRequest,
    DeliveryError,
>)
    ensures
        match queue::base64_decoding(envelope@.raw_mime_b64) {
            None => res == Err::<SendRawRequest, DeliveryError>(DeliveryError::Undecodable),
            Some(raw) => match sent_message(raw) {
                Err(e) => res == Err::<SendRawRequest, DeliveryError>(DeliveryError::Mime(e)),
                Ok(message) => res matches Ok(request) && request.from@ == envelope@.envelope_from
                    && text::texts(request.recipients@) == envelope@.recipients
                    && request.mime_message@ == message && sends(request, envelope@, message),
            },
        },
{
    let raw = match envelope.raw_mime() {
        Ok(raw) => raw,
        Err(_) => return Err(DeliveryError::Undecodable),
    };
    let mime_message = match sendable_message(raw.as_slice()) {
        Ok(message) => message,
        Err(e) => return Err(DeliveryError::Mime(e)),
    };
    let recipients = envelope.recipients.clone();
    Ok(SendRawRequest { from: envelope.envelope_from.clone(), recipients, mime_message })
}

/// One error of a reply in words: its code and its message.
pub open spec fn api_error_text(error: ApiError) -> Seq<char> {
    text::decimal(error.code as nat) + ": "@ + error.message@
}

/// Errors in words, one after the other.
pub open spec fn listed_api_errors(errors: Seq<ApiError>) -> Seq<char>
    decreases errors.len(),
{
    if errors.len() == 0 {
        Seq::empty()
    } else if errors.len() == 1 {
        api_error_text(errors[0])
    } else {
        listed_api_errors(errors.drop_last()) + "; "@ + api_error_text(errors.last())
    }
}

/// The errors of a reply in words, also where it names none.
pub open spec fn api_errors_text(errors: Seq<ApiError>) -> Seq<char> {
    if errors.len() == 0 {
        "Cloudflare returned success=false without error details"@
    } else {
        listed_api_errors(errors)
    }
}

/// Puts the errors of a reply in words.
pub fn format_api_errors(errors: &[ApiError]) -> (res: String)
    ensures
        res@ == api_errors_text(errors@),
{
    if errors.len() == 0 {
        return "Cloudflare returned success=false without error details".to_owned();
    }
    let mut res = String::new();
    let mut i: usize = 0;
    while i < errors.len()
        invariant
            i <= errors@.len(),
            res@ == listed_api_errors(errors@.take(i as int)),
        decreases errors@.len() - i,
    {
        let ghost upto = errors@.take(i + 1);
        assert(upto.drop_last() =~= errors@.take(i as int));
        if i > 0 {
            res.append("; ");
        }
        text::append_decimal(&mut res, errors[i].code as u64);
        res.append(": ");
        res.append(errors[i].message.as_str());
        i += 1;
    }
    assert(errors@.take(i as int) =~= errors@);
    res
}

/// The last character boundary at or before `index`.
pub open spec fn last_boundary(bytes: Seq<u8>, index: int) -> int
    decreases index,
{
    if index <= 0 || is_char_boundary(bytes, index) {
        index
    } else {
        last_boundary(bytes, index - 1)
    }
}

/// A body as it is quoted: whole where it has at most 240 bytes, else its beginning, as many whole
/// characters as fit into 240 bytes, with an ellipsis.
pub open spec fn quoted_body(body: Seq<char>) -> Seq<char> {
    let bytes = encode_utf8(body);
    if bytes.len() <= 240 {
        body
    } else {
        decode_utf8(bytes.take(last_boundary(bytes, 240))) + "..."@
    }
}

/// Shortens a body for a message about it.
pub fn truncate_body(body: &str) -> (res: String)
    ensures
        res@ == quoted_body(body@),
{
    let bytes = body.as_bytes();
    if bytes.len() <= 240 {
        return body.to_owned();
    }
    let mut cut: usize = 240;
    proof {
        encode_utf8_valid_utf8(body@);
    }
    while !body.is_char_boundary(cut)
        invariant
            cut <= 240 < bytes@.len(),
            bytes@ == encode_utf8(body@),
            valid_utf8(bytes@),
            last_boundary(bytes@, 240) == last_boundary(bytes@, cut as int),
        decreases cut,
    {
        cut -= 1;
    }
    let (beginning, _) = body.split_at(cut);
    proof {
        encode_utf8_decode_utf8(beginning@);
    }
    let mut res = beginning.to_owned();
    res.append("...");
    res
}

/// How `reqwest` writes a status: its number and what it is called.
pub uninterp spec fn status_display(status: u16) -> Seq<char>;

/// `reqwest::StatusCode::from_u16` and the status's `to_string`: gives the status as it is shown.
/// A number that is no status is left out.
#[verifier::external_body]
fn show_status(status: u16) -> (shown: String)
    requires
        100 <= status < 1000,
    ensures
        shown@ == status_display(status),
{
    reqwest::StatusCode::from_u16(status).unwrap().to_string()
}

/// Why a reply other than a success is not a delivery, given the status as it is shown.
pub open spec fn http_failure(shown_status: Seq<char>, body: Seq<char>) -> Seq<char> {
    "Cloudflare HTTP "@ + shown_status + ": "@ + quoted_body(body)
}

/// Says why a reply other than a success is not a delivery.
pub fn describe_http_failure(shown_status: &str, body: &str) -> (reason: String)
    ensures
        reason@ == http_failure(shown_status@, body@),
{
    let mut reason = "Cloudflare HTTP ".to_owned();
    reason.append(shown_status);
    reason.append(": ");
    reason.append(truncate_body(body).as_str());
    reason
}

/// What sending a request came to.
#[derive(Debug)]
pub enum SendOutcome {
    /// No reply came; the text says why.
    Failed(String),
    /// A reply came: its status, its body, and what the body reads as, where it can be read.
    Replied { status: u16, body: String, parsed: Option<ApiResponse> },
}

impl SendOutcome {
    /// A reply has the number of a status.
    pub open spec fn wf(self) -> bool {
        self matches SendOutcome::Replied { status, .. } ==> 100 <= status < 1000
    }
}

/// Whether a status asks to try again: too many requests, or an error of the server.
pub open spec fn is_transient_status(status: u16) -> bool {
    status == 429 || 500 <= status < 600
}

/// Whether a status is a success.
pub open spec fn is_success_status(status: u16) -> bool {
    200 <= status < 300
}

/// Whether an error of a reply asks to try again.
pub open spec fn is_transient_error(error: ApiError) -> bool {
    error.code == 10004
}

/// Whether a reply has an error that asks to try again.
pub open spec fn has_transient_error(errors: Seq<ApiError>) -> bool {
    exists|k: int| 0 <= k < errors.len() && is_transient_error(#[trigger] errors[k])
}

/// What a reply that was read means.
pub open spec fn api_decision(response: ApiResponse) -> DecisionModel {
    if response.success {
        DecisionModel::Delivered
    } else if has_transient_error(response.errors@) {
        DecisionModel::Retry(api_errors_text(response.errors@))
    } else {
        DecisionModel::Dead(api_errors_text(response.errors@))
    }
}

/// What the outcome of sending means for the message; nothing where a success cannot be read.
pub open spec fn delivery_decision(outcome: SendOutcome) -> Option<DecisionModel> {
    match outcome {
        SendOutcome::Failed(reason) => Some(DecisionModel::Retry(reason@)),
        SendOutcome::Replied { status, body, parsed } => if is_transient_status(status) {
            Some(DecisionModel::Retry(http_failure(status_display(status), body@)))
        } else if !is_success_status(status) {
            Some(DecisionModel::Dead(http_failure(status_display(status), body@)))
        } else {
            match parsed {
                Some(response) => Some(api_decision(response)),
                None => None,
            }
        },
    }
}

/// Decides what a reply that was read means.
pub fn decide_api_response(response: &ApiResponse) -> (decision: DeliveryDecision)
    ensures
        decision@ == api_decision(*response),
{
    if response.success {
        return DeliveryDecision::Delivered;
    }
    let errors = response.errors.as_slice();
    let mut i: usize = 0;
    while i < errors.len()
        invariant
            errors@ == response.errors@,
            !response.success,
            i <= errors@.len(),
            forall|k: int| 0 <= k < i ==> !is_transient_error(#[trigger] errors@[k]),
        decreases errors@.len() - i,
    {
        if errors[i].code == 10004 {
            return DeliveryDecision::Retry(format_api_errors(errors));
        }
        i += 1;
    }
    DeliveryDecision::Dead(format_api_errors(errors))
}

/// Decides what the outcome of sending means for the message.
pub fn decide_delivery(outcome: SendOutcome) -> (res: Result<DeliveryDecision, DeliveryError>)
    requires
        outcome.wf(),
    ensures
        match delivery_decision(outcome) {
            Some(decision) => res matches Ok(got) && got@ == decision,
            None => outcome matches SendOutcome::Replied { body, .. } && res == Err::<
                DeliveryDecision,
                DeliveryError,
            >(DeliveryError::UnreadableReply(body)),
        },
{
    match outcome {
        SendOutcome::Failed(reason) => Ok(DeliveryDecision::Retry(reason)),
        SendOutcome::Replied { status, body, parsed } => {
            if status == 429 || (500 <= status && status < 600) {
                let reason = describe_http_failure(show_status(status).as_str(), body.as_str());
                return Ok(DeliveryDecision::Retry(reason));
            }
            if status < 200 || status >= 300 {
                let reason = describe_http_failure(show_status(status).as_str(), body.as_str());
                return Ok(DeliveryDecision::Dead(reason));
            }
            match parsed {
                Some(response) => Ok(decide_api_response(&response)),
                None => Err(DeliveryError::UnreadableReply(body)),
            }
        },
    }
}

/// The account at the service, and the token that stands for it.
#[derive(Clone)]
pub struct CloudflareClient {
    pub account_id: String,
    pub api_token: String,
}

/// A request that is to be sent.
#[derive(Debug)]
pub struct DeliveryRequest {
    pub url: String,
    pub bearer_token: String,
    pub body: SendRawRequest,
}

impl CloudflareClient {
    /// A client for an account.
    pub fn new(account_id: String, api_token: String) -> (client: CloudflareClient)
        ensures
            client.account_id == account_id,
            client.api_token == api_token,
    {
        CloudflareClient { account_id, api_token }
    }

    /// The address that raw messages of the account are posted to.
    pub open spec fn send_raw_url(self) -> Seq<char> {
        "https://api.cloudflare.com/client/v4/accounts/"@ + self.account_id@
            + "/email/sending/send_raw"@
    }

    /// Makes the request that delivers a spooled message.
    pub fn prepare_delivery(&self, envelope: &QueueEnvelope) -> (res: Result<
        DeliveryRequest,
        DeliveryError,
    >)
        ensures
            match queue::base64_decoding(envelope@.raw_mime_b64) {
                None => res == Err::<DeliveryRequest, DeliveryError>(DeliveryError::Undecodable),
                Some(raw) => match sent_message(raw) {
                    Err(e) => res == Err::<DeliveryRequest, DeliveryError>(DeliveryError::Mime(e)),
                    Ok(message) => res matches Ok(request) && request.url@ == self.send_raw_url()
                        && request.bearer_token@ == self.api_token@ && request.body.from@
                        == envelope@.envelope_from && text::texts(request.body.recipients@)
                        == envelope@.recipients && request.body.mime_message@ == message && sends(
                        request.body,
                        envelope@,
                        message,
                    ),
                },
            },
    {
        let body = build_send_raw_request(envelope)?;
        let mut url = "https://api.cloudflare.com/client/v4/accounts/".to_owned();
        url.append(self.account_id.as_str());
        url.append("/email/sending/send_raw");
        Ok(DeliveryRequest { url, bearer_token: self.api_token.clone(), body })
    }
}

/// A message is tried again when no reply came, when the service asks to slow down, and when it
/// has an error of its own.
pub proof fn law_transient_failures_are_retried(outcome: SendOutcome)
    requires
        outcome is Failed || (outcome matches SendOutcome::Replied { status, .. } && (status == 429
            || 500 <= status < 600)),
    ensures
        delivery_decision(outcome) matches Some(decision) && decision is Retry,
{
}

/// Any other reply that is not a success is a permanent failure.
pub proof fn law_other_refusals_are_permanent(status: u16, body: String, parsed: Option<ApiResponse>)
    requires
        status != 429,
        !(500 <= status < 600),
        !(200 <= status < 300),
    ensures
        delivery_decision(SendOutcome::Replied { status, body, parsed }) matches Some(decision)
            && decision is Dead,
{
}

/// A message counts as delivered only when the service says so in a reply that is a success.
pub proof fn law_only_a_success_delivers(outcome: SendOutcome)
    ensures
        delivery_decision(outcome) == Some(DecisionModel::Delivered) <==> (outcome matches
            SendOutcome::Replied { status, parsed: Some(response), .. } && 200 <= status < 300
            && response.success),
{
}

/// As often as a message is retried, the same message goes to the same recipients.
pub proof fn law_retries_send_the_same_message(
    config: config::QueueConfigModel,
    envelope: queue::EnvelopeModel,
    failures: Seq<(Seq<char>, nat)>,
)
    ensures
        queue::after_failures(config, envelope, failures) matches queue::Fate::Pending(kept)
            ==> kept.envelope_from == envelope.envelope_from && kept.recipients
            == envelope.recipients && queue::base64_decoding(kept.raw_mime_b64)
            == queue::base64_decoding(envelope.raw_mime_b64),
    decreases failures.len(),
{
    if failures.len() > 0 {
        law_retries_send_the_same_message(config, envelope, failures.drop_last());
    }
}

/// A decision stands for what it is and for the words of its reason.
pub proof fn law_decisions_stand_for_themselves(reason: String)
    ensures
        DeliveryDecision::Delivered@ == DecisionModel::Delivered,
        DeliveryDecision::Retry(reason)@ == DecisionModel::Retry(reason@),
        DeliveryDecision::Dead(reason)@ == DecisionModel::Dead(reason@),
{
}

/// What is sent of a message is, byte for byte, what is forwarded of it; and a message is sent
/// whenever that is UTF-8.
pub proof fn law_what_is_forwarded_is_sent(raw: Seq<u8>)
    ensures
        match sent_message(raw) {
            Ok(message) => mime::sanitized_message(raw) == Ok::<Seq<u8>, MimeError>(
                encode_utf8(message),
            ),
            Err(e) => mime::sanitized_message(raw) == Err::<Seq<u8>, MimeError>(e) || (e
                == MimeError::MessageNotUtf8 && mime::sanitized_message(raw) is Ok && !valid_utf8(
                mime::sanitized_message(raw)->Ok_0,
            )),
        },
{
    if let Ok(message) = mime::sanitized_message(raw) {
        if valid_utf8(message) {
            decode_utf8_encode_utf8(message);
        }
    }
}

/// An account's messages are posted to an address that names the account.
pub proof fn law_messages_are_posted_to_the_account(client: CloudflareClient)
    ensures
        client.send_raw_url() == "https://api.cloudflare.com/client/v4/accounts/"@
            + client.account_id@ + "/email/sending/send_raw"@,
{
}

/// A reply that was read and is no success is judged by the codes of its errors: the message is
/// tried again if any of them, at whatever place, is the one that asks for it, and given up if
/// none is. Either way the errors are the reason.
pub proof fn law_refused_messages_are_judged_by_the_codes(
    status: u16,
    body: String,
    response: ApiResponse,
)
    requires
        200 <= status < 300,
        !response.success,
    ensures
        ({
            let decision = delivery_decision(
                SendOutcome::Replied { status, body, parsed: Some(response) },
            );
            let reason = api_errors_text(response.errors@);
            &&& (exists|k: int|
                0 <= k < response.errors@.len() && (#[trigger] response.errors@[k]).code == 10004)
                ==> decision == Some(DecisionModel::Retry(reason))
            &&& (forall|k: int|
                0 <= k < response.errors@.len() ==> (#[trigger] response.errors@[k]).code != 10004)
                ==> decision == Some(DecisionModel::Dead(reason))
            &&& decision == Some(api_decision(response))
        }),
{
    if exists|k: int|
        0 <= k < response.errors@.len() && (#[trigger] response.errors@[k]).code == 10004 {
        let k = choose|k: int|
            0 <= k < response.errors@.len() && (#[trigger] response.errors@[k]).code == 10004;
        assert(is_transient_error(response.errors@[k]));
    }
}

/// A reply that was read and is a success delivers the message, whatever errors it lists.
pub proof fn law_successful_replies_deliver(response: ApiResponse)
    requires
        response.success,
    ensures
        api_decision(response) == DecisionModel::Delivered,
{
}

/// A decision that is no delivery says why: with the words of the error where no reply came, and
/// with the status and the beginning of the body where a reply came that is no success.
pub proof fn law_failures_say_why(
    reason: String,
    status: u16,
    body: String,
    parsed: Option<ApiResponse>,
)
    ensures
        delivery_decision(SendOutcome::Failed(reason)) == Some(DecisionModel::Retry(reason@)),
        ({
            let decision = delivery_decision(SendOutcome::Replied { status, body, parsed });
            let why = "Cloudflare HTTP "@ + status_display(status) + ": "@ + quoted_body(body@);
            &&& status == 429 || 500 <= status < 600 ==> decision == Some(DecisionModel::Retry(why))
            &&& !(status == 429 || 500 <= status < 600 || 200 <= status < 300) ==> decision == Some(
                DecisionModel::Dead(why),
            )
            &&& decision is None <==> 200 <= status < 300 && parsed is None
            &&& http_failure(status_display(status), body@) == why
        }),
{
}

/// Every number that a status can have is one that is decided about.
pub proof fn law_statuses_have_three_digits(
    status: u16,
    body: String,
    parsed: Option<ApiResponse>,
    reason: String,
)
    ensures
        SendOutcome::Failed(reason).wf(),
        (SendOutcome::Replied { status, body, parsed }).wf() <==> 100 <= status <= 999,
{
}

/// The errors of a reply are all put in words, in their order: one is its code and its message, and
/// a list is that of its first part and that of the rest with a semicolon between them.
pub proof fn law_errors_are_all_listed(first: Seq<ApiError>, rest: Seq<ApiError>, error: ApiError)
    ensures
        api_errors_text(seq![error]) == text::decimal(error.code as nat) + ": "@ + error.message@,
        api_errors_text(Seq::empty())
            == "Cloudflare returned success=false without error details"@,
        first.len() > 0 && rest.len() > 0 ==> api_errors_text(first + rest) == api_errors_text(
            first,
        ) + "; "@ + api_errors_text(rest),
    decreases rest.len(),
{
    assert(seq![error][0] == error);
    if first.len() > 0 && rest.len() > 0 {
        let all = first + rest;
        assert(all.last() == rest.last());
        assert(all.drop_last() =~= first + rest.drop_last());
        if rest.len() == 1 {
            assert(all.drop_last() =~= first);
        } else {
            law_errors_are_all_listed(first, rest.drop_last(), error);
            assert(api_errors_text(all) =~= api_errors_text(first) + "; "@ + api_errors_text(rest));
        }
    }
}

/// A body of at most 240 bytes is quoted whole.
pub proof fn law_short_bodies_are_quoted_whole(body: Seq<char>)
    requires
        encode_utf8(body).len() <= 240,
    ensures
        quoted_body(body) == body,
{
}

/// Of a longer body as many whole characters are quoted as fit into 240 bytes, and an ellipsis
/// after them.
pub proof fn law_long_bodies_are_cut_between_characters(body: Seq<char>, n: int)
    requires
        0 <= n < body.len(),
        encode_utf8(body.take(n)).len() <= 240,
        encode_utf8(body.take(n + 1)).len() > 240,
    ensures
        quoted_body(body) == body.take(n) + "..."@,
{
    let bytes = encode_utf8(body);
    let fitting = encode_utf8(body.take(n)).len() as int;
    lemma_encoded_beginning(body, n);
    lemma_encoded_beginning(body, n + 1);
    encode_utf8_valid_utf8(body);
    lemma_last_boundary(bytes, 240);
    let cut = last_boundary(bytes, 240);
    assert(fitting <= cut) by {
        lemma_last_boundary_is_greatest(bytes, 240, fitting);
    }
    valid_utf8_split(bytes, cut);
    decode_utf8_split(bytes, cut);
    encode_utf8_decode_utf8(body);
    let beginning = decode_utf8(bytes.subrange(0, cut));
    decode_utf8_encode_utf8(bytes.subrange(0, cut));
    let m = beginning.len() as int;
    assert(beginning =~= body.take(m));
    if m > n {
        lemma_encoded_beginning(body.take(m), n + 1);
        assert(body.take(m).take(n + 1) =~= body.take(n + 1));
    } else {
        lemma_encoded_beginning(body.take(n), m);
        assert(body.take(n).take(m) =~= body.take(m));
    }
    assert(cut == fitting);
    assert(bytes.take(cut) =~= encode_utf8(body.take(n)));
    encode_utf8_decode_utf8(body.take(n));
}

/// The bytes of a beginning are the beginning of the bytes, and end between characters.
proof fn lemma_encoded_beginning(body: Seq<char>, m: int)
    requires
        0 <= m <= body.len(),
    ensures
        encode_utf8(body.take(m)).len() <= encode_utf8(body).len(),
        encode_utf8(body).take(encode_utf8(body.take(m)).len() as int) == encode_utf8(body.take(m)),
        is_char_boundary(encode_utf8(body), encode_utf8(body.take(m)).len() as int),
    decreases body.len(),
{
    let bytes = encode_utf8(body);
    encode_utf8_valid_utf8(body);
    if m == 0 {
        assert(body.take(0) =~= Seq::empty());
        assert(bytes.take(0) =~= Seq::empty());
    } else {
        let rest = body.drop_first();
        lemma_encoded_beginning(rest, m - 1);
        encode_utf8_first_scalar(body);
        assert(body.take(m).drop_first() =~= rest.take(m - 1));
        assert(pop_first_scalar(bytes) =~= encode_utf8(rest));
        let first = encode_scalar(body[0] as u32);
        let index = encode_utf8(body.take(m)).len() as int;
        assert(index == first.len() + encode_utf8(rest.take(m - 1)).len());
        assert(bytes.take(index) =~= encode_utf8(body.take(m)));
    }
}

proof fn lemma_last_boundary(bytes: Seq<u8>, index: int)
    requires
        valid_utf8(bytes),
        0 <= index,
    ensures
        0 <= last_boundary(bytes, index) <= index,
        is_char_boundary(bytes, last_boundary(bytes, index)),
    decreases index,
{
    if index > 0 && !is_char_boundary(bytes, index) {
        lemma_last_boundary(bytes, index - 1);
    }
}

proof fn lemma_last_boundary_is_greatest(bytes: Seq<u8>, index: int, boundary: int)
    requires
        valid_utf8(bytes),
        0 <= boundary <= index,
        is_char_boundary(bytes, boundary),
    ensures
        boundary <= last_boundary(bytes, index),
    decreases index,
{
    if index > 0 && !is_char_boundary(bytes, index) {
        lemma_last_boundary_is_greatest(bytes, index - 1, boundary);
    }
}

/// What went wrong is said in the words of the message's error, and a reply that cannot be read is
/// quoted whole.
pub proof fn law_errors_are_told_in_full(error: MimeError, body: String)
    ensures
        DeliveryError::Undecodable.text() == "failed to decode spooled raw MIME message"@,
        DeliveryError::Mime(error).text() == error.text(),
        DeliveryError::UnreadableReply(body).text()
            == "failed to parse Cloudflare response body: "@ + body@,
{
}

/// A message is sent from the sender of its envelope to every one of its recipients, in their
/// order and to no others, and as it is.
pub proof fn law_every_recipient_is_sent_to(
    request: SendRawRequest,
    envelope: queue::EnvelopeModel,
    message: Seq<char>,
)
    requires
        sends(request, envelope, message),
    ensures
        request.from@ == envelope.envelope_from,
        request.recipients@.len() == envelope.recipients.len(),
        forall|k: int|
            0 <= k < envelope.recipients.len() ==> (#[trigger] request.recipients@[k])@
                == envelope.recipients[k],
        request.mime_message@ == message,
{
    assert forall|k: int| 0 <= k < envelope.recipients.len() implies (
    #[trigger] request.recipients@[k])@ == envelope.recipients[k] by {
        assert(text::texts(request.recipients@)[k] == request.recipients@[k]@);
    }
}

} // verus!
