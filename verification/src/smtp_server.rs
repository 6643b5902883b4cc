//! The SMTP side: how the listeners are set up, and which clients and messages are accepted.

use vstd::prelude::*;

use crate::config::{self, AppConfig};
use crate::text;

verus! {

/// The listeners of the relay.
#[derive(Clone, Copy, Debug, PartialEq, Eq, Structural)]
pub enum ServerKind {
    Port25,
    Submission587,
    Smtps465,
}

impl ServerKind {
    /// The address that a listener binds.
    pub open spec fn address(self, config: config::AppConfigModel) -> Seq<char> {
        match self {
            ServerKind::Port25 => config.smtp_25,
            ServerKind::Submission587 => config.submission_587,
            ServerKind::Smtps465 => config.smtps_465,
        }
    }

    /// The address that the listener binds.
    pub fn bind_addr(self, config: &AppConfig) -> (addr: &str)
        ensures
            addr@ == self.address(config@),
    {
        match self {
            ServerKind::Port25 => config.ports.smtp_25.as_str(),
            ServerKind::Submission587 => config.ports.submission_587.as_str(),
            ServerKind::Smtps465 => config.ports.smtps_465.as_str(),
        }
    }

    /// What the listener is called in the log.
    pub fn label(self) -> (label: &'static str)
        ensures
            label@ == (match self {
                ServerKind::Port25 => "smtp-25"@,
                ServerKind::Submission587 => "submission-587"@,
                ServerKind::Smtps465 => "smtps-465"@,
            }),
    {
        match self {
            ServerKind::Port25 => "smtp-25",
            ServerKind::Submission587 => "submission-587",
            ServerKind::Smtps465 => "smtps-465",
        }
    }
}

/// The listeners that are started: all three with TLS material, only the first without.
pub open spec fn started_listeners(has_tls: bool) -> Seq<ServerKind> {
    if has_tls {
        seq![ServerKind::Port25, ServerKind::Submission587, ServerKind::Smtps465]
    } else {
        seq![ServerKind::Port25]
    }
}

/// Names the listeners that are started.
pub fn listeners(has_tls: bool) -> (kinds: Vec<ServerKind>)
    ensures
        kinds@ == started_listeners(has_tls),
{
    let mut kinds: Vec<ServerKind> = Vec::new();
    kinds.push(ServerKind::Port25);
    if has_tls {
        kinds.push(ServerKind::Submission587);
        kinds.push(ServerKind::Smtps465);
    }
    kinds
}

/// How a listener uses TLS.
#[derive(Debug, Clone)]
pub enum TlsMode<T> {
    /// Not at all.
    Disabled,
    /// On request.
    Explicit(T),
    /// On request, and nothing else is possible before.
    Required(T),
    /// From the first byte.
    Implicit(T),
}

/// How a client authenticates.
#[derive(Debug, Clone, Copy, PartialEq, Eq, Structural)]
pub enum AuthMach {
    Plain,
    Login,
}

/// The settings of a listener.
#[derive(Debug, Clone)]
pub struct SmtpConfig<T> {
    pub hostname: String,
    pub appname: String,
    pub bind_addr: String,
    pub tls_mode: TlsMode<T>,
    pub max_message_size: Option<usize>,
    pub max_recipients: usize,
    pub timeout_secs: u64,
    pub auth_machs: Vec<AuthMach>,
    pub require_auth: bool,
    pub disable_reverse_dns: bool,
    pub x_client_allowed: Option<Vec<String>>,
}

/// A listener that cannot do without TLS.
#[derive(Debug, Clone, Copy, PartialEq, Eq, Structural)]
pub enum ServerConfigError {
    SubmissionNeedsTls,
    SmtpsNeedsTls,
}

impl ServerConfigError {
    /// The error in words.
    pub open spec fn text(self) -> Seq<char> {
        match self {
            ServerConfigError::SubmissionNeedsTls => "submission port requires TLS"@,
            ServerConfigError::SmtpsNeedsTls => "SMTPS port requires TLS"@,
        }
    }

    /// Says which listener needs TLS.
    pub fn message(&self) -> (message: String)
        ensures
            message@ == self.text(),
    {
        let message = match self {
            ServerConfigError::SubmissionNeedsTls => "submission port requires TLS",
            ServerConfigError::SmtpsNeedsTls => "SMTPS port requires TLS",
        };
        message.to_owned()
    }
}

/// How a listener uses the TLS material, if there is any.
pub open spec fn listener_tls<T>(kind: ServerKind, tls: Option<T>) -> Result<
    TlsMode<T>,
    ServerConfigError,
> {
    match (kind, tls) {
        (ServerKind::Port25, None) => Ok(TlsMode::Disabled),
        (ServerKind::Port25, Some(tls)) => Ok(TlsMode::Explicit(tls)),
        (ServerKind::Submission587, None) => Err(ServerConfigError::SubmissionNeedsTls),
        (ServerKind::Submission587, Some(tls)) => Ok(TlsMode::Required(tls)),
        (ServerKind::Smtps465, None) => Err(ServerConfigError::SmtpsNeedsTls),
        (ServerKind::Smtps465, Some(tls)) => Ok(TlsMode::Implicit(tls)),
    }
}

/// The ways to authenticate that a listener offers.
pub open spec fn offered_auth(kind: ServerKind, allow_insecure_auth: bool) -> Seq<AuthMach> {
    if kind == ServerKind::Port25 && !allow_insecure_auth {
        Seq::empty()
    } else {
        seq![AuthMach::Plain, AuthMach::Login]
    }
}

/// Whether settings are those of a listener under a configuration.
pub open spec fn are_listener_settings<T>(
    settings: SmtpConfig<T>,
    kind: ServerKind,
    config: config::AppConfigModel,
) -> bool {
    &&& settings.hostname@ == config.hostname
    &&& settings.appname@ == config.appname
    &&& settings.bind_addr@ == kind.address(config)
    &&& settings.max_message_size matches Some(size) && size == config.max_message_size
    &&& settings.max_recipients == config.max_recipients
    &&& settings.timeout_secs == config.command_timeout_secs
    &&& settings.auth_machs@ == offered_auth(kind, config.tls.allow_insecure_auth)
    &&& settings.require_auth == (kind != ServerKind::Port25)
    &&& settings.disable_reverse_dns
    &&& settings.x_client_allowed is None
}

/// Makes the settings of a listener.
pub fn build_server_config<T>(app: &AppConfig, kind: ServerKind, tls_config: Option<T>) -> (res:
    Result<SmtpConfig<T>, ServerConfigError>)
    ensures
        match listener_tls(kind, tls_config) {
            Err(e) => res == Err::<SmtpConfig<T>, ServerConfigError>(e),
            Ok(tls_mode) => res matches Ok(got) && got.tls_mode == tls_mode && got.hostname@
                == app@.hostname && got.appname@ == app@.appname && got.bind_addr@ == kind.address(
                app@,
            ) && got.max_message_size == Some(app.max_message_size) && got.max_recipients
                == app.max_recipients && got.timeout_secs == app.command_timeout_secs
                && got.auth_machs@ == offered_auth(kind, app@.tls.allow_insecure_auth)
                && got.require_auth == (kind != ServerKind::Port25) && got.disable_reverse_dns
                && got.x_client_allowed is None,
        },
        res matches Ok(got) ==> are_listener_settings(got, kind, app@),
{
    let tls_mode = match kind {
        ServerKind::Port25 => match tls_config {
            Some(tls) => TlsMode::Explicit(tls),
            None => TlsMode::Disabled,
        },
        ServerKind::Submission587 => match tls_config {
            Some(tls) => TlsMode::Required(tls),
            None => return Err(ServerConfigError::SubmissionNeedsTls),
        },
        ServerKind::Smtps465 => match tls_config {
            Some(tls) => TlsMode::Implicit(tls),
            None => return Err(ServerConfigError::SmtpsNeedsTls),
        },
    };
    let mut auth_machs: Vec<AuthMach> = Vec::new();
    if kind != ServerKind::Port25 || app.tls.allow_insecure_auth {
        auth_machs.push(AuthMach::Plain);
        auth_machs.push(AuthMach::Login);
    }
    assert(auth_machs@ =~= offered_auth(kind, app@.tls.allow_insecure_auth));
    Ok(
        SmtpConfig {
            hostname: app.hostname.clone(),
            appname: app.appname.clone(),
            bind_addr: kind.bind_addr(app).to_owned(),
            tls_mode,
            max_message_size: Some(app.max_message_size),
            max_recipients: app.max_recipients,
            timeout_secs: app.command_timeout_secs,
            auth_machs,
            require_auth: kind != ServerKind::Port25,
            disable_reverse_dns: true,
            x_client_allowed: None,
        },
    )
}

/// An answer to a client.
#[derive(Debug, Clone, PartialEq, Eq)]
pub enum Reply {
    /// What the protocol has for a command that was carried out.
    Default,
    /// A success with words of its own.
    Accepted(String),
    /// A status with its words and its enhanced status.
    Custom { status: usize, message: String, rfc: Option<String> },
}

/// An answer, in terms of text and numbers.
pub enum ReplyModel {
    Default,
    Accepted(Seq<char>),
    Custom { status: nat, message: Seq<char>, rfc: Option<Seq<char>> },
}

impl View for Reply {
    type V = ReplyModel;

    open spec fn view(&self) -> ReplyModel {
        match self {
            Reply::Default => ReplyModel::Default,
            Reply::Accepted(message) => ReplyModel::Accepted(message@),
            Reply::Custom { status, message, rfc } => ReplyModel::Custom {
                status: *status as nat,
                message: message@,
                rfc: text::optional_text(*rfc),
            },
        }
    }
}

/// A refusal: a status, its words and its enhanced status.
pub open spec fn refusal(status: nat, message: Seq<char>, rfc: Seq<char>) -> ReplyModel {
    ReplyModel::Custom { status, message, rfc: Some(rfc) }
}

/// Makes a refusal.
fn refuse(status: usize, message: &str, rfc: &str) -> (reply: Reply)
    ensures
        reply@ == refusal(status as nat, message@, rfc@),
{
    Reply::Custom { status, message: message.to_owned(), rfc: Some(rfc.to_owned()) }
}

/// What the relay knows of a client: whether it has authenticated, whether the connection is
/// encrypted, and the envelope of the message that it is sending.
#[derive(Debug, Clone)]
pub struct Session {
    pub authenticated: bool,
    pub tls: bool,
    pub from: String,
    pub to: Vec<String>,
}

/// An answer or a refusal, in terms of text and numbers.
pub open spec fn outcome_view(outcome: Result<Reply, Reply>) -> Result<ReplyModel, ReplyModel> {
    match outcome {
        Ok(reply) => Ok(reply@),
        Err(reply) => Err(reply@),
    }
}

/// What a client hears that gives credentials, where others are expected.
pub open spec fn auth_outcome(
    expected_username: Seq<char>,
    expected_password: Seq<char>,
    username: Seq<char>,
    password: Seq<char>,
) -> Result<ReplyModel, ReplyModel> {
    if username == expected_username && password == expected_password {
        Ok(ReplyModel::Default)
    } else {
        Err(refusal(535, "Authentication credentials invalid"@, "5.7.8"@))
    }
}

/// Checks the credentials of a client.
pub fn handle_auth(config: &AppConfig, smtp_password: &str, username: &str, password: &str) -> (res:
    Result<Reply, Reply>)
    ensures
        if username@ == config@.username && password@ == smtp_password@ {
            res == Ok::<Reply, Reply>(Reply::Default)
        } else {
            res matches Err(reply) && reply@ == refusal(
                535,
                "Authentication credentials invalid"@,
                "5.7.8"@,
            )
        },
        outcome_view(res) == auth_outcome(config@.username, smtp_password@, username@, password@),
{
    if text::same_text(username, config.auth.username.as_str()) && text::same_text(
        password,
        smtp_password,
    ) {
        Ok(Reply::Default)
    } else {
        Err(refuse(535, "Authentication credentials invalid", "5.7.8"))
    }
}

/// Why a client may not name a recipient or send a message: the first of the three conditions
/// that does not hold.
pub open spec fn pre_data_refusal(
    config: config::AppConfigModel,
    kind: ServerKind,
    authenticated: bool,
    tls: bool,
    from: Seq<char>,
) -> Option<ReplyModel> {
    if !authenticated {
        Some(refusal(530, "Authentication required"@, "5.7.0"@))
    } else if kind == ServerKind::Port25 && !tls && !config.tls.allow_insecure_auth {
        Some(
            refusal(
                530,
                "Port 25 does not accept authenticated submission without TLS"@,
                "5.7.0"@,
            ),
        )
    } else if !config::sender_allowed(config.allowed_domains, from) {
        Some(refusal(553, "Sender domain not allowed"@, "5.7.1"@))
    } else {
        None
    }
}

/// Checks whether a client may name a recipient or send a message.
pub fn validate_pre_data(config: &AppConfig, kind: ServerKind, session: &Session) -> (refused:
    Option<Reply>)
    ensures
        match pre_data_refusal(
            config@,
            kind,
            session.authenticated,
            session.tls,
            session.from@,
        ) {
            Some(reply) => refused matches Some(got) && got@ == reply,
            None => refused is None,
        },
{
    if !session.authenticated {
        return Some(refuse(530, "Authentication required", "5.7.0"));
    }
    if kind == ServerKind::Port25 && !session.tls && !config.tls.allow_insecure_auth {
        return Some(
            refuse(530, "Port 25 does not accept authenticated submission without TLS", "5.7.0"),
        );
    }
    if !config::is_allowed_sender_domain(
        config.senders.allowed_domains.as_slice(),
        session.from.as_str(),
    ) {
        return Some(refuse(553, "Sender domain not allowed", "5.7.1"));
    }
    None
}

/// Answers a client that names a recipient.
pub fn handle_rcpt(config: &AppConfig, kind: ServerKind, session: &Session) -> (res: Result<
    Reply,
    Reply,
>)
    ensures
        match pre_data_refusal(
            config@,
            kind,
            session.authenticated,
            session.tls,
            session.from@,
        ) {
            Some(reply) => res matches Err(got) && got@ == reply,
            None => res == Ok::<Reply, Reply>(Reply::Default),
        },
{
    match validate_pre_data(config, kind, session) {
        Some(reply) => Err(reply),
        None => Ok(Reply::Default),
    }
}

/// A header of a message: its name, and its value with encoded words decoded.
#[derive(Debug, Clone)]
pub struct HeaderField {
    pub name: String,
    pub value: String,
}

/// The names and values of some headers.
pub open spec fn field_views(fields: Seq<HeaderField>) -> Seq<(Seq<char>, Seq<char>)> {
    fields.map_values(|field: HeaderField| (field.name@, field.value@))
}

/// What an address header lists: a mailbox, or the mailboxes of a group.
#[derive(Debug, Clone)]
pub enum AddressEntry {
    Single(String),
    Group(Vec<String>),
}

/// An entry of an address header, in terms of text.
pub enum AddressModel {
    Single(Seq<char>),
    Group(Seq<Seq<char>>),
}

impl View for AddressEntry {
    type V = AddressModel;

    open spec fn view(&self) -> AddressModel {
        match self {
            AddressEntry::Single(address) => AddressModel::Single(address@),
            AddressEntry::Group(addresses) => AddressModel::Group(text::texts(addresses@)),
        }
    }
}

/// Entries of an address header, in terms of text.
pub open spec fn entry_views(entries: Seq<AddressEntry>) -> Seq<AddressModel> {
    entries.map_values(|entry: AddressEntry| entry@)
}

/// The headers that `mailparse` reads in a raw message, by name and value, where it can.
pub uninterp spec fn message_headers(raw: Seq<u8>) -> Option<Seq<(Seq<char>, Seq<char>)>>;

/// The entries that `mailparse` reads in the value of an address header, where it can.
pub uninterp spec fn listed_addresses(value: Seq<char>) -> Option<Seq<AddressModel>>;

/// The error of `mailparse`.
#[verifier::external_type_specification]
#[verifier::external_body]
pub struct ExMailParseError(mailparse::MailParseError);

/// `mailparse::parse_headers`: gives the headers at the beginning of a message, each as its
/// `get_key` and `get_value`, or an error where they cannot be read.
#[verifier::external_body]
fn parse_headers(raw: &[u8]) -> (res: Result<Vec<HeaderField>, mailparse::MailParseError>)
    ensures
        res is Ok == message_headers(raw@) is Some,
        res matches Ok(fields) ==> message_headers(raw@) == Some(field_views(fields@)),
{
    let (headers, _) = mailparse::parse_headers(raw)?;
    Ok(
        headers.iter().map(
            |header| HeaderField { name: header.get_key(), value: header.get_value() },
        ).collect(),
    )
}

/// `mailparse::addrparse`: gives the mailboxes and groups that the value of an address header
/// lists, or an error where they cannot be read. Only the addresses are kept.
#[verifier::external_body]
fn parse_addresses(value: &str) -> (res: Result<Vec<AddressEntry>, mailparse::MailParseError>)
    ensures
        res is Ok == listed_addresses(value@) is Some,
        res matches Ok(entries) ==> listed_addresses(value@) == Some(entry_views(entries@)),
{
    let list = mailparse::addrparse(value)?;
    Ok(
        list.into_inner().into_iter().map(
            |entry| match entry {
                mailparse::MailAddr::Single(info) => AddressEntry::Single(info.addr),
                mailparse::MailAddr::Group(group) => AddressEntry::Group(
                    group.addrs.into_iter().map(|info| info.addr).collect(),
                ),
            },
        ).collect(),
    )
}

/// The value of the first header of a name; the case of ASCII letters does not matter.
pub open spec fn first_value(fields: Seq<(Seq<char>, Seq<char>)>, name: Seq<char>) -> Option<
    Seq<char>,
>
    decreases fields.len(),
{
    if fields.len() == 0 {
        None
    } else if text::lowercase(fields.first().0) == text::lowercase(name) {
        Some(fields.first().1)
    } else {
        first_value(fields.drop_first(), name)
    }
}

/// Finds the value of the first header of a name.
pub fn first_header_value<'a>(fields: &'a [HeaderField], name: &str) -> (value: Option<&'a str>)
    ensures
        match first_value(field_views(fields@), name@) {
            Some(found) => value matches Some(got) && got@ == found,
            None => value is None,
        },
{
    let wanted = name.to_ascii_lowercase();
    let ghost views = field_views(fields@);
    assert(views.skip(0) =~= views);
    let mut i: usize = 0;
    while i < fields.len()
        invariant
            views == field_views(fields@),
            i <= fields@.len(),
            wanted@ == text::lowercase(name@),
            first_value(views, name@) == first_value(views.skip(i as int), name@),
        decreases fields@.len() - i,
    {
        assert(views.skip(i as int).drop_first() =~= views.skip(i + 1));
        let lower = fields[i].name.as_str().to_ascii_lowercase();
        if text::same_text(lower.as_str(), wanted.as_str()) {
            return Some(fields[i].value.as_str());
        }
        i += 1;
    }
    None
}

/// Whether mail may come from every one of some addresses.
pub open spec fn senders_allowed(allowed_domains: Seq<Seq<char>>, addresses: Seq<Seq<char>>) -> bool {
    forall|k: int|
        0 <= k < addresses.len() ==> config::sender_allowed(
            allowed_domains,
            #[trigger] addresses[k],
        )
}

/// Whether mail may come from every address of an entry.
pub open spec fn entry_allowed(allowed_domains: Seq<Seq<char>>, entry: AddressModel) -> bool {
    match entry {
        AddressModel::Single(address) => config::sender_allowed(allowed_domains, address),
        AddressModel::Group(addresses) => senders_allowed(allowed_domains, addresses),
    }
}

/// Whether mail may come from every address of some entries.
pub open spec fn entries_allowed(allowed_domains: Seq<Seq<char>>, entries: Seq<AddressModel>) -> bool {
    forall|k: int|
        0 <= k < entries.len() ==> entry_allowed(allowed_domains, #[trigger] entries[k])
}

/// Whether mail may come from every one of some addresses.
fn all_allowed(allowed_domains: &[String], addresses: &[String]) -> (allowed: bool)
    ensures
        allowed == senders_allowed(text::texts(allowed_domains@), text::texts(addresses@)),
{
    let ghost domains = text::texts(allowed_domains@);
    let ghost views = text::texts(addresses@);
    let mut i: usize = 0;
    while i < addresses.len()
        invariant
            domains == text::texts(allowed_domains@),
            views == text::texts(addresses@),
            i <= addresses@.len(),
            forall|k: int| 0 <= k < i ==> config::sender_allowed(domains, #[trigger] views[k]),
        decreases addresses@.len() - i,
    {
        assert(views[i as int] == addresses@[i as int]@);
        if !config::is_allowed_sender_domain(allowed_domains, addresses[i].as_str()) {
            return false;
        }
        i += 1;
    }
    true
}

/// Whether mail may come from every address that a From header lists.
pub fn addresses_allowed(allowed_domains: &[String], entries: &[AddressEntry]) -> (allowed: bool)
    ensures
        allowed == entries_allowed(text::texts(allowed_domains@), entry_views(entries@)),
{
    let ghost domains = text::texts(allowed_domains@);
    let ghost views = entry_views(entries@);
    let mut i: usize = 0;
    while i < entries.len()
        invariant
            domains == text::texts(allowed_domains@),
            views == entry_views(entries@),
            i <= entries@.len(),
            forall|k: int| 0 <= k < i ==> entry_allowed(domains, #[trigger] views[k]),
        decreases entries@.len() - i,
    {
        assert(views[i as int] == entries@[i as int]@);
        let allowed = match &entries[i] {
            AddressEntry::Single(address) => config::is_allowed_sender_domain(
                allowed_domains,
                address.as_str(),
            ),
            AddressEntry::Group(addresses) => all_allowed(allowed_domains, addresses.as_slice()),
        };
        if !allowed {
            return false;
        }
        i += 1;
    }
    true
}

/// What is wrong with the From header of a message.
#[derive(Debug, Clone, Copy, PartialEq, Eq, Structural)]
pub enum FromHeaderError {
    UnreadableHeaders,
    Missing,
    UnreadableAddress,
    DomainNotAllowed,
}

impl FromHeaderError {
    /// The error in words.
    pub open spec fn text(self) -> Seq<char> {
        match self {
            FromHeaderError::UnreadableHeaders => "failed to parse RFC 5322 headers"@,
            FromHeaderError::Missing => "missing From header"@,
            FromHeaderError::UnreadableAddress => "failed to parse From header address"@,
            FromHeaderError::DomainNotAllowed => "From header domain is not allowed"@,
        }
    }

    /// Says what is wrong.
    pub fn message(&self) -> (message: String)
        ensures
            message@ == self.text(),
    {
        let message = match self {
            FromHeaderError::UnreadableHeaders => "failed to parse RFC 5322 headers",
            FromHeaderError::Missing => "missing From header",
            FromHeaderError::UnreadableAddress => "failed to parse From header address",
            FromHeaderError::DomainNotAllowed => "From header domain is not allowed",
        };
        message.to_owned()
    }
}

/// What is wrong with the From header of a raw message, if anything: it has to be there and to be
/// readable, and mail may come from every address that it lists.
pub open spec fn from_header_error(allowed_domains: Seq<Seq<char>>, raw: Seq<u8>) -> Option<
    FromHeaderError,
> {
    match message_headers(raw) {
        None => Some(FromHeaderError::UnreadableHeaders),
        Some(fields) => match first_value(fields, "From"@) {
            None => Some(FromHeaderError::Missing),
            Some(value) => match listed_addresses(value) {
                None => Some(FromHeaderError::UnreadableAddress),
                Some(entries) => if entries_allowed(allowed_domains, entries) {
                    None
                } else {
                    Some(FromHeaderError::DomainNotAllowed)
                },
            },
        },
    }
}

/// Checks the From header of a raw message.
pub fn ensure_header_from_allowed(allowed_domains: &[String], raw: &[u8]) -> (res: Result<
    (),
    FromHeaderError,
>)
    ensures
        res == (match from_header_error(text::texts(allowed_domains@), raw@) {
            Some(e) => Err(e),
            None => Ok(()),
        }),
{
    let fields = match parse_headers(raw) {
        Ok(fields) => fields,
        Err(_) => return Err(FromHeaderError::UnreadableHeaders),
    };
    let value = match first_header_value(fields.as_slice(), "From") {
        Some(value) => value,
        None => return Err(FromHeaderError::Missing),
    };
    let entries = match parse_addresses(value) {
        Ok(entries) => entries,
        Err(_) => return Err(FromHeaderError::UnreadableAddress),
    };
    if addresses_allowed(allowed_domains, entries.as_slice()) {
        Ok(())
    } else {
        Err(FromHeaderError::DomainNotAllowed)
    }
}

/// Why a message is refused before it is spooled: the client may not send it, or its From header
/// is wrong.
pub open spec fn email_refusal(
    config: config::AppConfigModel,
    kind: ServerKind,
    authenticated: bool,
    tls: bool,
    from: Seq<char>,
    raw: Seq<u8>,
) -> Option<ReplyModel> {
    match pre_data_refusal(config, kind, authenticated, tls, from) {
        Some(reply) => Some(reply),
        None => match from_header_error(config.allowed_domains, raw) {
            Some(e) => Some(refusal(553, e.text(), "5.7.1"@)),
            None => None,
        },
    }
}

/// Checks a message before it is spooled.
pub fn admit_email(config: &AppConfig, kind: ServerKind, session: &Session, raw: &[u8]) -> (res:
    Result<(), Reply>)
    ensures
        match email_refusal(
            config@,
            kind,
            session.authenticated,
            session.tls,
            session.from@,
            raw@,
        ) {
            Some(reply) => res matches Err(got) && got@ == reply,
            None => res is Ok,
        },
{
    if let Some(reply) = validate_pre_data(config, kind, session) {
        return Err(reply);
    }
    match ensure_header_from_allowed(config.senders.allowed_domains.as_slice(), raw) {
        Ok(()) => Ok(()),
        Err(e) => Err(refuse(553, e.message().as_str(), "5.7.1")),
    }
}

/// What a client hears whose message was to be spooled.
pub open spec fn spool_outcome(spooled: Result<Seq<char>, Seq<char>>) -> Result<
    ReplyModel,
    ReplyModel,
> {
    match spooled {
        Ok(id) => Ok(ReplyModel::Accepted("queued as <"@ + id + ">"@)),
        Err(error) => Err(refusal(451, "Failed to spool message: "@ + error, "4.3.0"@)),
    }
}

/// Answers a client whose message was to be spooled, given the id under which it was, or the
/// words of the error that stood in the way.
pub fn reply_to_email(spooled: Result<String, String>) -> (res: Result<Reply, Reply>)
    ensures
        match spooled {
            Ok(id) => res matches Ok(reply) && reply@ == ReplyModel::Accepted(
                "queued as <"@ + id@ + ">"@,
            ),
            Err(error) => res matches Err(reply) && reply@ == refusal(
                451,
                "Failed to spool message: "@ + error@,
                "4.3.0"@,
            ),
        },
        spooled matches Ok(id) ==> outcome_view(res) == spool_outcome(Ok(id@)),
        spooled matches Err(error) ==> outcome_view(res) == spool_outcome(Err(error@)),
{
    match spooled {
        Ok(id) => {
            let mut message = "queued as <".to_owned();
            message.append(id.as_str());
            message.append(">");
            Ok(Reply::Accepted(message))
        },
        Err(error) => {
            let mut message = "Failed to spool message: ".to_owned();
            message.append(error.as_str());
            Err(refuse(451, message.as_str(), "4.3.0"))
        },
    }
}

/// Mail is accepted only from a client that has authenticated; on the first port only over TLS,
/// unless that is waived; from a sender of an allowed domain; and with a From header all of whose
/// addresses are of allowed domains.
pub proof fn law_accepted_mail_meets_every_condition(
    config: config::AppConfigModel,
    kind: ServerKind,
    authenticated: bool,
    tls: bool,
    from: Seq<char>,
    raw: Seq<u8>,
)
    ensures
        email_refusal(config, kind, authenticated, tls, from, raw) is None <==> {
            &&& authenticated
            &&& kind == ServerKind::Port25 ==> tls || config.tls.allow_insecure_auth
            &&& config::sender_allowed(config.allowed_domains, from)
            &&& from_header_error(config.allowed_domains, raw) is None
        },
{
}

/// A message whose From header lists an address of a domain that is not allowed is refused.
pub proof fn law_foreign_from_header_is_refused(
    allowed_domains: Seq<Seq<char>>,
    raw: Seq<u8>,
    fields: Seq<(Seq<char>, Seq<char>)>,
    value: Seq<char>,
    entries: Seq<AddressModel>,
    k: int,
)
    requires
        message_headers(raw) == Some(fields),
        first_value(fields, "From"@) == Some(value),
        listed_addresses(value) == Some(entries),
        0 <= k < entries.len(),
        !entry_allowed(allowed_domains, entries[k]),
    ensures
        from_header_error(allowed_domains, raw) == Some(FromHeaderError::DomainNotAllowed),
{
}

/// Every refusal has a status that tells the client that it failed.
pub proof fn law_refusals_are_failures(
    config: config::AppConfigModel,
    kind: ServerKind,
    authenticated: bool,
    tls: bool,
    from: Seq<char>,
    raw: Seq<u8>,
)
    ensures
        email_refusal(config, kind, authenticated, tls, from, raw) matches Some(reply) ==> reply
            matches ReplyModel::Custom { status, .. } && 500 <= status < 600,
{
}

/// A client is never offered to authenticate on a connection that need not be encrypted, unless
/// that is allowed.
pub proof fn law_auth_is_not_offered_in_the_clear<T>(
    kind: ServerKind,
    tls: Option<T>,
    allow_insecure_auth: bool,
)
    requires
        listener_tls(kind, tls) is Ok,
        offered_auth(kind, allow_insecure_auth).len() > 0,
    ensures
        allow_insecure_auth || listener_tls(kind, tls)->Ok_0 is Required || listener_tls(
            kind,
            tls,
        )->Ok_0 is Implicit,
{
}

/// Every listener that is started can be set up with the TLS material that there is.
pub proof fn law_started_listeners_can_be_set_up<T>(tls: Option<T>, k: int)
    requires
        0 <= k < started_listeners(tls is Some).len(),
    ensures
        listener_tls(started_listeners(tls is Some)[k], tls) is Ok,
{
}

/// Each listener binds its own address.
pub proof fn law_listeners_bind_their_own_address(config: config::AppConfigModel)
    ensures
        ServerKind::Port25.address(config) == config.smtp_25,
        ServerKind::Submission587.address(config) == config.submission_587,
        ServerKind::Smtps465.address(config) == config.smtps_465,
{
}

/// No listener is started twice.
pub proof fn law_no_listener_is_started_twice(has_tls: bool, i: int, k: int)
    requires
        0 <= i < k < started_listeners(has_tls).len(),
    ensures
        started_listeners(has_tls)[i] != started_listeners(has_tls)[k],
{
}

/// The first listener is always started; the other two exactly if there is TLS material.
pub proof fn law_tls_starts_all_listeners(has_tls: bool)
    ensures
        started_listeners(has_tls).contains(ServerKind::Port25),
        started_listeners(has_tls).contains(ServerKind::Submission587) == has_tls,
        started_listeners(has_tls).contains(ServerKind::Smtps465) == has_tls,
{
    if has_tls {
        assert(started_listeners(has_tls)[1] == ServerKind::Submission587);
        assert(started_listeners(has_tls)[2] == ServerKind::Smtps465);
    }
    assert(started_listeners(has_tls)[0] == ServerKind::Port25);
}

/// The material is used as it is given: on request on the first port, on request and before
/// anything else on the second, from the first byte on the third.
pub proof fn law_listeners_use_the_material<T>(tls: T)
    ensures
        listener_tls(ServerKind::Port25, Some(tls)) == Ok::<TlsMode<T>, ServerConfigError>(
            TlsMode::Explicit(tls),
        ),
        listener_tls(ServerKind::Port25, None::<T>) == Ok::<TlsMode<T>, ServerConfigError>(
            TlsMode::Disabled,
        ),
        listener_tls(ServerKind::Submission587, Some(tls)) == Ok::<TlsMode<T>, ServerConfigError>(
            TlsMode::Required(tls),
        ),
        listener_tls(ServerKind::Submission587, None::<T>) == Err::<TlsMode<T>, ServerConfigError>(
            ServerConfigError::SubmissionNeedsTls,
        ),
        listener_tls(ServerKind::Smtps465, Some(tls)) == Ok::<TlsMode<T>, ServerConfigError>(
            TlsMode::Implicit(tls),
        ),
        listener_tls(ServerKind::Smtps465, None::<T>) == Err::<TlsMode<T>, ServerConfigError>(
            ServerConfigError::SmtpsNeedsTls,
        ),
{
}

/// Both ways to authenticate are offered, or neither is: neither on the first port unless that is
/// allowed, both everywhere else.
pub proof fn law_auth_is_offered_where_it_may_be(kind: ServerKind, allow_insecure_auth: bool)
    ensures
        kind == ServerKind::Port25 && !allow_insecure_auth ==> offered_auth(
            kind,
            allow_insecure_auth,
        ).len() == 0,
        kind != ServerKind::Port25 || allow_insecure_auth ==> offered_auth(
            kind,
            allow_insecure_auth,
        ) == seq![AuthMach::Plain, AuthMach::Login],
{
}

/// An answer stands for its status, its words and its enhanced status.
pub proof fn law_answers_stand_for_themselves(status: usize, message: String, rfc: String)
    ensures
        Reply::Default@ == ReplyModel::Default,
        Reply::Accepted(message)@ == ReplyModel::Accepted(message@),
        (Reply::Custom { status, message, rfc: Some(rfc) })@ == (ReplyModel::Custom {
            status: status as nat,
            message: message@,
            rfc: Some(rfc@),
        }),
        (Reply::Custom { status, message, rfc: None })@ == (ReplyModel::Custom {
            status: status as nat,
            message: message@,
            rfc: None,
        }),
        refusal(status as nat, message@, rfc@) == (Reply::Custom {
            status,
            message,
            rfc: Some(rfc),
        })@,
{
}

/// A client hears why it is refused: first that it has to authenticate, then that it has to do so
/// over TLS, then that its sender is not allowed.
pub proof fn law_clients_hear_why_they_are_refused(
    config: config::AppConfigModel,
    kind: ServerKind,
    authenticated: bool,
    tls: bool,
    from: Seq<char>,
)
    ensures
        ({
            let refused = pre_data_refusal(config, kind, authenticated, tls, from);
            let in_the_clear = kind == ServerKind::Port25 && !tls
                && !config.tls.allow_insecure_auth;
            &&& !authenticated ==> refused == Some(
                ReplyModel::Custom {
                    status: 530,
                    message: "Authentication required"@,
                    rfc: Some("5.7.0"@),
                },
            )
            &&& authenticated && in_the_clear ==> refused == Some(
                ReplyModel::Custom {
                    status: 530,
                    message: "Port 25 does not accept authenticated submission without TLS"@,
                    rfc: Some("5.7.0"@),
                },
            )
            &&& authenticated && !in_the_clear && !config::sender_allowed(
                config.allowed_domains,
                from,
            ) ==> refused == Some(
                ReplyModel::Custom {
                    status: 553,
                    message: "Sender domain not allowed"@,
                    rfc: Some("5.7.1"@),
                },
            )
            &&& authenticated && !in_the_clear && config::sender_allowed(
                config.allowed_domains,
                from,
            ) ==> refused is None
        }),
{
}

/// Headers stand for their names and values, entries for their addresses.
pub proof fn law_headers_stand_for_themselves(
    fields: Seq<HeaderField>,
    entries: Seq<AddressEntry>,
    k: int,
)
    ensures
        field_views(fields).len() == fields.len(),
        0 <= k < fields.len() ==> field_views(fields)[k].0 == fields[k].name@
            && field_views(fields)[k].1 == fields[k].value@,
        entry_views(entries).len() == entries.len(),
        0 <= k < entries.len() ==> match entries[k] {
            AddressEntry::Single(address) => entry_views(entries)[k] == AddressModel::Single(
                address@,
            ),
            AddressEntry::Group(addresses) => entry_views(entries)[k] matches AddressModel::Group(
                got,
            ) && got == text::texts(addresses@),
        },
{
}

/// Of the headers of a name the first one counts, whatever stands around it; the case of the name
/// does not matter.
pub proof fn law_the_first_header_of_a_name_counts(
    before: Seq<(Seq<char>, Seq<char>)>,
    field: (Seq<char>, Seq<char>),
    after: Seq<(Seq<char>, Seq<char>)>,
    name: Seq<char>,
)
    requires
        forall|k: int|
            0 <= k < before.len() ==> text::lowercase((#[trigger] before[k]).0) != text::lowercase(
                name,
            ),
    ensures
        first_value(before, name) is None,
        text::lowercase(field.0) == text::lowercase(name) ==> first_value(
            before + (seq![field] + after),
            name,
        ) == Some(field.1),
    decreases before.len(),
{
    let all = before + (seq![field] + after);
    if before.len() == 0 {
        assert(all.first() == field);
    } else {
        assert(all.first() == before[0]);
        assert(all.drop_first() =~= before.drop_first() + (seq![field] + after));
        law_the_first_header_of_a_name_counts(before.drop_first(), field, after, name);
    }
}

/// Whether an entry lists an address, by itself or in its group.
pub open spec fn lists(entry: AddressModel, address: Seq<char>) -> bool {
    match entry {
        AddressModel::Single(single) => single == address,
        AddressModel::Group(addresses) => addresses.contains(address),
    }
}

/// Entries are allowed exactly if mail may come from every address that one of them lists.
pub proof fn law_every_listed_address_counts(
    allowed_domains: Seq<Seq<char>>,
    entries: Seq<AddressModel>,
)
    ensures
        entries_allowed(allowed_domains, entries) <==> forall|k: int, address: Seq<char>|
            0 <= k < entries.len() && #[trigger] lists(entries[k], address)
                ==> config::sender_allowed(allowed_domains, address),
{
    if entries_allowed(allowed_domains, entries) {
        assert forall|k: int, address: Seq<char>|
            0 <= k < entries.len() && #[trigger] lists(
                entries[k],
                address,
            ) implies config::sender_allowed(allowed_domains, address) by {
            assert(entry_allowed(allowed_domains, entries[k]));
            if let AddressModel::Group(addresses) = entries[k] {
                let j = choose|j: int| 0 <= j < addresses.len() && addresses[j] == address;
                assert(config::sender_allowed(allowed_domains, addresses[j]));
            }
        }
    }
    if forall|k: int, address: Seq<char>|
        0 <= k < entries.len() && #[trigger] lists(entries[k], address) ==> config::sender_allowed(
            allowed_domains,
            address,
        ) {
        assert forall|k: int| 0 <= k < entries.len() implies entry_allowed(
            allowed_domains,
            #[trigger] entries[k],
        ) by {
            match entries[k] {
                AddressModel::Single(address) => {
                    assert(lists(entries[k], address));
                },
                AddressModel::Group(addresses) => {
                    assert forall|j: int| 0 <= j < addresses.len() implies config::sender_allowed(
                        allowed_domains,
                        #[trigger] addresses[j],
                    ) by {
                        assert(lists(entries[k], addresses[j]));
                    }
                },
            }
        }
    }
}

/// A message whose first From header can be read and lists only addresses that mail may come from
/// has nothing wrong with it, whatever its other headers hold; one that lists another is refused.
pub proof fn law_only_the_first_from_header_counts(
    allowed_domains: Seq<Seq<char>>,
    raw: Seq<u8>,
    before: Seq<(Seq<char>, Seq<char>)>,
    field: (Seq<char>, Seq<char>),
    after: Seq<(Seq<char>, Seq<char>)>,
    entries: Seq<AddressModel>,
)
    requires
        message_headers(raw) == Some(before + (seq![field] + after)),
        forall|k: int|
            0 <= k < before.len() ==> text::lowercase((#[trigger] before[k]).0) != "from"@,
        text::lowercase(field.0) == "from"@,
        listed_addresses(field.1) == Some(entries),
    ensures
        from_header_error(allowed_domains, raw) == (if forall|k: int, address: Seq<char>|
            0 <= k < entries.len() && #[trigger] lists(entries[k], address)
                ==> config::sender_allowed(allowed_domains, address) {
            None
        } else {
            Some(FromHeaderError::DomainNotAllowed)
        }),
{
    lemma_from_in_small_letters();
    law_the_first_header_of_a_name_counts(before, field, after, "From"@);
    law_every_listed_address_counts(allowed_domains, entries);
}

proof fn lemma_from_in_small_letters()
    ensures
        text::lowercase("From"@) == "from"@,
{
    reveal_strlit("From");
    reveal_strlit("from");
    assert(text::lowercase("From"@) =~= "from"@);
}

/// A message is refused whose headers cannot be read, that has no From header, or whose first From
/// header cannot be read; each for that reason.
pub proof fn law_the_from_header_has_to_be_there(
    allowed_domains: Seq<Seq<char>>,
    raw: Seq<u8>,
    before: Seq<(Seq<char>, Seq<char>)>,
    field: (Seq<char>, Seq<char>),
    after: Seq<(Seq<char>, Seq<char>)>,
)
    requires
        forall|k: int|
            0 <= k < before.len() ==> text::lowercase((#[trigger] before[k]).0) != "from"@,
        text::lowercase(field.0) == "from"@,
    ensures
        message_headers(raw) is None ==> from_header_error(allowed_domains, raw) == Some(
            FromHeaderError::UnreadableHeaders,
        ),
        message_headers(raw) == Some(before) ==> from_header_error(allowed_domains, raw) == Some(
            FromHeaderError::Missing,
        ),
        message_headers(raw) == Some(before + (seq![field] + after)) && listed_addresses(
            field.1,
        ) is None ==> from_header_error(allowed_domains, raw) == Some(
            FromHeaderError::UnreadableAddress,
        ),
{
    lemma_from_in_small_letters();
    law_the_first_header_of_a_name_counts(before, field, after, "From"@);
}

/// A client that may send a message hears what is wrong with its From header, and nothing if
/// nothing is; one that may not hears that, whatever the message holds.
pub proof fn law_senders_hear_why_a_message_is_refused(
    config: config::AppConfigModel,
    kind: ServerKind,
    authenticated: bool,
    tls: bool,
    from: Seq<char>,
    raw: Seq<u8>,
)
    ensures
        ({
            let refused = email_refusal(config, kind, authenticated, tls, from, raw);
            match pre_data_refusal(config, kind, authenticated, tls, from) {
                Some(reply) => refused == Some(reply),
                None => match from_header_error(config.allowed_domains, raw) {
                    Some(e) => refused == Some(
                        ReplyModel::Custom { status: 553, message: e.text(), rfc: Some("5.7.1"@) },
                    ),
                    None => refused is None,
                },
            }
        }),
{
}

/// A client is let in exactly with the one username and the one password, and hears nothing else
/// than that its credentials are invalid otherwise.
pub proof fn law_only_the_right_credentials_count(
    expected_username: Seq<char>,
    expected_password: Seq<char>,
    username: Seq<char>,
    password: Seq<char>,
)
    ensures
        auth_outcome(expected_username, expected_password, username, password) is Ok <==> (
        expected_username, expected_password) == (username, password),
        auth_outcome(expected_username, expected_password, username, password) matches Ok(reply)
            ==> reply == ReplyModel::Default,
        auth_outcome(expected_username, expected_password, username, password) matches Err(reply)
            ==> reply == (ReplyModel::Custom {
            status: 535,
            message: "Authentication credentials invalid"@,
            rfc: Some("5.7.8"@),
        }),
{
}

/// A client hears that its message was taken exactly if it was spooled, and under which id; and
/// otherwise what stood in the way, so that it may try again.
pub proof fn law_only_spooled_messages_are_taken(id: Seq<char>, error: Seq<char>)
    ensures
        spool_outcome(Ok(id)) == Ok::<ReplyModel, ReplyModel>(
            ReplyModel::Accepted("queued as <"@ + id + ">"@),
        ),
        spool_outcome(Err(error)) == Err::<ReplyModel, ReplyModel>(
            ReplyModel::Custom {
                status: 451,
                message: "Failed to spool message: "@ + error,
                rfc: Some("4.3.0"@),
            },
        ),
{
}

/// Outcomes stand for their answers.
pub proof fn law_outcomes_stand_for_their_answers(reply: Reply)
    ensures
        outcome_view(Ok(reply)) == Ok::<ReplyModel, ReplyModel>(reply@),
        outcome_view(Err(reply)) == Err::<ReplyModel, ReplyModel>(reply@),
{
}

/// A listener keeps to the limits of the configuration, and to nothing that another listener is
/// set to; all but the first one require that a client authenticates.
pub proof fn law_listeners_keep_to_the_configuration<T>(
    settings: SmtpConfig<T>,
    kind: ServerKind,
    config: config::AppConfigModel,
)
    requires
        are_listener_settings(settings, kind, config),
    ensures
        settings.hostname@ == config.hostname,
        settings.appname@ == config.appname,
        settings.bind_addr@ == (match kind {
            ServerKind::Port25 => config.smtp_25,
            ServerKind::Submission587 => config.submission_587,
            ServerKind::Smtps465 => config.smtps_465,
        }),
        settings.max_message_size matches Some(size) && size == config.max_message_size,
        settings.max_recipients == config.max_recipients,
        settings.timeout_secs == config.command_timeout_secs,
        settings.require_auth <==> kind != ServerKind::Port25,
        settings.auth_machs@.len() == (if kind == ServerKind::Port25
            && !config.tls.allow_insecure_auth {
            0nat
        } else {
            2nat
        }),
        settings.disable_reverse_dns && settings.x_client_allowed is None,
{
}

} // verus!
