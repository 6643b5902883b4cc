//! The relay's configuration: its rules, the secrets, and where TLS material is looked for.

use vstd::prelude::*;

use crate::text;

verus! {

/// A configuration that has been checked, with what the relay needs besides.
#[derive(Debug, Clone)]
pub struct PreparedConfig {
    pub config: AppConfig,
    pub secrets: Secrets,
    pub tls: Option<ResolvedTls>,
}

/// What is kept out of the configuration file.
#[derive(Debug, Clone)]
pub struct Secrets {
    pub smtp_password: String,
    pub cloudflare_api_token: String,
}

/// The certificate and key files that TLS uses, and where they were found.
#[derive(Debug, Clone)]
pub struct ResolvedTls {
    pub fullchain_path: String,
    pub privkey_path: String,
    pub source_label: String,
}

/// The configuration file.
#[derive(Debug, Clone)]
pub struct AppConfig {
    pub hostname: String,
    pub appname: String,
    pub max_message_size: usize,
    pub max_recipients: usize,
    pub command_timeout_secs: u64,
    pub ports: PortsConfig,
    pub auth: AuthConfig,
    pub senders: SenderConfig,
    pub cloudflare: CloudflareConfig,
    pub tls: TlsSettings,
    pub queue: QueueConfig,
}

/// The addresses that the listeners bind.
#[derive(Debug, Clone)]
pub struct PortsConfig {
    pub smtp_25: String,
    pub submission_587: String,
    pub smtps_465: String,
}

/// The one account that may submit mail.
#[derive(Debug, Clone)]
pub struct AuthConfig {
    pub username: String,
}

/// The domains that mail may come from.
#[derive(Debug, Clone)]
pub struct SenderConfig {
    pub allowed_domains: Vec<String>,
}

/// The Cloudflare account that sends the mail.
#[derive(Debug, Clone)]
pub struct CloudflareConfig {
    pub account_id: String,
}

/// How TLS material is found, and whether AUTH may go without it.
#[derive(Debug, Clone)]
pub struct TlsSettings {
    pub cert_name: Option<String>,
    pub fullchain_path: Option<String>,
    pub privkey_path: Option<String>,
    pub allow_insecure_auth: bool,
}

/// Where mail is spooled, and how delivery is retried.
#[derive(Debug, Clone)]
pub struct QueueConfig {
    pub spool_dir: String,
    pub max_attempts: u32,
    pub backoff_initial_secs: u64,
    pub backoff_max_secs: u64,
    pub poll_interval_secs: u64,
}

/// The rule of the configuration that is broken.
#[derive(Debug, Clone, Copy, PartialEq, Eq, Structural)]
pub enum ConfigError {
    EmptyHostname,
    EmptyAppname,
    EmptyUsername,
    EmptyAccountId,
    NoAllowedDomains,
    ZeroMessageSize,
    ZeroRecipients,
    ZeroCommandTimeout,
    ZeroAttempts,
    ZeroInitialBackoff,
    MaxBackoffBelowInitial,
    ZeroPollInterval,
    EmptyBindAddress,
    TlsPathsNotSetTogether,
}

/// TLS settings, in terms of text.
pub struct TlsSettingsModel {
    pub cert_name: Option<Seq<char>>,
    pub fullchain_path: Option<Seq<char>>,
    pub privkey_path: Option<Seq<char>>,
    pub allow_insecure_auth: bool,
}

impl View for TlsSettings {
    type V = TlsSettingsModel;

    open spec fn view(&self) -> TlsSettingsModel {
        TlsSettingsModel {
            cert_name: text::optional_text(self.cert_name),
            fullchain_path: text::optional_text(self.fullchain_path),
            privkey_path: text::optional_text(self.privkey_path),
            allow_insecure_auth: self.allow_insecure_auth,
        }
    }
}

/// Queue settings, in terms of text and numbers.
pub struct QueueConfigModel {
    pub spool_dir: Seq<char>,
    pub max_attempts: nat,
    pub backoff_initial_secs: nat,
    pub backoff_max_secs: nat,
    pub poll_interval_secs: nat,
}

impl View for QueueConfig {
    type V = QueueConfigModel;

    open spec fn view(&self) -> QueueConfigModel {
        QueueConfigModel {
            spool_dir: self.spool_dir@,
            max_attempts: self.max_attempts as nat,
            backoff_initial_secs: self.backoff_initial_secs as nat,
            backoff_max_secs: self.backoff_max_secs as nat,
            poll_interval_secs: self.poll_interval_secs as nat,
        }
    }
}

/// A configuration, in terms of text and numbers.
pub struct AppConfigModel {
    pub hostname: Seq<char>,
    pub appname: Seq<char>,
    pub max_message_size: nat,
    pub max_recipients: nat,
    pub command_timeout_secs: nat,
    pub smtp_25: Seq<char>,
    pub submission_587: Seq<char>,
    pub smtps_465: Seq<char>,
    pub username: Seq<char>,
    pub allowed_domains: Seq<Seq<char>>,
    pub account_id: Seq<char>,
    pub tls: TlsSettingsModel,
    pub queue: QueueConfigModel,
}

impl View for AppConfig {
    type V = AppConfigModel;

    open spec fn view(&self) -> AppConfigModel {
        AppConfigModel {
            hostname: self.hostname@,
            appname: self.appname@,
            max_message_size: self.max_message_size as nat,
            max_recipients: self.max_recipients as nat,
            command_timeout_secs: self.command_timeout_secs as nat,
            smtp_25: self.ports.smtp_25@,
            submission_587: self.ports.submission_587@,
            smtps_465: self.ports.smtps_465@,
            username: self.auth.username@,
            allowed_domains: text::texts(self.senders.allowed_domains@),
            account_id: self.cloudflare.account_id@,
            tls: self.tls@,
            queue: self.queue@,
        }
    }
}

/// The first rule that a configuration breaks, in the order in which they are checked.
pub open spec fn broken_rule(config: AppConfigModel) -> Option<ConfigError> {
    if config.hostname.len() == 0 {
        Some(ConfigError::EmptyHostname)
    } else if config.appname.len() == 0 {
        Some(ConfigError::EmptyAppname)
    } else if config.username.len() == 0 {
        Some(ConfigError::EmptyUsername)
    } else if config.account_id.len() == 0 {
        Some(ConfigError::EmptyAccountId)
    } else if config.allowed_domains.len() == 0 {
        Some(ConfigError::NoAllowedDomains)
    } else if config.max_message_size == 0 {
        Some(ConfigError::ZeroMessageSize)
    } else if config.max_recipients == 0 {
        Some(ConfigError::ZeroRecipients)
    } else if config.command_timeout_secs == 0 {
        Some(ConfigError::ZeroCommandTimeout)
    } else if config.queue.max_attempts == 0 {
        Some(ConfigError::ZeroAttempts)
    } else if config.queue.backoff_initial_secs == 0 {
        Some(ConfigError::ZeroInitialBackoff)
    } else if config.queue.backoff_max_secs < config.queue.backoff_initial_secs {
        Some(ConfigError::MaxBackoffBelowInitial)
    } else if config.queue.poll_interval_secs == 0 {
        Some(ConfigError::ZeroPollInterval)
    } else if text::trimmed(config.smtp_25).len() == 0 || text::trimmed(
        config.submission_587,
    ).len() == 0 || text::trimmed(config.smtps_465).len() == 0 {
        Some(ConfigError::EmptyBindAddress)
    } else if config.tls.fullchain_path is Some != config.tls.privkey_path is Some {
        Some(ConfigError::TlsPathsNotSetTogether)
    } else {
        None
    }
}

impl ConfigError {
    /// The rule in words.
    pub open spec fn text(self) -> Seq<char> {
        match self {
            ConfigError::EmptyHostname => "hostname must not be empty"@,
            ConfigError::EmptyAppname => "appname must not be empty"@,
            ConfigError::EmptyUsername => "auth.username must not be empty"@,
            ConfigError::EmptyAccountId => "cloudflare.account_id must not be empty"@,
            ConfigError::NoAllowedDomains =>
                "senders.allowed_domains must contain at least one domain"@,
            ConfigError::ZeroMessageSize => "max_message_size must be greater than 0"@,
            ConfigError::ZeroRecipients => "max_recipients must be greater than 0"@,
            ConfigError::ZeroCommandTimeout => "command_timeout_secs must be greater than 0"@,
            ConfigError::ZeroAttempts => "queue.max_attempts must be greater than 0"@,
            ConfigError::ZeroInitialBackoff =>
                "queue.backoff_initial_secs must be greater than 0"@,
            ConfigError::MaxBackoffBelowInitial =>
                "queue.backoff_max_secs must be >= queue.backoff_initial_secs"@,
            ConfigError::ZeroPollInterval => "queue.poll_interval_secs must be greater than 0"@,
            ConfigError::EmptyBindAddress => "listener bind addresses must not be empty"@,
            ConfigError::TlsPathsNotSetTogether =>
                "tls.fullchain_path and tls.privkey_path must be set together"@,
        }
    }

    /// Says which rule is broken.
    pub fn message(&self) -> (message: String)
        ensures
            message@ == self.text(),
    {
        let message = match self {
            ConfigError::EmptyHostname => "hostname must not be empty",
            ConfigError::EmptyAppname => "appname must not be empty",
            ConfigError::EmptyUsername => "auth.username must not be empty",
            ConfigError::EmptyAccountId => "cloudflare.account_id must not be empty",
            ConfigError::NoAllowedDomains =>
                "senders.allowed_domains must contain at least one domain",
            ConfigError::ZeroMessageSize => "max_message_size must be greater than 0",
            ConfigError::ZeroRecipients => "max_recipients must be greater than 0",
            ConfigError::ZeroCommandTimeout => "command_timeout_secs must be greater than 0",
            ConfigError::ZeroAttempts => "queue.max_attempts must be greater than 0",
            ConfigError::ZeroInitialBackoff =>
                "queue.backoff_initial_secs must be greater than 0",
            ConfigError::MaxBackoffBelowInitial =>
                "queue.backoff_max_secs must be >= queue.backoff_initial_secs",
            ConfigError::ZeroPollInterval => "queue.poll_interval_secs must be greater than 0",
            ConfigError::EmptyBindAddress => "listener bind addresses must not be empty",
            ConfigError::TlsPathsNotSetTogether =>
                "tls.fullchain_path and tls.privkey_path must be set together",
        };
        message.to_owned()
    }
}

/// A domain as it is compared: without white space around it and leading `@`, in small letters.
pub open spec fn normalized_domain(domain: Seq<char>) -> Seq<char> {
    text::lowercase(text::without_leading(text::trimmed(domain), '@'))
}

/// The domains as they are compared.
pub open spec fn normalized_domains(domains: Seq<Seq<char>>) -> Seq<Seq<char>> {
    domains.map_values(|domain: Seq<char>| normalized_domain(domain))
}

/// A configuration normalized: white space around names is dropped, the allowed domains are
/// brought into the form in which they are compared, and nothing else changes.
pub open spec fn normalized(config: AppConfigModel) -> AppConfigModel {
    AppConfigModel {
        hostname: text::trimmed(config.hostname),
        appname: text::trimmed(config.appname),
        username: text::trimmed(config.username),
        account_id: text::trimmed(config.account_id),
        allowed_domains: normalized_domains(config.allowed_domains),
        ..config
    }
}

/// Normalizes a configuration in place.
pub fn normalize_config(config: &mut AppConfig)
    ensures
        final(config)@ == normalized(old(config)@),
{
    let ghost before = *config;
    config.hostname = config.hostname.as_str().trim().to_owned();
    config.appname = config.appname.as_str().trim().to_owned();
    config.auth.username = config.auth.username.as_str().trim().to_owned();
    config.cloudflare.account_id = config.cloudflare.account_id.as_str().trim().to_owned();
    let mut domains: Vec<String> = Vec::new();
    let mut i: usize = 0;
    while i < config.senders.allowed_domains.len()
        invariant
            config.senders == before.senders,
            i <= config.senders.allowed_domains@.len(),
            domains@.len() == i,
            forall|k: int|
                0 <= k < i ==> (#[trigger] domains@[k])@ == normalized_domain(
                    before.senders.allowed_domains@[k]@,
                ),
        decreases config.senders.allowed_domains@.len() - i,
    {
        let domain = config.senders.allowed_domains[i].as_str().trim();
        domains.push(text::trim_start_char(domain, '@').to_ascii_lowercase());
        i += 1;
    }
    assert(text::texts(domains@) =~= normalized_domains(
        text::texts(before.senders.allowed_domains@),
    ));
    config.senders.allowed_domains = domains;
}

/// Checks the rules of a configuration and gives the first one that it breaks.
pub fn validate_config(config: &AppConfig) -> (res: Result<(), ConfigError>)
    ensures
        res == (match broken_rule(config@) {
            Some(rule) => Err(rule),
            None => Ok(()),
        }),
{
    if config.hostname.as_str().is_empty() {
        return Err(ConfigError::EmptyHostname);
    }
    if config.appname.as_str().is_empty() {
        return Err(ConfigError::EmptyAppname);
    }
    if config.auth.username.as_str().is_empty() {
        return Err(ConfigError::EmptyUsername);
    }
    if config.cloudflare.account_id.as_str().is_empty() {
        return Err(ConfigError::EmptyAccountId);
    }
    if config.senders.allowed_domains.is_empty() {
        return Err(ConfigError::NoAllowedDomains);
    }
    if config.max_message_size == 0 {
        return Err(ConfigError::ZeroMessageSize);
    }
    if config.max_recipients == 0 {
        return Err(ConfigError::ZeroRecipients);
    }
    if config.command_timeout_secs == 0 {
        return Err(ConfigError::ZeroCommandTimeout);
    }
    if config.queue.max_attempts == 0 {
        return Err(ConfigError::ZeroAttempts);
    }
    if config.queue.backoff_initial_secs == 0 {
        return Err(ConfigError::ZeroInitialBackoff);
    }
    if config.queue.backoff_max_secs < config.queue.backoff_initial_secs {
        return Err(ConfigError::MaxBackoffBelowInitial);
    }
    if config.queue.poll_interval_secs == 0 {
        return Err(ConfigError::ZeroPollInterval);
    }
    if config.ports.smtp_25.as_str().trim().is_empty()
        || config.ports.submission_587.as_str().trim().is_empty()
        || config.ports.smtps_465.as_str().trim().is_empty() {
        return Err(ConfigError::EmptyBindAddress);
    }
    if config.tls.fullchain_path.is_some() != config.tls.privkey_path.is_some() {
        return Err(ConfigError::TlsPathsNotSetTogether);
    }
    Ok(())
}

/// Normalizes a configuration, then checks its rules.
pub fn check_config(config: AppConfig) -> (res: Result<AppConfig, ConfigError>)
    ensures
        match broken_rule(normalized(config@)) {
            None => res matches Ok(checked) && checked@ == normalized(config@),
            Some(rule) => res == Err::<AppConfig, ConfigError>(rule),
        },
{
    let mut config = config;
    normalize_config(&mut config);
    match validate_config(&config) {
        Ok(()) => Ok(config),
        Err(rule) => Err(rule),
    }
}

/// What keeps the secrets from being used.
#[derive(Debug, Clone, Copy, PartialEq, Eq, Structural)]
pub enum SecretsError {
    MissingPassword,
    MissingApiToken,
    EmptyPassword,
    EmptyApiToken,
}

impl SecretsError {
    /// The error in words.
    pub open spec fn text(self) -> Seq<char> {
        match self {
            SecretsError::MissingPassword => "missing SMTP2CF_SMTP_PASSWORD environment variable"@,
            SecretsError::MissingApiToken =>
                "missing SMTP2CF_CLOUDFLARE_API_TOKEN environment variable"@,
            SecretsError::EmptyPassword => "SMTP2CF_SMTP_PASSWORD must not be empty"@,
            SecretsError::EmptyApiToken => "SMTP2CF_CLOUDFLARE_API_TOKEN must not be empty"@,
        }
    }

    /// Says what is wrong.
    pub fn message(&self) -> (message: String)
        ensures
            message@ == self.text(),
    {
        let message = match self {
            SecretsError::MissingPassword => "missing SMTP2CF_SMTP_PASSWORD environment variable",
            SecretsError::MissingApiToken =>
                "missing SMTP2CF_CLOUDFLARE_API_TOKEN environment variable",
            SecretsError::EmptyPassword => "SMTP2CF_SMTP_PASSWORD must not be empty",
            SecretsError::EmptyApiToken => "SMTP2CF_CLOUDFLARE_API_TOKEN must not be empty",
        };
        message.to_owned()
    }
}

/// What is wrong with the two secrets, if anything: both must be there, and then neither empty.
pub open spec fn secrets_error(
    smtp_password: Option<Seq<char>>,
    api_token: Option<Seq<char>>,
) -> Option<SecretsError> {
    match (smtp_password, api_token) {
        (None, _) => Some(SecretsError::MissingPassword),
        (_, None) => Some(SecretsError::MissingApiToken),
        (Some(password), Some(token)) => if password.len() == 0 {
            Some(SecretsError::EmptyPassword)
        } else if token.len() == 0 {
            Some(SecretsError::EmptyApiToken)
        } else {
            None
        },
    }
}

/// Takes the two secrets as the environment gives them.
pub fn load_secrets(smtp_password: Option<String>, api_token: Option<String>) -> (res: Result<
    Secrets,
    SecretsError,
>)
    ensures
        match secrets_error(text::optional_text(smtp_password), text::optional_text(api_token)) {
            Some(e) => res == Err::<Secrets, SecretsError>(e),
            None => res matches Ok(secrets) && Some(secrets.smtp_password) == smtp_password && Some(
                secrets.cloudflare_api_token,
            ) == api_token,
        },
{
    let smtp_password = match smtp_password {
        Some(password) => password,
        None => return Err(SecretsError::MissingPassword),
    };
    let cloudflare_api_token = match api_token {
        Some(token) => token,
        None => return Err(SecretsError::MissingApiToken),
    };
    if smtp_password.as_str().is_empty() {
        return Err(SecretsError::EmptyPassword);
    }
    if cloudflare_api_token.as_str().is_empty() {
        return Err(SecretsError::EmptyApiToken);
    }
    Ok(Secrets { smtp_password, cloudflare_api_token })
}

/// The directories of a spool: itself, the pending messages and the dead ones.
pub open spec fn spool_directories(spool_dir: Seq<char>) -> Seq<Seq<char>> {
    seq![
        spool_dir,
        text::joined_path(spool_dir, "pending"@),
        text::joined_path(spool_dir, "dead"@),
    ]
}

/// Names the directories that a spool needs, in the order in which they are made.
pub fn queue_dirs(spool_dir: &str) -> (dirs: Vec<String>)
    ensures
        text::texts(dirs@) == spool_directories(spool_dir@),
{
    let mut dirs: Vec<String> = Vec::new();
    dirs.push(spool_dir.to_owned());
    dirs.push(text::join_path(spool_dir, "pending"));
    dirs.push(text::join_path(spool_dir, "dead"));
    dirs
}

/// Names the file that is written to find out whether a spool can be written to.
pub fn write_probe_path(spool_dir: &str) -> (path: String)
    ensures
        path@ == text::joined_path(spool_dir@, ".write-test"@),
{
    text::join_path(spool_dir, ".write-test")
}

/// Resolved TLS material, in terms of text.
pub struct ResolvedTlsModel {
    pub fullchain_path: Seq<char>,
    pub privkey_path: Seq<char>,
    pub source_label: Seq<char>,
}

impl View for ResolvedTls {
    type V = ResolvedTlsModel;

    open spec fn view(&self) -> ResolvedTlsModel {
        ResolvedTlsModel {
            fullchain_path: self.fullchain_path@,
            privkey_path: self.privkey_path@,
            source_label: self.source_label@,
        }
    }
}

/// The TLS material that the settings point at: the two explicit paths where both are set, else
/// what Certbot keeps under the certificate's name.
pub open spec fn tls_candidate(tls: TlsSettingsModel) -> Option<ResolvedTlsModel> {
    match (tls.fullchain_path, tls.privkey_path, tls.cert_name) {
        (Some(fullchain_path), Some(privkey_path), _) => Some(
            ResolvedTlsModel { fullchain_path, privkey_path, source_label: "explicit-paths"@ },
        ),
        (_, _, Some(cert_name)) => {
            let base = text::joined_path("/etc/letsencrypt/live"@, cert_name);
            Some(
                ResolvedTlsModel {
                    fullchain_path: text::joined_path(base, "fullchain.pem"@),
                    privkey_path: text::joined_path(base, "privkey.pem"@),
                    source_label: "certbot:"@ + cert_name,
                },
            )
        },
        _ => None,
    }
}

/// Whether the settings name both files themselves.
pub open spec fn has_explicit_paths(tls: TlsSettingsModel) -> bool {
    tls.fullchain_path is Some && tls.privkey_path is Some
}

/// An explicitly configured file that does not exist.
#[derive(Debug, Clone)]
pub enum TlsError {
    MissingFullchain(String),
    MissingPrivkey(String),
}

impl TlsError {
    /// The error in words.
    pub open spec fn text(self) -> Seq<char> {
        match self {
            TlsError::MissingFullchain(path) =>
                "configured tls.fullchain_path does not exist: "@ + path@,
            TlsError::MissingPrivkey(path) =>
                "configured tls.privkey_path does not exist: "@ + path@,
        }
    }

    /// Says which file is missing.
    pub fn message(&self) -> (message: String)
        ensures
            message@ == self.text(),
    {
        match self {
            TlsError::MissingFullchain(path) => {
                let mut message = "configured tls.fullchain_path does not exist: ".to_owned();
                message.append(path.as_str());
                message
            },
            TlsError::MissingPrivkey(path) => {
                let mut message = "configured tls.privkey_path does not exist: ".to_owned();
                message.append(path.as_str());
                message
            },
        }
    }
}

/// A missing file, in terms of text.
pub enum TlsErrorModel {
    MissingFullchain(Seq<char>),
    MissingPrivkey(Seq<char>),
}

impl View for TlsError {
    type V = TlsErrorModel;

    open spec fn view(&self) -> TlsErrorModel {
        match self {
            TlsError::MissingFullchain(path) => TlsErrorModel::MissingFullchain(path@),
            TlsError::MissingPrivkey(path) => TlsErrorModel::MissingPrivkey(path@),
        }
    }
}

/// The TLS material that is used, given the paths at which there is a regular file. Explicitly
/// configured files must exist; where one of Certbot's is missing, there is no material.
pub open spec fn tls_resolution(tls: TlsSettingsModel, regular_files: Seq<Seq<char>>) -> Result<
    Option<ResolvedTlsModel>,
    TlsErrorModel,
> {
    match tls_candidate(tls) {
        None => Ok(None),
        Some(candidate) => {
            let has_fullchain = regular_files.contains(candidate.fullchain_path);
            let has_privkey = regular_files.contains(candidate.privkey_path);
            if has_fullchain && has_privkey {
                Ok(Some(candidate))
            } else if !has_explicit_paths(tls) {
                Ok(None)
            } else if !has_fullchain {
                Err(TlsErrorModel::MissingFullchain(candidate.fullchain_path))
            } else {
                Err(TlsErrorModel::MissingPrivkey(candidate.privkey_path))
            }
        },
    }
}

/// The view of TLS material that may be absent.
pub open spec fn optional_tls(tls: Option<ResolvedTls>) -> Option<ResolvedTlsModel> {
    match tls {
        Some(found) => Some(found@),
        None => None,
    }
}

/// Finds the TLS material that the settings point at, whether or not its files exist.
pub fn find_tls_candidate(tls: &TlsSettings) -> (candidate: Option<ResolvedTls>)
    ensures
        candidate is Some == tls_candidate(tls@) is Some,
        candidate matches Some(found) ==> tls_candidate(tls@) == Some(found@),
{
    if let (Some(fullchain_path), Some(privkey_path)) = (&tls.fullchain_path, &tls.privkey_path) {
        return Some(
            ResolvedTls {
                fullchain_path: fullchain_path.clone(),
                privkey_path: privkey_path.clone(),
                source_label: "explicit-paths".to_owned(),
            },
        );
    }
    if let Some(cert_name) = &tls.cert_name {
        let base = text::join_path("/etc/letsencrypt/live", cert_name.as_str());
        let mut source_label = "certbot:".to_owned();
        source_label.append(cert_name.as_str());
        return Some(
            ResolvedTls {
                fullchain_path: text::join_path(base.as_str(), "fullchain.pem"),
                privkey_path: text::join_path(base.as_str(), "privkey.pem"),
                source_label,
            },
        );
    }
    None
}

/// Whether a text is among some texts.
fn contains_text(texts: &[String], wanted: &str) -> (found: bool)
    ensures
        found == text::texts(texts@).contains(wanted@),
{
    let mut i: usize = 0;
    while i < texts.len()
        invariant
            i <= texts@.len(),
            forall|k: int| 0 <= k < i ==> (#[trigger] texts@[k])@ != wanted@,
        decreases texts@.len() - i,
    {
        if text::same_text(texts[i].as_str(), wanted) {
            assert(text::texts(texts@)[i as int] == wanted@);
            return true;
        }
        i += 1;
    }
    false
}

/// Decides whether there is TLS material, given the paths at which there is a regular file.
/// Explicitly configured files must exist; Certbot's may be missing.
pub fn resolve_tls(tls: &TlsSettings, regular_files: &[String]) -> (res: Result<
    Option<ResolvedTls>,
    TlsError,
>)
    ensures
        match tls_resolution(tls@, text::texts(regular_files@)) {
            Ok(tls) => res matches Ok(got) && optional_tls(got) == tls,
            Err(e) => res matches Err(got) && got@ == e,
        },
{
    let candidate = match find_tls_candidate(tls) {
        Some(candidate) => candidate,
        None => return Ok(None),
    };
    let explicit = tls.fullchain_path.is_some() && tls.privkey_path.is_some();
    if !contains_text(regular_files, candidate.fullchain_path.as_str()) {
        if explicit {
            return Err(TlsError::MissingFullchain(candidate.fullchain_path));
        }
        return Ok(None);
    }
    if !contains_text(regular_files, candidate.privkey_path.as_str()) {
        if explicit {
            return Err(TlsError::MissingPrivkey(candidate.privkey_path));
        }
        return Ok(None);
    }
    Ok(Some(candidate))
}

/// What keeps a configuration from being used.
#[derive(Debug, Clone)]
pub enum PrepareError {
    Config(ConfigError),
    Secrets(SecretsError),
    Tls(TlsError),
}

impl PrepareError {
    /// The error in words.
    pub open spec fn text(self) -> Seq<char> {
        match self {
            PrepareError::Config(e) => e.text(),
            PrepareError::Secrets(e) => e.text(),
            PrepareError::Tls(e) => e.text(),
        }
    }

    /// Says what is wrong.
    pub fn message(&self) -> (message: String)
        ensures
            message@ == self.text(),
    {
        match self {
            PrepareError::Config(e) => e.message(),
            PrepareError::Secrets(e) => e.message(),
            PrepareError::Tls(e) => e.message(),
        }
    }
}

/// Normalizes and checks a configuration, and joins it with the secrets and the TLS material.
pub fn prepare_config(
    config: AppConfig,
    smtp_password: Option<String>,
    api_token: Option<String>,
    regular_files: &[String],
) -> (res: Result<PreparedConfig, PrepareError>)
    ensures
        match (
            broken_rule(normalized(config@)),
            secrets_error(text::optional_text(smtp_password), text::optional_text(api_token)),
            tls_resolution(config.tls@, text::texts(regular_files@)),
        ) {
            (Some(rule), _, _) => res == Err::<PreparedConfig, PrepareError>(
                PrepareError::Config(rule),
            ),
            (None, Some(e), _) => res == Err::<PreparedConfig, PrepareError>(
                PrepareError::Secrets(e),
            ),
            (None, None, Err(e)) => res matches Err(PrepareError::Tls(got)) && got@ == e,
            (None, None, Ok(tls)) => res matches Ok(prepared) && prepared.config@ == normalized(
                config@,
            ) && Some(prepared.secrets.smtp_password) == smtp_password && Some(
                prepared.secrets.cloudflare_api_token,
            ) == api_token && optional_tls(prepared.tls) == tls,
        },
{
    let config = match check_config(config) {
        Ok(config) => config,
        Err(rule) => return Err(PrepareError::Config(rule)),
    };
    let secrets = match load_secrets(smtp_password, api_token) {
        Ok(secrets) => secrets,
        Err(e) => return Err(PrepareError::Secrets(e)),
    };
    let tls = match resolve_tls(&config.tls, regular_files) {
        Ok(tls) => tls,
        Err(e) => return Err(PrepareError::Tls(e)),
    };
    Ok(PreparedConfig { config, secrets, tls })
}

/// What a start says about TLS.
pub open spec fn tls_summary(tls: Option<ResolvedTlsModel>) -> Seq<char> {
    match tls {
        Some(found) => "TLS enabled via cert="@ + found.source_label + " cert_path="@
            + found.fullchain_path + " key_path="@ + found.privkey_path,
        None =>
            "TLS not found; only degraded plaintext port 25 will be usable unless allow_insecure_auth=true"@,
    }
}

/// Says what a start with this configuration means for TLS.
pub fn summarize_tls(prepared: &PreparedConfig) -> (summary: String)
    ensures
        summary@ == tls_summary(optional_tls(prepared.tls)),
{
    match &prepared.tls {
        Some(found) => {
            let mut summary = "TLS enabled via cert=".to_owned();
            summary.append(found.source_label.as_str());
            summary.append(" cert_path=");
            summary.append(found.fullchain_path.as_str());
            summary.append(" key_path=");
            summary.append(found.privkey_path.as_str());
            summary
        },
        None =>
            "TLS not found; only degraded plaintext port 25 will be usable unless allow_insecure_auth=true".to_owned(),
    }
}

/// The domain of a sender's address, as it is compared: what follows the last `@`, without white
/// space around it and closing angle brackets, in small letters.
pub open spec fn sender_domain(address: Seq<char>) -> Option<Seq<char>> {
    if address.contains('@') {
        Some(
            text::lowercase(
                text::without_trailing(text::trimmed(text::after_last(address, '@')), '>'),
            ),
        )
    } else {
        None
    }
}

/// Whether mail may come from an address.
pub open spec fn sender_allowed(allowed_domains: Seq<Seq<char>>, address: Seq<char>) -> bool {
    sender_domain(address) matches Some(domain) && allowed_domains.contains(domain)
}

/// Whether the domain of an address is an allowed one.
pub fn is_allowed_sender_domain(allowed_domains: &[String], address: &str) -> (allowed: bool)
    ensures
        allowed == sender_allowed(text::texts(allowed_domains@), address@),
{
    match text::rsplit_once_char(address, '@') {
        Some((before, after)) => {
            proof {
                text::lemma_after_last(before@, '@', after@);
            }
            let domain = text::trim_end_char(after.trim(), '>').to_ascii_lowercase();
            contains_text(allowed_domains, domain.as_str())
        },
        None => false,
    }
}

/// The name that the relay greets with where none is configured.
pub fn default_appname() -> (name: String)
    ensures
        name@ == "smtp2cf"@,
{
    "smtp2cf".to_owned()
}

/// The limit on a message in bytes where none is configured.
pub fn default_max_message_size() -> (size: usize)
    ensures
        size == 25 * 1024 * 1024,
{
    25 * 1024 * 1024
}

/// The limit on recipients where none is configured.
pub fn default_max_recipients() -> (count: usize)
    ensures
        count == 50,
{
    50
}

/// The time that a client has for a command, in seconds, where none is configured.
pub fn default_command_timeout_secs() -> (secs: u64)
    ensures
        secs == 300,
{
    300
}

/// Whether mail may come from an address does not depend on the case of its ASCII letters.
pub proof fn law_sender_case_does_not_matter(
    allowed_domains: Seq<Seq<char>>,
    a: Seq<char>,
    b: Seq<char>,
)
    requires
        text::lowercase(a) == text::lowercase(b),
    ensures
        sender_allowed(allowed_domains, a) == sender_allowed(allowed_domains, b),
{
    lemma_sender_domain_lowercase(a);
    lemma_sender_domain_lowercase(b);
}

proof fn lemma_sender_domain_lowercase(address: Seq<char>)
    ensures
        sender_domain(text::lowercase(address)) == sender_domain(address),
{
    let after = text::after_last(address, '@');
    text::lemma_lowercase_after_at(address);
    text::lemma_lowercase_trimmed(after);
    text::lemma_lowercase_without_brackets(text::trimmed(after));
    text::lemma_lowercase_twice(text::without_trailing(text::trimmed(after), '>'));
}

/// Mail from any mailbox of an allowed domain is allowed, in whatever case the domain is written.
/// The domain stands in the list in the form in which it is compared, and has in it no `@` and at
/// its ends no white space and no closing angle bracket.
pub proof fn law_mailbox_of_allowed_domain_is_allowed(
    allowed_domains: Seq<Seq<char>>,
    mailbox: Seq<char>,
    domain: Seq<char>,
)
    requires
        allowed_domains.contains(text::lowercase(domain)),
        !domain.contains('@'),
        text::is_trimmed(domain),
        domain.len() > 0 ==> domain.last() != '>',
    ensures
        sender_allowed(allowed_domains, mailbox.push('@') + domain),
{
    let address = mailbox.push('@') + domain;
    assert(address[mailbox.len() as int] == '@');
    text::lemma_after_last(mailbox, '@', domain);
    text::lemma_trimmed(domain);
}

/// An address without `@` is never allowed.
pub proof fn law_address_without_at_is_refused(allowed_domains: Seq<Seq<char>>, address: Seq<char>)
    requires
        !address.contains('@'),
    ensures
        !sender_allowed(allowed_domains, address),
{
}

/// Of all files, only the two that the settings point at decide about TLS.
pub proof fn law_only_the_candidate_files_matter(
    tls: TlsSettingsModel,
    files: Seq<Seq<char>>,
    others: Seq<Seq<char>>,
)
    requires
        tls_candidate(tls) matches Some(candidate) ==> files.contains(candidate.fullchain_path)
            == others.contains(candidate.fullchain_path) && files.contains(candidate.privkey_path)
            == others.contains(candidate.privkey_path),
    ensures
        tls_resolution(tls, files) == tls_resolution(tls, others),
{
}

/// TLS material is used only where both of its files exist.
pub proof fn law_tls_needs_both_files(tls: TlsSettingsModel, files: Seq<Seq<char>>)
    ensures
        tls_resolution(tls, files) matches Ok(Some(found)) ==> files.contains(found.fullchain_path)
            && files.contains(found.privkey_path),
{
}

/// Normalizing twice is the same as once. (A domain written with white space after its `@` is
/// left with that white space, which a second time would take away.)
pub proof fn law_normalizing_again_changes_nothing(config: AppConfigModel)
    requires
        forall|k: int|
            0 <= k < config.allowed_domains.len() ==> ({
                let domain = normalized_domain(#[trigger] config.allowed_domains[k]);
                domain.len() > 0 ==> !text::is_white_space(domain.first())
            }),
    ensures
        normalized(normalized(config)) == normalized(config),
{
    text::lemma_trimmed(config.hostname);
    text::lemma_trimmed(text::trimmed(config.hostname));
    text::lemma_trimmed(config.appname);
    text::lemma_trimmed(text::trimmed(config.appname));
    text::lemma_trimmed(config.username);
    text::lemma_trimmed(text::trimmed(config.username));
    text::lemma_trimmed(config.account_id);
    text::lemma_trimmed(text::trimmed(config.account_id));
    let once = normalized_domains(config.allowed_domains);
    assert forall|k: int| 0 <= k < once.len() implies normalized_domain(#[trigger] once[k])
        == once[k] by {
        lemma_normalized_domain_twice(config.allowed_domains[k]);
    }
    assert(normalized_domains(once) =~= once);
}

proof fn lemma_normalized_domain_twice(domain: Seq<char>)
    requires
        normalized_domain(domain).len() > 0 ==> !text::is_white_space(
            normalized_domain(domain).first(),
        ),
    ensures
        normalized_domain(normalized_domain(domain)) == normalized_domain(domain),
{
    let bare = text::without_leading(text::trimmed(domain), '@');
    let once = text::lowercase(bare);
    text::lemma_trimmed(domain);
    text::lemma_without_leading(text::trimmed(domain), '@');
    if bare.len() > 0 {
        text::lemma_ascii_lower(bare.first());
        text::lemma_ascii_lower(bare.last());
    }
    text::lemma_trimmed(once);
    text::lemma_lowercase_twice(bare);
}

/// What is said of a configuration is said of its settings: each stands for itself.
pub proof fn law_settings_stand_for_themselves(config: AppConfig)
    ensures
        config@.hostname == config.hostname@,
        config@.appname == config.appname@,
        config@.max_message_size == config.max_message_size,
        config@.max_recipients == config.max_recipients,
        config@.command_timeout_secs == config.command_timeout_secs,
        config@.smtp_25 == config.ports.smtp_25@,
        config@.submission_587 == config.ports.submission_587@,
        config@.smtps_465 == config.ports.smtps_465@,
        config@.username == config.auth.username@,
        config@.account_id == config.cloudflare.account_id@,
        config@.allowed_domains.len() == config.senders.allowed_domains@.len(),
        forall|k: int|
            0 <= k < config@.allowed_domains.len() ==> #[trigger] config@.allowed_domains[k]
                == config.senders.allowed_domains@[k]@,
        config@.tls.cert_name is Some == config.tls.cert_name is Some,
        config.tls.cert_name matches Some(name) ==> config@.tls.cert_name == Some(name@),
        config@.tls.fullchain_path is Some == config.tls.fullchain_path is Some,
        config.tls.fullchain_path matches Some(path) ==> config@.tls.fullchain_path == Some(path@),
        config@.tls.privkey_path is Some == config.tls.privkey_path is Some,
        config.tls.privkey_path matches Some(path) ==> config@.tls.privkey_path == Some(path@),
        config@.tls.allow_insecure_auth == config.tls.allow_insecure_auth,
        config@.queue.spool_dir == config.queue.spool_dir@,
        config@.queue.max_attempts == config.queue.max_attempts,
        config@.queue.backoff_initial_secs == config.queue.backoff_initial_secs,
        config@.queue.backoff_max_secs == config.queue.backoff_max_secs,
        config@.queue.poll_interval_secs == config.queue.poll_interval_secs,
{
}

/// TLS material that was found stands for its two paths and its label, and a missing file for its
/// path.
pub proof fn law_found_material_stands_for_itself(tls: ResolvedTls, path: String)
    ensures
        TlsError::MissingFullchain(path)@ == TlsErrorModel::MissingFullchain(path@),
        TlsError::MissingPrivkey(path)@ == TlsErrorModel::MissingPrivkey(path@),
        TlsError::MissingFullchain(path).text()
            == "configured tls.fullchain_path does not exist: "@ + path@,
        TlsError::MissingPrivkey(path).text() == "configured tls.privkey_path does not exist: "@
            + path@,
        optional_tls(Some(tls)) matches Some(found) && found.fullchain_path == tls.fullchain_path@
            && found.privkey_path == tls.privkey_path@ && found.source_label == tls.source_label@,
        optional_tls(None) == None::<ResolvedTlsModel>,
{
}

/// A domain is listed bare and in small letters, however many `@` stand before it and whatever
/// white space around it.
pub proof fn law_domains_are_listed_bare(
    before: Seq<char>,
    ats: Seq<char>,
    domain: Seq<char>,
    after: Seq<char>,
)
    requires
        forall|k: int| 0 <= k < before.len() ==> text::is_white_space(#[trigger] before[k]),
        forall|k: int| 0 <= k < ats.len() ==> #[trigger] ats[k] == '@',
        forall|k: int| 0 <= k < after.len() ==> text::is_white_space(#[trigger] after[k]),
        domain.len() > 0 ==> domain.first() != '@',
        domain.len() > 0 && ats.len() == 0 ==> !text::is_white_space(domain.first()),
        domain.len() > 0 ==> !text::is_white_space(domain.last()),
    ensures
        normalized_domain(before + (ats + domain) + after) == text::lowercase(domain),
{
    let core = ats + domain;
    if domain.len() > 0 {
        assert(core.last() == domain.last());
    } else if ats.len() > 0 {
        assert(core.last() == ats[ats.len() - 1]);
    }
    if ats.len() > 0 {
        assert(core.first() == ats[0]);
    } else {
        assert(core =~= domain);
    }
    text::law_trimming_takes_the_surrounding_white_space(before, core, after);
    text::law_leading_run_is_dropped(ats, domain, '@');
}

/// Normalizing trims the four names, brings each domain into the form in which it is compared, and
/// leaves every other setting as it is.
pub proof fn law_normalizing_changes_names_and_domains_only(config: AppConfigModel)
    ensures
        ({
            let after = normalized(config);
            &&& after.hostname == text::trimmed(config.hostname)
            &&& after.appname == text::trimmed(config.appname)
            &&& after.username == text::trimmed(config.username)
            &&& after.account_id == text::trimmed(config.account_id)
            &&& after.allowed_domains.len() == config.allowed_domains.len()
            &&& forall|k: int|
                0 <= k < config.allowed_domains.len() ==> #[trigger] after.allowed_domains[k]
                    == normalized_domain(config.allowed_domains[k])
            &&& after.max_message_size == config.max_message_size
            &&& after.max_recipients == config.max_recipients
            &&& after.command_timeout_secs == config.command_timeout_secs
            &&& after.smtp_25 == config.smtp_25
            &&& after.submission_587 == config.submission_587
            &&& after.smtps_465 == config.smtps_465
            &&& after.tls == config.tls
            &&& after.queue == config.queue
        }),
{
}

/// Whether an address holds nothing but white space.
pub open spec fn is_blank(address: Seq<char>) -> bool {
    forall|k: int| 0 <= k < address.len() ==> text::is_white_space(#[trigger] address[k])
}

/// A configuration passes exactly if its names are not empty, at least one domain is allowed, the
/// limits are not zero, the longest wait is not below the first, no listener has a blank address,
/// and the two TLS paths are set together.
pub proof fn law_sound_configurations_pass(config: AppConfigModel)
    ensures
        broken_rule(config) is None <==> {
            &&& config.hostname.len() > 0
            &&& config.appname.len() > 0
            &&& config.username.len() > 0
            &&& config.account_id.len() > 0
            &&& config.allowed_domains.len() > 0
            &&& config.max_message_size > 0
            &&& config.max_recipients > 0
            &&& config.command_timeout_secs > 0
            &&& config.queue.max_attempts > 0
            &&& 0 < config.queue.backoff_initial_secs <= config.queue.backoff_max_secs
            &&& config.queue.poll_interval_secs > 0
            &&& !is_blank(config.smtp_25)
            &&& !is_blank(config.submission_587)
            &&& !is_blank(config.smtps_465)
            &&& config.tls.fullchain_path is Some <==> config.tls.privkey_path is Some
        },
{
    lemma_blank_is_trimmed_away(config.smtp_25);
    lemma_blank_is_trimmed_away(config.submission_587);
    lemma_blank_is_trimmed_away(config.smtps_465);
}

proof fn lemma_blank_is_trimmed_away(address: Seq<char>)
    ensures
        is_blank(address) <==> text::trimmed(address).len() == 0,
{
    let none = Seq::<char>::empty();
    if is_blank(address) {
        assert(address + none + none =~= address);
        text::law_trimming_takes_the_surrounding_white_space(address, none, none);
    } else {
        let k = choose|k: int| 0 <= k < address.len() && !text::is_white_space(address[k]);
        text::lemma_trimmed_keeps_core(address, k);
    }
}

/// The rule that is reported is one that is broken, and those that come before it in the order of
/// the settings are kept.
pub proof fn law_the_first_broken_rule_is_reported(config: AppConfigModel)
    ensures
        match broken_rule(config) {
            None => true,
            Some(ConfigError::EmptyHostname) => config.hostname.len() == 0,
            Some(rule) => config.hostname.len() > 0 && match rule {
                ConfigError::EmptyHostname => false,
                ConfigError::EmptyAppname => config.appname.len() == 0,
                _ => config.appname.len() > 0 && match rule {
                    ConfigError::EmptyUsername => config.username.len() == 0,
                    _ => config.username.len() > 0 && match rule {
                        ConfigError::EmptyAccountId => config.account_id.len() == 0,
                        _ => config.account_id.len() > 0 && match rule {
                            ConfigError::NoAllowedDomains => config.allowed_domains.len() == 0,
                            _ => config.allowed_domains.len() > 0 && limits_rule_holds(
                                config,
                                rule,
                            ),
                        },
                    },
                },
            },
        },
{
    lemma_blank_is_trimmed_away(config.smtp_25);
    lemma_blank_is_trimmed_away(config.submission_587);
    lemma_blank_is_trimmed_away(config.smtps_465);
}

/// Whether a rule about the limits, the addresses or the TLS paths is broken, and those before it
/// are kept.
pub open spec fn limits_rule_holds(config: AppConfigModel, rule: ConfigError) -> bool {
    let queue = config.queue;
    match rule {
        ConfigError::ZeroMessageSize => config.max_message_size == 0,
        _ => config.max_message_size > 0 && match rule {
            ConfigError::ZeroRecipients => config.max_recipients == 0,
            _ => config.max_recipients > 0 && match rule {
                ConfigError::ZeroCommandTimeout => config.command_timeout_secs == 0,
                _ => config.command_timeout_secs > 0 && match rule {
                    ConfigError::ZeroAttempts => queue.max_attempts == 0,
                    _ => queue.max_attempts > 0 && match rule {
                        ConfigError::ZeroInitialBackoff => queue.backoff_initial_secs == 0,
                        ConfigError::MaxBackoffBelowInitial => 0 <= queue.backoff_max_secs
                            < queue.backoff_initial_secs,
                        _ => 0 < queue.backoff_initial_secs <= queue.backoff_max_secs && match rule {
                            ConfigError::ZeroPollInterval => queue.poll_interval_secs == 0,
                            ConfigError::EmptyBindAddress => queue.poll_interval_secs > 0 && (
                            is_blank(config.smtp_25) || is_blank(config.submission_587) || is_blank(
                                config.smtps_465,
                            )),
                            ConfigError::TlsPathsNotSetTogether => queue.poll_interval_secs > 0
                                && !is_blank(config.smtp_25) && !is_blank(config.submission_587)
                                && !is_blank(config.smtps_465)
                                && config.tls.fullchain_path.is_some()
                                != config.tls.privkey_path.is_some(),
                            _ => false,
                        },
                    },
                },
            },
        },
    }
}

/// Two secrets that are there and not empty are taken. Of those that are not, a missing one is
/// reported before an empty one, and the password before the token.
pub proof fn law_secrets_are_needed(password: Seq<char>, token: Seq<char>)
    ensures
        secrets_error(Some(password), Some(token)) is None <==> password.len() > 0 && token.len()
            > 0,
        secrets_error(None, Some(token)) == Some(SecretsError::MissingPassword),
        secrets_error(None, None) == Some(SecretsError::MissingPassword),
        secrets_error(Some(password), None) == Some(SecretsError::MissingApiToken),
        password.len() == 0 ==> secrets_error(Some(password), Some(token)) == Some(
            SecretsError::EmptyPassword,
        ),
        password.len() > 0 && token.len() == 0 ==> secrets_error(Some(password), Some(token))
            == Some(SecretsError::EmptyApiToken),
{
}

/// A spool has its own directory and in it two others, one for the pending messages and one for
/// the dead ones; the parent is made before them.
pub proof fn law_spools_have_three_directories(spool_dir: Seq<char>)
    ensures
        spool_directories(spool_dir).len() == 3,
        spool_directories(spool_dir)[0] == spool_dir,
        spool_directories(spool_dir)[1] == text::joined_path(spool_dir, "pending"@),
        spool_directories(spool_dir)[2] == text::joined_path(spool_dir, "dead"@),
        spool_dir.len() > 0 && spool_dir.last() != '/' ==> spool_directories(spool_dir)[1]
            == spool_dir + "/pending"@ && spool_directories(spool_dir)[2] == spool_dir + "/dead"@,
{
    reveal_strlit("pending");
    reveal_strlit("/pending");
    reveal_strlit("dead");
    reveal_strlit("/dead");
    assert(spool_dir.push('/') + "pending"@ =~= spool_dir + "/pending"@);
    assert(spool_dir.push('/') + "dead"@ =~= spool_dir + "/dead"@);
}

/// Explicit paths override the certificate's name. Where both files exist they are the material,
/// and where one is missing that is an error: the certificate's name never decides.
pub proof fn law_explicit_paths_override_the_name(
    tls: TlsSettingsModel,
    fullchain_path: Seq<char>,
    privkey_path: Seq<char>,
    files: Seq<Seq<char>>,
)
    requires
        tls.fullchain_path == Some(fullchain_path),
        tls.privkey_path == Some(privkey_path),
    ensures
        files.contains(fullchain_path) && files.contains(privkey_path) ==> (tls_resolution(
            tls,
            files,
        ) matches Ok(Some(found)) && found.fullchain_path == fullchain_path && found.privkey_path
            == privkey_path && found.source_label == "explicit-paths"@),
        !files.contains(fullchain_path) ==> tls_resolution(tls, files) == Err::<
            Option<ResolvedTlsModel>,
            TlsErrorModel,
        >(TlsErrorModel::MissingFullchain(fullchain_path)),
        files.contains(fullchain_path) && !files.contains(privkey_path) ==> tls_resolution(
            tls,
            files,
        ) == Err::<Option<ResolvedTlsModel>, TlsErrorModel>(
            TlsErrorModel::MissingPrivkey(privkey_path),
        ),
        tls_candidate(tls) matches Some(found) && found.fullchain_path == fullchain_path
            && found.privkey_path == privkey_path,
{
}

/// Without both explicit paths, the material is what Certbot keeps under the certificate's name,
/// where both of its files exist; else there is none, and that is no error.
pub proof fn law_certbot_material_is_found_by_name(
    tls: TlsSettingsModel,
    name: Seq<char>,
    files: Seq<Seq<char>>,
)
    requires
        tls.fullchain_path is None || tls.privkey_path is None,
        tls.cert_name == Some(name),
    ensures
        ({
            let base = text::joined_path("/etc/letsencrypt/live"@, name);
            let fullchain_path = text::joined_path(base, "fullchain.pem"@);
            let privkey_path = text::joined_path(base, "privkey.pem"@);
            &&& name.len() > 0 && name[0] != '/' && name.last() != '/' ==> fullchain_path
                == "/etc/letsencrypt/live/"@ + name + "/fullchain.pem"@ && privkey_path
                == "/etc/letsencrypt/live/"@ + name + "/privkey.pem"@
            &&& files.contains(fullchain_path) && files.contains(privkey_path) ==> (tls_resolution(
                tls,
                files,
            ) matches Ok(Some(found)) && found.fullchain_path == fullchain_path
                && found.privkey_path == privkey_path && found.source_label == "certbot:"@ + name)
            &&& !(files.contains(fullchain_path) && files.contains(privkey_path))
                ==> tls_resolution(tls, files) == Ok::<Option<ResolvedTlsModel>, TlsErrorModel>(
                None,
            )
            &&& tls_candidate(tls) matches Some(found) && found.fullchain_path == fullchain_path
                && found.privkey_path == privkey_path
        }),
{
    reveal_strlit("/etc/letsencrypt/live");
    reveal_strlit("/etc/letsencrypt/live/");
    reveal_strlit("fullchain.pem");
    reveal_strlit("/fullchain.pem");
    reveal_strlit("privkey.pem");
    reveal_strlit("/privkey.pem");
    let base = text::joined_path("/etc/letsencrypt/live"@, name);
    if name.len() > 0 && name[0] != '/' && name.last() != '/' {
        assert(base =~= "/etc/letsencrypt/live/"@ + name);
        assert(text::joined_path(base, "fullchain.pem"@) =~= "/etc/letsencrypt/live/"@ + name
            + "/fullchain.pem"@);
        assert(text::joined_path(base, "privkey.pem"@) =~= "/etc/letsencrypt/live/"@ + name
            + "/privkey.pem"@);
    }
}

/// Settings that name neither both files nor a certificate point at nothing.
pub proof fn law_without_settings_there_is_no_material(
    tls: TlsSettingsModel,
    files: Seq<Seq<char>>,
)
    requires
        tls.fullchain_path is None || tls.privkey_path is None,
        tls.cert_name is None,
    ensures
        tls_candidate(tls) is None,
        tls_resolution(tls, files) == Ok::<Option<ResolvedTlsModel>, TlsErrorModel>(None),
{
}

/// A start says which material it uses and where that lies, or that there is none.
pub proof fn law_summaries_name_the_material(tls: ResolvedTlsModel)
    ensures
        tls_summary(Some(tls)) == "TLS enabled via cert="@ + tls.source_label + " cert_path="@
            + tls.fullchain_path + " key_path="@ + tls.privkey_path,
        tls_summary(None)
            == "TLS not found; only degraded plaintext port 25 will be usable unless allow_insecure_auth=true"@,
{
}

/// A sender is judged by the domain after the last `@`, and by nothing else: mail may come from
/// the address exactly if that domain, in small letters, is one of those allowed. White space
/// around the domain and closing angle brackets after it do not count.
pub proof fn law_senders_are_judged_by_their_domain(
    allowed_domains: Seq<Seq<char>>,
    mailbox: Seq<char>,
    before: Seq<char>,
    domain: Seq<char>,
    brackets: Seq<char>,
    after: Seq<char>,
)
    requires
        forall|k: int| 0 <= k < before.len() ==> text::is_white_space(#[trigger] before[k]),
        forall|k: int| 0 <= k < brackets.len() ==> #[trigger] brackets[k] == '>',
        forall|k: int| 0 <= k < after.len() ==> text::is_white_space(#[trigger] after[k]),
        !domain.contains('@'),
        domain.len() > 0 ==> !text::is_white_space(domain.first()) && domain.last() != '>',
        domain.len() > 0 && brackets.len() == 0 ==> !text::is_white_space(domain.last()),
    ensures
        sender_allowed(
            allowed_domains,
            mailbox.push('@') + (before + (domain + brackets) + after),
        ) <==> allowed_domains.contains(text::lowercase(domain)),
{
    let core = domain + brackets;
    let rest = before + core + after;
    let address = mailbox.push('@') + rest;
    if domain.len() > 0 {
        assert(core.first() == domain.first());
    } else if brackets.len() > 0 {
        assert(core.first() == brackets[0]);
    }
    if brackets.len() > 0 {
        assert(core.last() == brackets[brackets.len() - 1]);
    } else {
        assert(core =~= domain);
    }
    assert forall|k: int| 0 <= k < rest.len() implies rest[k] != '@' by {
        if k < before.len() {
            assert(rest[k] == before[k]);
        } else if k < before.len() + domain.len() {
            assert(rest[k] == domain[k - before.len()]);
            assert(domain.contains(domain[k - before.len()]));
        } else if k < before.len() + core.len() {
            assert(rest[k] == brackets[k - before.len() - domain.len()]);
        } else {
            assert(rest[k] == after[k - before.len() - core.len()]);
        }
    }
    assert(address[mailbox.len() as int] == '@');
    text::lemma_after_last(mailbox, '@', rest);
    text::law_trimming_takes_the_surrounding_white_space(before, core, after);
    text::law_trailing_run_is_dropped(domain, brackets, '>');
}

} // verus!
