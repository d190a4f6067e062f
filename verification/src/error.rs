//! The error type of the crate.

use crate::files::cache::low_hex;
use crate::text::lit;
use vstd::prelude::*;
use vstd::string::*;

verus! {

/// Every way in which an operation of the core can fail. Failures of the platform carry the text
/// that the platform gave.
#[derive(Debug)]
pub enum CoreError {
    Db(String),
    Io(String),
    Network(String),
    Imap(String),
    /// A selective FETCH response could not be parsed. Its session must be
    /// discarded; explicit opens may retry using the complete message.
    ImapParse(String),
    Jmap(String),
    SendUncertain(String),
    Smtp(String),
    Tls(String),
    Auth(String),
    NeedsReauth,
    CredentialStoreUnavailable(String),
    Keyring(String),
    Mime(String),
    CalDav(String),
    NotFound(String),
    Offline,
    AiNotConfigured,
    Other(String),
}

/// What a platform credential service reports when it refuses.
#[derive(Debug)]
pub enum KeyringFailure {
    Platform,
    NoAccess,
    Reported(String),
}

pub type Result<T> = std::result::Result<T, CoreError>;

/// How a character stands in a JSON string.
pub open spec fn json_char(c: char) -> Seq<char> {
    if c == '"' {
        seq!['\\', '"']
    } else if c == '\\' {
        seq!['\\', '\\']
    } else if c == '\u{8}' {
        seq!['\\', 'b']
    } else if c == '\t' {
        seq!['\\', 't']
    } else if c == '\n' {
        seq!['\\', 'n']
    } else if c == '\u{c}' {
        seq!['\\', 'f']
    } else if c == '\r' {
        seq!['\\', 'r']
    } else if (c as int) < 0x20 {
        seq!['\\', 'u', '0', '0', low_hex(c as int / 16), low_hex(c as int % 16)]
    } else {
        seq![c]
    }
}

/// A text as a JSON string: in quotes, with the quote, the backslash and the control characters
/// below the space escaped.
pub open spec fn json_string(s: Seq<char>) -> Seq<char> {
    seq!['"'] + s.map_values(|c: char| json_char(c)).flatten() + seq!['"']
}

/// Calls `serde_json::to_string` on a `str`, which writes the text in quotes, the characters that
/// JSON does not take as they are escaped in their shortest form. Serialising a string into memory
/// does not fail.
#[verifier::external_body]
fn quote(s: &str) -> (r: String)
    ensures
        r@ == json_string(s@),
{
    serde_json::to_string(s).unwrap_or_default()
}

impl CoreError {
    /// The stable token of an error.
    pub open spec fn token(self) -> Seq<char> {
        match self {
            CoreError::Db(_) => "db"@,
            CoreError::Io(_) => "io"@,
            CoreError::Network(_) => "network"@,
            CoreError::Imap(_) | CoreError::ImapParse(_) => "imap"@,
            CoreError::Jmap(_) => "jmap"@,
            CoreError::SendUncertain(_) => "send_uncertain"@,
            CoreError::Smtp(_) => "smtp"@,
            CoreError::Tls(_) => "tls"@,
            CoreError::Auth(_) => "auth"@,
            CoreError::NeedsReauth => "needs_reauth"@,
            CoreError::CredentialStoreUnavailable(_) => "credential_store_unavailable"@,
            CoreError::Keyring(_) => "keyring"@,
            CoreError::Mime(_) => "mime"@,
            CoreError::CalDav(_) => "caldav"@,
            CoreError::NotFound(_) => "not_found"@,
            CoreError::Offline => "offline"@,
            CoreError::AiNotConfigured => "ai_not_configured"@,
            CoreError::Other(_) => "other"@,
        }
    }

    /// What the error says to a reader.
    pub open spec fn words(self) -> Seq<char> {
        match self {
            CoreError::Db(s) => "database error: "@ + s@,
            CoreError::Io(s) => "io error: "@ + s@,
            CoreError::Network(s) => "network error: "@ + s@,
            CoreError::Imap(s) => "imap error: "@ + s@,
            CoreError::ImapParse(s) => "imap response parse error: "@ + s@,
            CoreError::Jmap(s) => "jmap error: "@ + s@,
            CoreError::SendUncertain(s) => "send status uncertain: "@ + s@,
            CoreError::Smtp(s) => "smtp error: "@ + s@,
            CoreError::Tls(s) => "tls error: "@ + s@,
            CoreError::Auth(s) => "auth failed: "@ + s@,
            CoreError::NeedsReauth => "account needs re-authentication"@,
            CoreError::CredentialStoreUnavailable(s) =>
                "secure credential storage is unavailable: "@ + s@,
            CoreError::Keyring(s) => "keyring error: "@ + s@,
            CoreError::Mime(s) => "mime error: "@ + s@,
            CoreError::CalDav(s) => "caldav error: "@ + s@,
            CoreError::NotFound(s) => "not found: "@ + s@,
            CoreError::Offline => "offline"@,
            CoreError::AiNotConfigured => "AI is not configured"@,
            CoreError::Other(s) => s@,
        }
    }

    /// Stable, language-agnostic token identifying the error variant. A UI may
    /// map this to localized copy; the human-readable message remains a
    /// fallback.
    pub fn code(&self) -> (r: &'static str)
        ensures
            r@ == self.token(),
    {
        match self {
            CoreError::Db(_) => "db",
            CoreError::Io(_) => "io",
            CoreError::Network(_) => "network",
            CoreError::Imap(_) | CoreError::ImapParse(_) => "imap",
            CoreError::Jmap(_) => "jmap",
            CoreError::SendUncertain(_) => "send_uncertain",
            CoreError::Smtp(_) => "smtp",
            CoreError::Tls(_) => "tls",
            CoreError::Auth(_) => "auth",
            CoreError::NeedsReauth => "needs_reauth",
            CoreError::CredentialStoreUnavailable(_) => "credential_store_unavailable",
            CoreError::Keyring(_) => "keyring",
            CoreError::Mime(_) => "mime",
            CoreError::CalDav(_) => "caldav",
            CoreError::NotFound(_) => "not_found",
            CoreError::Offline => "offline",
            CoreError::AiNotConfigured => "ai_not_configured",
            CoreError::Other(_) => "other",
        }
    }

    /// The human-readable message.
    pub fn message(&self) -> (r: String)
        ensures
            r@ == self.words(),
    {
        match self {
            CoreError::Db(s) => lit("database error: ").concat(s.as_str()),
            CoreError::Io(s) => lit("io error: ").concat(s.as_str()),
            CoreError::Network(s) => lit("network error: ").concat(s.as_str()),
            CoreError::Imap(s) => lit("imap error: ").concat(s.as_str()),
            CoreError::ImapParse(s) => lit("imap response parse error: ").concat(s.as_str()),
            CoreError::Jmap(s) => lit("jmap error: ").concat(s.as_str()),
            CoreError::SendUncertain(s) => lit("send status uncertain: ").concat(s.as_str()),
            CoreError::Smtp(s) => lit("smtp error: ").concat(s.as_str()),
            CoreError::Tls(s) => lit("tls error: ").concat(s.as_str()),
            CoreError::Auth(s) => lit("auth failed: ").concat(s.as_str()),
            CoreError::NeedsReauth => lit("account needs re-authentication"),
            CoreError::CredentialStoreUnavailable(s) => lit(
                "secure credential storage is unavailable: ",
            ).concat(s.as_str()),
            CoreError::Keyring(s) => lit("keyring error: ").concat(s.as_str()),
            CoreError::Mime(s) => lit("mime error: ").concat(s.as_str()),
            CoreError::CalDav(s) => lit("caldav error: ").concat(s.as_str()),
            CoreError::NotFound(s) => lit("not found: ").concat(s.as_str()),
            CoreError::Offline => lit("offline"),
            CoreError::AiNotConfigured => lit("AI is not configured"),
            CoreError::Other(s) => s.clone(),
        }
    }

    /// Serialize the stable code and fallback message for a UI-facing result.
    pub fn to_client_json(&self) -> (r: String)
        ensures
            r@ == "{\"code\":"@ + json_string(self.token()) + ",\"message\":"@ + json_string(
                self.words(),
            ) + "}"@,
    {
        let code = quote(self.code());
        let message = quote(self.message().as_str());
        lit("{\"code\":").concat(code.as_str()).concat(",\"message\":").concat(
            message.as_str(),
        ).concat("}")
    }

    /// What a refusal of the platform credential service means to the user: an unreachable or
    /// locked service can be mended and is named apart from every other refusal.
    pub fn from_keyring(failure: KeyringFailure) -> (r: CoreError)
        ensures
            match failure {
                KeyringFailure::Platform => r matches CoreError::CredentialStoreUnavailable(m)
                    && m@
                    == "the system keyring could not be reached; start or unlock it and try again"@,
                KeyringFailure::NoAccess => r matches CoreError::CredentialStoreUnavailable(m)
                    && m@
                    == "the system keyring is locked or denied access; unlock it and try again"@,
                KeyringFailure::Reported(text) => r == CoreError::Keyring(text),
            },
    {
        match failure {
            KeyringFailure::Platform => CoreError::CredentialStoreUnavailable(
                lit("the system keyring could not be reached; start or unlock it and try again"),
            ),
            KeyringFailure::NoAccess => CoreError::CredentialStoreUnavailable(
                lit("the system keyring is locked or denied access; unlock it and try again"),
            ),
            KeyringFailure::Reported(text) => CoreError::Keyring(text),
        }
    }

    /// What a JSON text that cannot be read means to the user.
    pub fn from_json(reported: &str) -> (r: CoreError)
        ensures
            r matches CoreError::Other(m) && m@ == "json: "@ + reported@,
    {
        CoreError::Other(lit("json: ").concat(reported))
    }
}

/// An error that is its own message.
pub fn other(message: &str) -> (r: CoreError)
    ensures
        r matches CoreError::Other(m) && m@ == message@,
{
    CoreError::Other(lit(message))
}

/// Whether an error is the plain message `m`.
pub open spec fn says(e: CoreError, m: Seq<char>) -> bool {
    e matches CoreError::Other(s) && s@ == m
}

/// Whether an outcome is a failure with the plain message `m`.
pub open spec fn fails<T>(r: Result<T>, m: Seq<char>) -> bool {
    r is Err && says(r->Err_0, m)
}

} // verus!
