//! The errors that reach the users of the service, their messages and the
//! status with which each is answered.

use vstd::prelude::*;
use crate::db::DBError;
use crate::text::{contains, has, join2, owned, same};

verus! {

impl DBError {
    /// What the error says.
    pub open spec fn text(&self) -> Seq<char> {
        match *self {
            DBError::DuplicateChallengeText => "DNS challenge is already taken"@,
            DBError::DuplicateChallengeHostname => "DNS challenge hostname is already taken"@,
            DBError::DuplicateHostname => "Hostname is already taken"@,
            DBError::DuplicateForgeType => "Forge Type is already taken"@,
            DBError::DuplicateUserLink => "User HTML link is already taken"@,
            DBError::DuplicateProfilePhotoLink => "User profile photo link is already taken"@,
            DBError::DuplicateTopic => "Topic is already taken"@,
            DBError::DuplicateRepositoryLink => "Repository link is already taken"@,
            DBError::UnknownForgeType(s) => "Unknown forge instance specifier "@ + s@,
            DBError::DBError(m) => m@,
        }
    }

    /// What the error says.
    pub fn message(&self) -> (r: String)
        ensures
            r@ == self.text(),
    {
        match self {
            DBError::DuplicateChallengeText => owned("DNS challenge is already taken"),
            DBError::DuplicateChallengeHostname => owned("DNS challenge hostname is already taken"),
            DBError::DuplicateHostname => owned("Hostname is already taken"),
            DBError::DuplicateForgeType => owned("Forge Type is already taken"),
            DBError::DuplicateUserLink => owned("User HTML link is already taken"),
            DBError::DuplicateProfilePhotoLink => owned("User profile photo link is already taken"),
            DBError::DuplicateTopic => owned("Topic is already taken"),
            DBError::DuplicateRepositoryLink => owned("Repository link is already taken"),
            DBError::UnknownForgeType(s) => join2("Unknown forge instance specifier ", s.as_str()),
            DBError::DBError(m) => m.clone(),
        }
    }
}

/// The code with which the store reports that a value that must be
/// unique is taken.
pub const UNIQUE_VIOLATION: &'static str = "2067";

/// The value that the store's report of a failed write says is taken:
/// where the code is that of a value that must be unique, the error that
/// names the value, by the first column in this order that the message
/// names. `None` where the report is of another kind.
pub open spec fn taken_value(code: Option<Seq<char>>, message: Seq<char>) -> Option<DBError> {
    if code == Some(UNIQUE_VIOLATION@) {
        if contains(message, "starchart_dns_challenges.hostname"@) {
            Some(DBError::DuplicateChallengeHostname)
        } else if contains(message, "starchart_forges.hostname"@) {
            Some(DBError::DuplicateHostname)
        } else if contains(message, "starchart_dns_challenges.challenge"@) {
            Some(DBError::DuplicateChallengeText)
        } else if contains(message, "starchart_users.html_url"@) {
            Some(DBError::DuplicateUserLink)
        } else if contains(message, "starchart_project_topics.name"@) {
            Some(DBError::DuplicateTopic)
        } else if contains(message, "starchart_repositories.html_url"@) {
            Some(DBError::DuplicateRepositoryLink)
        } else if contains(message, "starchart_forge_type.name"@) {
            Some(DBError::DuplicateForgeType)
        } else if contains(message, "starchart_users.profile_photo_html_url"@) {
            Some(DBError::DuplicateProfilePhotoLink)
        } else if contains(message, "starchart_repositories.name"@) {
            Some(DBError::DuplicateRepositoryLink)
        } else {
            None
        }
    } else {
        None
    }
}

/// Maps the store's report of a failed write, its code and its message,
/// to the error that it stands for: the error that names the value that
/// is taken, or else the store's own error with the message.
pub fn map_register_err(code: Option<&str>, message: &str) -> (e: DBError)
    ensures
        match taken_value(crate::text::opt_str(code), message@) {
            Some(named) => e == named,
            None => e matches DBError::DBError(m) && m@ == message@,
        },
{
    let unique = match code {
        Some(c) => same(c, UNIQUE_VIOLATION),
        None => false,
    };
    if unique {
        if has(message, "starchart_dns_challenges.hostname") {
            DBError::DuplicateChallengeHostname
        } else if has(message, "starchart_forges.hostname") {
            DBError::DuplicateHostname
        } else if has(message, "starchart_dns_challenges.challenge") {
            DBError::DuplicateChallengeText
        } else if has(message, "starchart_users.html_url") {
            DBError::DuplicateUserLink
        } else if has(message, "starchart_project_topics.name") {
            DBError::DuplicateTopic
        } else if has(message, "starchart_repositories.html_url") {
            DBError::DuplicateRepositoryLink
        } else if has(message, "starchart_forge_type.name") {
            DBError::DuplicateForgeType
        } else if has(message, "starchart_users.profile_photo_html_url") {
            DBError::DuplicateProfilePhotoLink
        } else if has(message, "starchart_repositories.name") {
            DBError::DuplicateRepositoryLink
        } else {
            DBError::DBError(owned(message))
        }
    } else {
        DBError::DBError(owned(message))
    }
}

/// An error of the store as an error of the service. Two are equal where
/// they say the same.
#[derive(Debug)]
pub struct DBErrorWrapper(pub DBError);

impl DBErrorWrapper {
    /// Whether the two errors say the same.
    pub fn same_as(&self, other: &DBErrorWrapper) -> (r: bool)
        ensures
            r == (self.0.text() == other.0.text()),
    {
        self.0.message() == other.0.message()
    }
}

/// The errors of the service.
#[derive(Debug)]
pub enum ServiceError {
    /// something went wrong inside the service
    InternalServerError,
    /// the server is closed for registration
    ClosedForRegistration,
    /// the value entered for email is not an email
    NotAnEmail,
    /// the value entered for URL is not a URL
    NotAUrl,
    /// an error of the store
    DBError(DBErrorWrapper),
    /// DNS challenge value is already taken
    DuplicateChallengeText,
    /// DNS challenge hostname is already taken
    DuplicateChallengeHostname,
    /// Hostname is already taken
    DuplicateHostname,
    /// Forge Type is already taken
    DuplicateForgeType,
    /// HTML link Type is already taken
    DuplicateUserLink,
    /// Topic is already taken
    DuplicateTopic,
    /// Repository link is already taken
    DuplicateRepositoryLink,
}

/// Result of an operation of the service.
pub type ServiceResult<V> = Result<V, ServiceError>;

/// The body with which an error is answered.
#[derive(Debug)]
pub struct ErrorToResponse {
    /// what the error says
    pub error: String,
}

impl ServiceError {
    /// The HTTP status with which the error is answered: 403 where the
    /// server is closed for registration, 400 where the input is at fault
    /// or a value that must be unique is taken, 500 where the service or
    /// the store is at fault.
    pub open spec fn status(&self) -> u16 {
        match *self {
            ServiceError::ClosedForRegistration => 403,
            ServiceError::InternalServerError => 500,
            ServiceError::NotAnEmail => 400,
            ServiceError::NotAUrl => 400,
            ServiceError::DBError(_) => 500,
            ServiceError::DuplicateChallengeHostname => 400,
            ServiceError::DuplicateHostname => 400,
            ServiceError::DuplicateUserLink => 400,
            ServiceError::DuplicateTopic => 400,
            ServiceError::DuplicateRepositoryLink => 400,
            ServiceError::DuplicateChallengeText => 400,
            ServiceError::DuplicateForgeType => 400,
        }
    }

    /// The HTTP status with which the error is answered.
    pub fn status_code(&self) -> (code: u16)
        ensures
            code == self.status(),
            self is InternalServerError || self is DBError ==> 500 <= code < 600,
            !(self is InternalServerError || self is DBError) ==> 400 <= code < 500,
    {
        match self {
            ServiceError::ClosedForRegistration => 403,
            ServiceError::InternalServerError => 500,
            ServiceError::NotAnEmail => 400,
            ServiceError::NotAUrl => 400,
            ServiceError::DBError(_) => 500,
            ServiceError::DuplicateChallengeText
            | ServiceError::DuplicateChallengeHostname
            | ServiceError::DuplicateHostname
            | ServiceError::DuplicateForgeType
            | ServiceError::DuplicateUserLink
            | ServiceError::DuplicateTopic
            | ServiceError::DuplicateRepositoryLink => 400,
        }
    }

    /// What the error says.
    pub open spec fn text(&self) -> Seq<char> {
        match *self {
            ServiceError::InternalServerError => "internal server error"@,
            ServiceError::ClosedForRegistration => "This server is is closed for registration. Contact admin if this is unexpecter"@,
            ServiceError::NotAnEmail => "The value you entered for email is not an email"@,
            ServiceError::NotAUrl => "The value you entered for URL is not a URL"@,
            ServiceError::DBError(w) => w.0.text(),
            ServiceError::DuplicateChallengeText => "DNS challenge is already taken"@,
            ServiceError::DuplicateChallengeHostname => "DNS challenge hostname is already taken"@,
            ServiceError::DuplicateHostname => "Hostname is already taken"@,
            ServiceError::DuplicateForgeType => "Forge Type is already taken"@,
            ServiceError::DuplicateUserLink => "User HTML link is already taken"@,
            ServiceError::DuplicateTopic => "Topic is already taken"@,
            ServiceError::DuplicateRepositoryLink => "Repository link is already taken"@,
        }
    }

    /// What the error says.
    pub fn message(&self) -> (r: String)
        ensures
            r@ == self.text(),
    {
        match self {
            ServiceError::InternalServerError => owned("internal server error"),
            ServiceError::ClosedForRegistration => owned(
                "This server is is closed for registration. Contact admin if this is unexpecter",
            ),
            ServiceError::NotAnEmail => owned("The value you entered for email is not an email"),
            ServiceError::NotAUrl => owned("The value you entered for URL is not a URL"),
            ServiceError::DBError(w) => w.0.message(),
            ServiceError::DuplicateChallengeText => owned("DNS challenge is already taken"),
            ServiceError::DuplicateChallengeHostname => owned(
                "DNS challenge hostname is already taken",
            ),
            ServiceError::DuplicateHostname => owned("Hostname is already taken"),
            ServiceError::DuplicateForgeType => owned("Forge Type is already taken"),
            ServiceError::DuplicateUserLink => owned("User HTML link is already taken"),
            ServiceError::DuplicateTopic => owned("Topic is already taken"),
            ServiceError::DuplicateRepositoryLink => owned("Repository link is already taken"),
        }
    }

    /// The body with which the error is answered: what the error says.
    pub fn error_response(&self) -> (r: ErrorToResponse)
        ensures
            r.error@ == self.text(),
    {
        ErrorToResponse { error: self.message() }
    }

    /// An error of the store as an error of the service.
    pub fn from_db(e: DBError) -> (r: ServiceError)
        ensures
            r matches ServiceError::DBError(w) && w.0 == e,
    {
        ServiceError::DBError(DBErrorWrapper(e))
    }

    /// The error that stands for a text that is no URL.
    pub fn from_parse_error(e: ::url::ParseError) -> (r: ServiceError)
        ensures
            r is NotAUrl,
    {
        ServiceError::NotAUrl
    }
}

} // verus!
