use starchart::db::DBError;
use starchart::errors::{map_register_err, DBErrorWrapper, ServiceError};

#[test]
fn a_taken_value_is_named_by_its_column() {
    let unique = Some("2067");
    let cases = [
        ("starchart_dns_challenges.hostname", "DNS challenge hostname is already taken"),
        ("starchart_forges.hostname", "Hostname is already taken"),
        ("starchart_dns_challenges.challenge", "DNS challenge is already taken"),
        ("starchart_users.html_url", "User HTML link is already taken"),
        ("starchart_project_topics.name", "Topic is already taken"),
        ("starchart_repositories.html_url", "Repository link is already taken"),
        ("starchart_forge_type.name", "Forge Type is already taken"),
        ("starchart_users.profile_photo_html_url", "User profile photo link is already taken"),
        ("starchart_repositories.name", "Repository link is already taken"),
    ];
    for (column, message) in cases {
        let report = format!("UNIQUE constraint failed: {column}");
        assert_eq!(map_register_err(unique, &report).message(), message);
        // another code, or none: the store's own error with its message
        assert!(matches!(map_register_err(Some("1555"), &report), DBError::DBError(m) if m == report));
        assert!(matches!(map_register_err(None, &report), DBError::DBError(m) if m == report));
    }
    assert!(matches!(
        map_register_err(unique, "UNIQUE constraint failed: starchart_forges.hostname"),
        DBError::DuplicateHostname
    ));
    assert!(matches!(
        map_register_err(unique, "UNIQUE constraint failed: other.column"),
        DBError::DBError(m) if m == "UNIQUE constraint failed: other.column"
    ));
    // the first column in the order of the checks decides
    assert!(matches!(
        map_register_err(unique, "starchart_repositories.name starchart_forges.hostname"),
        DBError::DuplicateHostname
    ));
}

#[test]
fn errors_say_what_went_wrong() {
    assert_eq!(
        DBError::UnknownForgeType("gitlab".to_string()).message(),
        "Unknown forge instance specifier gitlab"
    );
    assert_eq!(DBError::DBError("disk full".to_string()).message(), "disk full");
    assert_eq!(ServiceError::InternalServerError.message(), "internal server error");
    assert_eq!(
        ServiceError::ClosedForRegistration.message(),
        "This server is is closed for registration. Contact admin if this is unexpecter"
    );
    assert_eq!(ServiceError::NotAnEmail.message(), "The value you entered for email is not an email");
    assert_eq!(ServiceError::NotAUrl.message(), "The value you entered for URL is not a URL");
    assert_eq!(ServiceError::DuplicateTopic.message(), "Topic is already taken");
    assert_eq!(
        ServiceError::from_db(DBError::DuplicateHostname).message(),
        "Hostname is already taken"
    );
    assert_eq!(ServiceError::DuplicateHostname.error_response().error, "Hostname is already taken");
    assert!(DBErrorWrapper(DBError::DuplicateTopic).same_as(&DBErrorWrapper(DBError::DuplicateTopic)));
    assert!(DBErrorWrapper(DBError::DBError("Topic is already taken".to_string()))
        .same_as(&DBErrorWrapper(DBError::DuplicateTopic)));
    assert!(!DBErrorWrapper(DBError::DuplicateTopic).same_as(&DBErrorWrapper(DBError::DuplicateHostname)));
}

#[test]
fn errors_are_answered_with_their_status() {
    assert_eq!(ServiceError::ClosedForRegistration.status_code(), 403);
    assert_eq!(ServiceError::InternalServerError.status_code(), 500);
    assert_eq!(ServiceError::NotAnEmail.status_code(), 400);
    assert_eq!(ServiceError::NotAUrl.status_code(), 400);
    assert_eq!(ServiceError::from_db(DBError::DuplicateHostname).status_code(), 500);
    assert_eq!(ServiceError::DuplicateChallengeHostname.status_code(), 400);
    assert_eq!(ServiceError::DuplicateHostname.status_code(), 400);
    assert_eq!(ServiceError::DuplicateUserLink.status_code(), 400);
    assert_eq!(ServiceError::DuplicateTopic.status_code(), 400);
    assert_eq!(ServiceError::DuplicateRepositoryLink.status_code(), 400);
    assert_eq!(ServiceError::DuplicateChallengeText.status_code(), 400);
    assert_eq!(ServiceError::DuplicateForgeType.status_code(), 400);
}
