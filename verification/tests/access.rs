//! Who may connect.

use mac_rdp_server::credentials::{
    CredentialDecision, CredentialValidationError, CredentialValidator, Credentials,
    ExactMatchCredentialValidator,
};

fn credentials(username: &str, password: &str, domain: Option<&str>) -> Credentials {
    Credentials {
        username: username.to_string(),
        password: password.to_string(),
        domain: domain.map(|d| d.to_string()),
    }
}

fn decide(expected: Credentials, given: Credentials) -> CredentialDecision {
    ExactMatchCredentialValidator::new(expected).validate(&given).unwrap()
}

#[test]
fn test_exact_match_no_domain_configured() {
    let validator = ExactMatchCredentialValidator::new(Credentials {
        username: "dev".to_string(),
        password: "secretpassword".to_string(),
        domain: None,
    });

    // 1. Exact match with None domain
    let res = validator
        .validate(&Credentials {
            username: "dev".to_string(),
            password: "secretpassword".to_string(),
            domain: None,
        })
        .unwrap();
    assert_eq!(res, CredentialDecision::Accept);

    // 2. Client sends empty string domain
    let res = validator
        .validate(&Credentials {
            username: "dev".to_string(),
            password: "secretpassword".to_string(),
            domain: Some("".to_string()),
        })
        .unwrap();
    assert_eq!(res, CredentialDecision::Accept);

    // 3. Client sends whitespace domain
    let res = validator
        .validate(&Credentials {
            username: "dev".to_string(),
            password: "secretpassword".to_string(),
            domain: Some("   ".to_string()),
        })
        .unwrap();
    assert_eq!(res, CredentialDecision::Accept);

    // 4. Client sends local dot "." domain
    let res = validator
        .validate(&Credentials {
            username: "dev".to_string(),
            password: "secretpassword".to_string(),
            domain: Some(".".to_string()),
        })
        .unwrap();
    assert_eq!(res, CredentialDecision::Accept);

    // 5. Client sends WORKGROUP / default domain
    let res = validator
        .validate(&Credentials {
            username: "dev".to_string(),
            password: "secretpassword".to_string(),
            domain: Some("WORKGROUP".to_string()),
        })
        .unwrap();
    assert_eq!(res, CredentialDecision::Accept);

    // 6. Client sends username as .\dev
    let res = validator
        .validate(&Credentials {
            username: ".\\dev".to_string(),
            password: "secretpassword".to_string(),
            domain: None,
        })
        .unwrap();
    assert_eq!(res, CredentialDecision::Accept);

    // 7. Client sends username as \dev
    let res = validator
        .validate(&Credentials {
            username: "\\dev".to_string(),
            password: "secretpassword".to_string(),
            domain: None,
        })
        .unwrap();
    assert_eq!(res, CredentialDecision::Accept);

    // 8. Wrong password
    let res = validator
        .validate(&Credentials {
            username: "dev".to_string(),
            password: "wrong".to_string(),
            domain: None,
        })
        .unwrap();
    assert_eq!(res, CredentialDecision::Reject);

    // 9. Wrong username
    let res = validator
        .validate(&Credentials {
            username: "other".to_string(),
            password: "secretpassword".to_string(),
            domain: None,
        })
        .unwrap();
    assert_eq!(res, CredentialDecision::Reject);
}

#[test]
fn test_exact_match_with_domain_configured() {
    let validator = ExactMatchCredentialValidator::new(Credentials {
        username: "admin".to_string(),
        password: "pass".to_string(),
        domain: Some("CORP".to_string()),
    });

    // 1. Correct domain in domain field
    let res = validator
        .validate(&Credentials {
            username: "admin".to_string(),
            password: "pass".to_string(),
            domain: Some("CORP".to_string()),
        })
        .unwrap();
    assert_eq!(res, CredentialDecision::Accept);

    // 2. Case-insensitive domain match
    let res = validator
        .validate(&Credentials {
            username: "admin".to_string(),
            password: "pass".to_string(),
            domain: Some("corp".to_string()),
        })
        .unwrap();
    assert_eq!(res, CredentialDecision::Accept);

    // 3. Domain provided via DOMAIN\user
    let res = validator
        .validate(&Credentials {
            username: "CORP\\admin".to_string(),
            password: "pass".to_string(),
            domain: None,
        })
        .unwrap();
    assert_eq!(res, CredentialDecision::Accept);

    // 4. Domain provided via user@domain
    let res = validator
        .validate(&Credentials {
            username: "admin@corp".to_string(),
            password: "pass".to_string(),
            domain: None,
        })
        .unwrap();
    assert_eq!(res, CredentialDecision::Accept);

    // 5. Missing domain should be rejected when server expects domain
    let res = validator
        .validate(&Credentials {
            username: "admin".to_string(),
            password: "pass".to_string(),
            domain: None,
        })
        .unwrap();
    assert_eq!(res, CredentialDecision::Reject);

    // 6. Empty domain should be rejected when server expects domain
    let res = validator
        .validate(&Credentials {
            username: "admin".to_string(),
            password: "pass".to_string(),
            domain: Some("".to_string()),
        })
        .unwrap();
    assert_eq!(res, CredentialDecision::Reject);

    // 7. Wrong domain
    let res = validator
        .validate(&Credentials {
            username: "admin".to_string(),
            password: "pass".to_string(),
            domain: Some("OTHER".to_string()),
        })
        .unwrap();
    assert_eq!(res, CredentialDecision::Reject);
}

#[test]
fn names_are_compared_without_their_case() {
    let expected = credentials("Dev", "x", None);
    assert_eq!(decide(expected.clone(), credentials("dEV", "x", None)), CredentialDecision::Accept);
    assert_eq!(decide(expected, credentials("dev", "X", None)), CredentialDecision::Reject);
}

#[test]
fn a_blank_domain_is_none() {
    let expected = credentials("dev", "x", Some("  \t "));
    assert!(ExactMatchCredentialValidator::new(expected.clone()).expected.domain.is_none());
    assert_eq!(decide(expected, credentials("dev", "x", Some("ANY"))), CredentialDecision::Accept);
}

#[test]
fn a_backslash_counts_before_an_at_sign() {
    let expected = credentials("a@b", "x", Some("corp"));
    assert_eq!(decide(expected.clone(), credentials("CORP\\a@b", "x", None)), CredentialDecision::Accept);
    assert_eq!(decide(expected, credentials("a@b", "x", None)), CredentialDecision::Reject);
}

#[test]
fn a_domain_of_its_own_counts_before_the_one_in_the_name() {
    let expected = credentials("admin", "x", Some(" corp "));
    assert_eq!(
        decide(expected.clone(), credentials("OTHER\\admin", "x", Some(" CORP "))),
        CredentialDecision::Accept
    );
    assert_eq!(
        decide(expected, credentials("CORP\\admin", "x", Some("other"))),
        CredentialDecision::Reject
    );
}

#[test]
fn an_account_is_let_in_with_its_own_credentials() {
    let account = credentials("admin", "secret", Some("CORP"));
    assert_eq!(decide(account.clone(), account), CredentialDecision::Accept);
}

#[test]
fn failures_of_the_backend_keep_their_source() {
    let error = CredentialValidationError::new("no connection".to_string());
    assert_eq!(error.source(), "no connection");
    assert_eq!(error.message(), "credential validator backend failure");
}
