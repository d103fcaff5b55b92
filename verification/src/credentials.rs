//! Who may connect.

use vstd::prelude::*;

use crate::text::{
    alike, lemma_lowered_alike, lemma_split_back, lowered, same, same_ignoring_case, split_at_first,
    split_once, trim, trimmed,
};

verus! {

/// What a client gives to be let in.
#[derive(Debug, Clone)]
pub struct Credentials {
    pub username: String,
    pub password: String,
    pub domain: Option<String>,
}

/// What a validator that works decides.
///
/// To reject is not a failure: the validator did its part and found that the credentials do not
/// authenticate anyone.
#[derive(Debug, Clone, Copy, PartialEq, Eq, Structural)]
pub enum CredentialDecision {
    /// The connection proceeds.
    Accept,
    /// The connection is closed.
    Reject,
}

/// The failure of a validator that could not come to a decision, with what its backend gave for it.
#[derive(Debug)]
pub struct CredentialValidationError<E> {
    pub source: E,
}

impl<E> CredentialValidationError<E> {
    /// Wraps what the backend gave.
    pub fn new(source: E) -> (r: CredentialValidationError<E>)
        ensures
            r.source == source,
    {
        CredentialValidationError { source }
    }

    /// What the backend gave.
    pub fn source(&self) -> (r: &E)
        ensures
            *r == self.source,
    {
        &self.source
    }

    /// What the failure is called, whatever its source.
    pub fn message(&self) -> (r: String)
        ensures
            r@ == "credential validator backend failure"@,
    {
        "credential validator backend failure".to_owned()
    }
}

/// Decides on the credentials of clients.
pub trait CredentialValidator {
    /// What the backend gives where it fails.
    type Backend;

    /// Decides on credentials, unless the backend fails.
    fn validate(&self, credentials: &Credentials) -> Result<
        CredentialDecision,
        CredentialValidationError<Self::Backend>,
    >;
}

/// The domain that a user name carries, if any, and the name without it: `DOMAIN\name` or
/// `name@DOMAIN`.
pub open spec fn name_parts(username: Seq<char>) -> (Option<Seq<char>>, Seq<char>) {
    match split_at_first(username, '\\') {
        Some((domain, name)) => (Some(domain), name),
        None => match split_at_first(username, '@') {
            Some((name, domain)) => (Some(domain), name),
            None => (None, username),
        },
    }
}

impl Credentials {
    /// The domain as it was given, or else as the user name carries it.
    pub open spec fn given_domain(self) -> Option<Seq<char>> {
        match self.domain {
            Some(domain) => Some(domain@),
            None => name_parts(self.username@).0,
        }
    }

    /// The domain that counts: one that is blank or a single dot is none.
    pub open spec fn effective_domain(self) -> Option<Seq<char>> {
        match self.given_domain() {
            Some(domain) => if trimmed(domain).len() == 0 || trimmed(domain) == seq!['.'] {
                None
            } else {
                Some(trimmed(domain))
            },
            None => None,
        }
    }

    /// Whether a client that gives `other` is the one whose credentials these are.
    ///
    /// The password has to be the same, the name but for the case of its letters. The domain counts
    /// only where one is expected.
    pub open spec fn admits(self, other: Credentials) -> bool {
        &&& other.password@ == self.password@
        &&& lowered(name_parts(other.username@).1) == lowered(self.username@)
        &&& match self.domain {
            None => true,
            Some(domain) => match other.effective_domain() {
                Some(given) => lowered(trimmed(domain@)) == lowered(given),
                None => false,
            },
        }
    }
}

impl Credentials {
    /// What is decided on a client that gives `other`.
    pub open spec fn decision(self, other: Credentials) -> CredentialDecision {
        if self.admits(other) {
            CredentialDecision::Accept
        } else {
            CredentialDecision::Reject
        }
    }
}

/// Accepts one known account.
pub struct ExactMatchCredentialValidator {
    pub expected: Credentials,
}

impl ExactMatchCredentialValidator {
    /// A validator for the given account. A blank domain is taken for none.
    pub fn new(expected: Credentials) -> (r: ExactMatchCredentialValidator)
        ensures
            r.expected.username == expected.username,
            r.expected.password == expected.password,
            match expected.domain {
                Some(domain) if trimmed(domain@).len() > 0 => r.expected.domain == Some(domain),
                _ => r.expected.domain is None,
            },
    {
        let Credentials { username, password, domain } = expected;
        let domain = match domain {
            Some(domain) => {
                let blank = trim(domain.as_str());
                if blank.as_str().is_empty() {
                    None
                } else {
                    Some(domain)
                }
            },
            None => None,
        };
        ExactMatchCredentialValidator { expected: Credentials { username, password, domain } }
    }
}

/// The domain that a user name carries, and the name without it.
fn split_name(username: &str) -> (r: (Option<String>, String))
    ensures
        match r.0 {
            Some(domain) => name_parts(username@).0 == Some(domain@),
            None => name_parts(username@).0 is None,
        },
        name_parts(username@).1 == r.1@,
{
    if let Some((domain, name)) = split_once(username, '\\') {
        return (Some(domain), name);
    }
    if let Some((name, domain)) = split_once(username, '@') {
        return (Some(domain), name);
    }
    (None, username.to_owned())
}

impl CredentialValidator for ExactMatchCredentialValidator {
    type Backend = String;

    /// Accepts the account, and rejects all else; there is no backend that could fail.
    fn validate(&self, credentials: &Credentials) -> (r: Result<
        CredentialDecision,
        CredentialValidationError<String>,
    >)
        ensures
            r == Ok::<CredentialDecision, CredentialValidationError<String>>(
                self.expected.decision(*credentials),
            ),
    {
        if !same(credentials.password.as_str(), self.expected.password.as_str()) {
            return Ok(CredentialDecision::Reject);
        }
        let (carried, name) = split_name(credentials.username.as_str());
        if !same_ignoring_case(name.as_str(), self.expected.username.as_str()) {
            return Ok(CredentialDecision::Reject);
        }
        let given: Option<String> = match &credentials.domain {
            Some(domain) => Some(domain.clone()),
            None => carried,
        };
        let effective: Option<String> = match given {
            Some(domain) => {
                let clean = trim(domain.as_str());
                proof {
                    reveal_strlit(".");
                    assert("."@ =~= seq!['.']);
                }
                let blank = clean.as_str().is_empty();
                if blank || same(clean.as_str(), ".") {
                    None
                } else {
                    Some(clean)
                }
            },
            None => None,
        };
        match &self.expected.domain {
            None => Ok(CredentialDecision::Accept),
            Some(expected) => match effective {
                Some(client) => {
                    let clean = trim(expected.as_str());
                    if same_ignoring_case(clean.as_str(), client.as_str()) {
                        Ok(CredentialDecision::Accept)
                    } else {
                        Ok(CredentialDecision::Reject)
                    }
                },
                None => Ok(CredentialDecision::Reject),
            },
        }
    }
}

/// An account is let in with its own credentials, unless its name reads as one with a domain or its
/// domain as none.
pub proof fn lemma_admits_itself(account: Credentials)
    requires
        name_parts(account.username@) == (None::<Seq<char>>, account.username@),
        account.domain is Some ==> account.effective_domain() is Some,
    ensures
        account.admits(account),
{
}

/// Where no domain is expected, the one that a client gives makes no difference.
pub proof fn lemma_unexpected_domain(account: Credentials, one: Credentials, other: Credentials)
    requires
        account.domain is None,
        one.username@ == other.username@,
        one.password@ == other.password@,
    ensures
        account.admits(one) == account.admits(other),
{
}

/// Nobody is let in with another password.
pub proof fn lemma_other_password(account: Credentials, client: Credentials)
    requires
        client.password@ != account.password@,
    ensures
        !account.admits(client),
        account.decision(client) is Reject,
{
}

/// Where no domain is expected, a client is let in exactly if its password is the account's and its name,
/// without the domain that it carries, is the account's but for case. The names `DOMAIN\name`,
/// `name@DOMAIN` and `name` are all the same, whatever domain is given besides.
pub proof fn lemma_any_domain(
    account: Credentials,
    domain: Seq<char>,
    name: Seq<char>,
    plain: Credentials,
    before: Credentials,
    behind: Credentials,
)
    requires
        account.domain is None,
        !domain.contains('\\'),
        !name.contains('\\'),
        !name.contains('@'),
        plain.username@ == name,
        before.username@ == domain + seq!['\\'] + name,
        behind.username@ == name + seq!['@'] + domain,
        before.password@ == plain.password@,
        behind.password@ == plain.password@,
    ensures
        account.admits(plain) <==> plain.password@ == account.password@ && name.len()
            == account.username@.len() && forall|i: int|
            0 <= i < name.len() ==> alike(#[trigger] name[i], account.username@[i]),
        account.admits(before) == account.admits(plain),
        account.admits(behind) == account.admits(plain),
        account.decision(plain) is Accept <==> account.admits(plain),
        account.decision(before) == account.decision(plain),
        account.decision(behind) == account.decision(plain),
{
    lemma_name_forms(domain, name);
    lemma_lowered_alike(name, account.username@);
}

/// A name is told from its domain in each of the forms that it can have.
pub proof fn lemma_name_forms(domain: Seq<char>, name: Seq<char>)
    requires
        !domain.contains('\\'),
        !name.contains('\\'),
        !name.contains('@'),
    ensures
        name_parts(name) == (None::<Seq<char>>, name),
        name_parts(domain + seq!['\\'] + name) == (Some(domain), name),
        name_parts(name + seq!['@'] + domain) == (Some(domain), name),
{
    lemma_split_back(domain, name, '\\');
    lemma_split_back(name, domain, '@');
    lemma_split_back(name, domain, '\\');
    let whole = name + seq!['@'] + domain;
    assert(!whole.contains('\\')) by {
        assert forall|i: int| 0 <= i < whole.len() implies whole[i] != '\\' by {
            if i < name.len() {
                assert(name.contains(name[i]));
            } else if i > name.len() {
                assert(domain.contains(domain[i - name.len() - 1]));
            }
        }
    }
    lemma_split_back(whole, domain, '\\');
}

/// Where a domain is expected, a client is let in exactly if its password is the account's, its name is but
/// for case, and so is its domain, but for white space around it. It makes no difference whether the domain
/// is given by itself or with the name; a client that gives none is turned away, as is one whose domain is
/// blank or a dot.
pub proof fn lemma_domain_asked_for(
    account: Credentials,
    domain: Seq<char>,
    name: Seq<char>,
    alone: Credentials,
    before: Credentials,
    behind: Credentials,
    without_any: Credentials,
)
    requires
        account.domain is Some,
        !domain.contains('\\'),
        !name.contains('\\'),
        !name.contains('@'),
        alone.username@ == name,
        alone.domain is Some,
        alone.domain->0@ == domain,
        before.username@ == domain + seq!['\\'] + name,
        before.domain is None,
        behind.username@ == name + seq!['@'] + domain,
        behind.domain is None,
        without_any.username@ == name,
        without_any.domain is None,
        before.password@ == alone.password@,
        behind.password@ == alone.password@,
    ensures
        ({
            let asked = trimmed(account.domain->0@);
            let given = trimmed(domain);
            account.admits(alone) <==> {
                &&& alone.password@ == account.password@
                &&& name.len() == account.username@.len()
                &&& forall|i: int|
                    0 <= i < name.len() ==> alike(#[trigger] name[i], account.username@[i])
                &&& given.len() > 0
                &&& given != seq!['.']
                &&& given.len() == asked.len()
                &&& forall|i: int| 0 <= i < given.len() ==> alike(#[trigger] given[i], asked[i])
            }
        }),
        account.admits(before) == account.admits(alone),
        account.admits(behind) == account.admits(alone),
        !account.admits(without_any),
        account.decision(alone) is Accept <==> account.admits(alone),
        account.decision(before) == account.decision(alone),
        account.decision(behind) == account.decision(alone),
        account.decision(without_any) is Reject,
{
    lemma_name_forms(domain, name);
    lemma_lowered_alike(name, account.username@);
    lemma_lowered_alike(trimmed(account.domain->0@), trimmed(domain));
    let asked = trimmed(account.domain->0@);
    let given = trimmed(domain);
    assert forall|i: int| 0 <= i < given.len() && given.len() == asked.len() implies alike(
        given[i],
        asked[i],
    ) == alike(asked[i], given[i]) by {}
}

/// The domain that is given by itself counts, whatever the name carries.
pub proof fn lemma_domain_by_itself(
    account: Credentials,
    domain: Seq<char>,
    name: Seq<char>,
    carrying: Credentials,
    plain: Credentials,
)
    requires
        !domain.contains('\\'),
        !name.contains('\\'),
        !name.contains('@'),
        carrying.username@ == domain + seq!['\\'] + name || carrying.username@ == name + seq!['@']
            + domain,
        plain.username@ == name,
        carrying.password@ == plain.password@,
        carrying.domain is Some,
        plain.domain is Some,
        carrying.domain->0@ == plain.domain->0@,
    ensures
        account.admits(carrying) == account.admits(plain),
{
    lemma_name_forms(domain, name);
}

} // verus!
