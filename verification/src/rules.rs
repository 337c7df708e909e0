//! The redirect rules themselves and the errors a verification pass can
//! report about them.

use vstd::prelude::*;

verus! {

/// One redirect rule: requests for the subdomain `short` are answered with a
/// redirect to `url`.
#[derive(Debug, Clone, PartialEq, Eq)]
pub struct SiteRedirect {
    pub short: String,
    pub url: String,
}

/// Mathematical image of a [`SiteRedirect`]: both fields as character
/// sequences.
pub struct RuleModel {
    pub short: Seq<char>,
    pub url: Seq<char>,
}

impl View for SiteRedirect {
    type V = RuleModel;

    open spec fn view(&self) -> RuleModel {
        RuleModel { short: self.short@, url: self.url@ }
    }
}

impl SiteRedirect {
    /// A copy of the rule, equal to it in every contract.
    pub fn duplicate(&self) -> (r: SiteRedirect)
        ensures
            r@ == self@,
    {
        SiteRedirect { short: self.short.clone(), url: self.url.clone() }
    }
}

/// One failure found while verifying a proposed rule set.
#[derive(Debug, Clone, PartialEq, Eq)]
pub enum RedirectError {
    /// The destination URL does not parse as an absolute URL.
    BadUrl(String),
    /// The destination URL parses, but the page could not be fetched with a
    /// success status; the payload names the URL and what happened.
    InvalidPage(String),
    /// Two rules share this short key.
    DuplicateRule(String),
}

/// Mathematical image of a [`RedirectError`].
pub enum ErrorModel {
    BadUrl(Seq<char>),
    InvalidPage(Seq<char>),
    DuplicateRule(Seq<char>),
}

impl View for RedirectError {
    type V = ErrorModel;

    open spec fn view(&self) -> ErrorModel {
        match self {
            RedirectError::BadUrl(u) => ErrorModel::BadUrl(u@),
            RedirectError::InvalidPage(m) => ErrorModel::InvalidPage(m@),
            RedirectError::DuplicateRule(k) => ErrorModel::DuplicateRule(k@),
        }
    }
}

/// The views of a sequence of rules.
pub open spec fn rule_models(rules: Seq<SiteRedirect>) -> Seq<RuleModel> {
    rules.map(|i: int, r: SiteRedirect| r@)
}

/// The views of a sequence of verification errors.
pub open spec fn error_models(errs: Seq<RedirectError>) -> Seq<ErrorModel> {
    errs.map(|i: int, e: RedirectError| e@)
}

} // verus!
