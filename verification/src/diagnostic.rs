//! Failures as the meter reports them: a stable code, a message, and what is known beyond.

use crate::text::{concat, opt_text};
use vstd::prelude::*;
use vstd::string::StringExecFns;

verus! {

/// A failure that is shown to the user.
#[derive(Debug, Clone)]
pub struct Diagnostic {
    /// The stable code, such as `CRV-101`.
    pub code: &'static str,
    pub message: String,
    pub detail: Option<String>,
    /// The account that was signed in when the failure occurred; decides whose cached readings
    /// may still be shown.
    pub account_id: Option<String>,
}

/// The texts of a [`Diagnostic`].
pub struct Report {
    pub code: Seq<char>,
    pub message: Seq<char>,
    pub detail: Option<Seq<char>>,
    pub account_id: Option<Seq<char>>,
}

impl View for Diagnostic {
    type V = Report;

    open spec fn view(&self) -> Report {
        Report {
            code: self.code@,
            message: self.message@,
            detail: opt_text(self.detail),
            account_id: opt_text(self.account_id),
        }
    }
}

/// A failure without detail and without an account.
pub open spec fn plain_report(code: Seq<char>, message: Seq<char>) -> Report {
    Report { code, message, detail: None, account_id: None }
}

/// A failure with detail and without an account.
pub open spec fn report(code: Seq<char>, message: Seq<char>, detail: Seq<char>) -> Report {
    Report { code, message, detail: Some(detail), account_id: None }
}

impl Diagnostic {
    /// A failure without detail and without an account.
    pub fn new(code: &'static str, message: &str) -> (diagnostic: Diagnostic)
        ensures
            diagnostic@ == plain_report(code@, message@),
    {
        Diagnostic { code, message: message.to_owned(), detail: None, account_id: None }
    }

    /// The same failure with `detail`.
    pub fn with_detail(self, detail: &str) -> (diagnostic: Diagnostic)
        ensures
            diagnostic@ == (Report { detail: Some(detail@), ..self@ }),
    {
        Diagnostic {
            code: self.code,
            message: self.message,
            detail: Some(detail.to_owned()),
            account_id: self.account_id,
        }
    }

    /// The same failure as seen by `account_id`.
    pub fn with_account(self, account_id: Option<String>) -> (diagnostic: Diagnostic)
        ensures
            diagnostic@ == (Report { account_id: opt_text(account_id), ..self@ }),
    {
        Diagnostic {
            code: self.code,
            message: self.message,
            detail: self.detail,
            account_id,
        }
    }

    /// The line that names the failure: its code, a colon and its message.
    pub fn line(&self) -> (line: String)
        ensures
            line@ == self.code@ + ": "@ + self.message@,
    {
        let mut line = concat(self.code, ": ");
        line.append(self.message.as_str());
        line
    }
}

/// Detail and account are added to a failure without changing anything else of it, and in either
/// order.
pub proof fn law_details_are_added(
    code: &'static str,
    message: &str,
    detail: &str,
    account_id: Option<String>,
    plain: Diagnostic,
    detailed: Diagnostic,
    tagged: Diagnostic,
)
    requires
        call_ensures(Diagnostic::new, (code, message), plain),
        call_ensures(Diagnostic::with_detail, (plain, detail), detailed),
        call_ensures(Diagnostic::with_account, (detailed, account_id), tagged),
    ensures
        plain.code@ == code@ && plain.message@ == message@ && plain.detail is None
            && plain.account_id is None,
        detailed.code@ == code@ && detailed.message@ == message@ && opt_text(detailed.detail)
            == Some(detail@) && detailed.account_id is None,
        tagged.code@ == code@ && tagged.message@ == message@ && opt_text(tagged.detail) == Some(
            detail@,
        ) && opt_text(tagged.account_id) == opt_text(account_id),
{
    assert(plain@.code == plain.code@ && plain@.message == plain.message@ && plain@.detail
        == opt_text(plain.detail) && plain@.account_id == opt_text(plain.account_id));
    assert(detailed@.code == detailed.code@ && detailed@.message == detailed.message@
        && detailed@.detail == opt_text(detailed.detail) && detailed@.account_id == opt_text(
        detailed.account_id,
    ));
    assert(tagged@.code == tagged.code@ && tagged@.message == tagged.message@ && tagged@.detail
        == opt_text(tagged.detail) && tagged@.account_id == opt_text(tagged.account_id));
}

} // verus!
