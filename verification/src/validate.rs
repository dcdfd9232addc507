//! The URL validation pipeline that gates inserts and updates.
//!
//! A submission must carry at least one URL; every URL it carries must
//! parse, must not combine "cannot be a base" with a reported host, and its
//! host must resolve in DNS. Parsing is the url crate's; the DNS lookup is
//! network I/O that the caller performs between steps: [`validate_shop`]
//! is a pure decision function that, given the submission and the lookup
//! outcomes gathered so far, either names the next host to resolve, rejects
//! the submission with a reason, or accepts it. The caller repeats the call
//! with one more outcome each time a lookup finishes.

use crate::rest::InsertShopReq;
use crate::store::opt_view;
use vstd::prelude::*;

verus! {

/// Whether `url::Url::parse` succeeds on the string; a function of the
/// string alone.
pub uninterp spec fn url_parses(s: Seq<char>) -> bool;

/// Whether the parsed URL cannot serve as a base URL.
pub uninterp spec fn url_cannot_be_a_base(s: Seq<char>) -> bool;

/// Whether the parsed URL reports a host.
pub uninterp spec fn url_has_host(s: Seq<char>) -> bool;

/// The string form of the parsed URL's host, if it has one.
pub uninterp spec fn url_host(s: Seq<char>) -> Option<Seq<char>>;

/// What the URL parser reports of one string, as plain values.
pub struct UrlInfo {
    pub parsed: bool,
    pub cannot_be_a_base: bool,
    pub has_host: bool,
    pub host: Option<String>,
}

/// Relies on `url::Url::parse` and on the accessors `cannot_be_a_base`,
/// `has_host` and `host_str` of the parsed value, which this body reads
/// into plain values at once: parsing is deterministic, so each field is a
/// function of the input string alone, and `has_host` is documented as
/// equivalent to the host being present.
#[verifier::external_body]
fn parse_url_info(raw: &String) -> (r: UrlInfo)
    ensures
        r.parsed == url_parses(raw@),
        r.parsed ==> r.cannot_be_a_base == url_cannot_be_a_base(raw@),
        r.parsed ==> r.has_host == url_has_host(raw@),
        r.parsed ==> opt_view(r.host) == url_host(raw@),
        r.parsed ==> (r.has_host <==> url_host(raw@) is Some),
{
    match url::Url::parse(raw) {
        Ok(u) => UrlInfo {
            parsed: true,
            cannot_be_a_base: u.cannot_be_a_base(),
            has_host: u.has_host(),
            host: u.host_str().map(|h| h.to_owned()),
        },
        Err(_) => UrlInfo { parsed: false, cannot_be_a_base: false, has_host: false, host: None },
    }
}

/// Why a submission was rejected.
#[derive(Debug, PartialEq, Eq, Structural, Clone, Copy)]
pub enum ValidationError {
    /// Both URL fields are absent.
    MissingUrl,
    /// A URL cannot be parsed, or parses without a host.
    Unparseable,
    /// A URL cannot be a base yet reports a host.
    NotABase,
    /// A URL's host did not resolve.
    Unresolvable,
}

impl ValidationError {
    /// The reason's value as a message sequence.
    pub open spec fn message_spec(self) -> Seq<char> {
        match self {
            ValidationError::MissingUrl => "Failed inserting shop - no urls"@,
            ValidationError::Unparseable => "Nicht lesbar!"@,
            ValidationError::NotABase => "Keine BASE URL"@,
            ValidationError::Unresolvable => "Unregistierte URL!"@,
        }
    }

    /// The human-readable message of this reason.
    pub fn message(&self) -> (r: String)
        ensures
            r@ == self.message_spec(),
    {
        match self {
            ValidationError::MissingUrl => "Failed inserting shop - no urls".to_owned(),
            ValidationError::Unparseable => "Nicht lesbar!".to_owned(),
            ValidationError::NotABase => "Keine BASE URL".to_owned(),
            ValidationError::Unresolvable => "Unregistierte URL!".to_owned(),
        }
    }
}

/// The pure stage of URL normalization: either the host to resolve, or the
/// reason the URL is rejected before any lookup.
pub open spec fn url_stage(s: Seq<char>) -> Result<Seq<char>, ValidationError> {
    if !url_parses(s) {
        Err(ValidationError::Unparseable)
    } else if url_cannot_be_a_base(s) && url_has_host(s) {
        Err(ValidationError::NotABase)
    } else {
        match url_host(s) {
            Some(h) => Ok(h),
            None => Err(ValidationError::Unparseable),
        }
    }
}

/// The view of a result holding a string.
pub open spec fn stage_view(r: Result<String, ValidationError>) -> Result<Seq<char>, ValidationError> {
    match r {
        Ok(h) => Ok(h@),
        Err(e) => Err(e),
    }
}

/// Parses one URL and applies the pre-lookup checks: fails with
/// `Unparseable` when the string does not parse or parses without a host,
/// and with `NotABase` when the parse cannot be a base yet reports a host;
/// otherwise returns the host to resolve.
pub fn normalize_url_stage(raw: &String) -> (r: Result<String, ValidationError>)
    ensures
        stage_view(r) == url_stage(raw@),
{
    let info = parse_url_info(raw);
    if !info.parsed {
        Err(ValidationError::Unparseable)
    } else if info.cannot_be_a_base && info.has_host {
        Err(ValidationError::NotABase)
    } else {
        match info.host {
            Some(h) => Ok(h),
            None => Err(ValidationError::Unparseable),
        }
    }
}

/// What the validator asks of its caller next.
#[derive(Debug)]
pub enum ValidationStep {
    /// Resolve this host in DNS and call again with the outcome appended.
    Lookup { host: String },
    /// The submission is rejected for this reason.
    Rejected { reason: ValidationError },
    /// The submission is accepted.
    Accepted,
}

/// The mathematical value of a validation step.
pub enum StepView {
    Lookup(Seq<char>),
    Rejected(ValidationError),
    Accepted,
}

impl View for ValidationStep {
    type V = StepView;

    open spec fn view(&self) -> StepView {
        match self {
            ValidationStep::Lookup { host } => StepView::Lookup(host@),
            ValidationStep::Rejected { reason } => StepView::Rejected(*reason),
            ValidationStep::Accepted => StepView::Accepted,
        }
    }
}

/// Checks one optional URL against the lookup outcomes, starting at
/// outcome index `k`: either the validation ends here with a step, or it
/// goes on with the next outcome index.
pub open spec fn check_opt_url(o: Option<Seq<char>>, looks: Seq<bool>, k: int) -> Result<
    int,
    StepView,
> {
    match o {
        None => Ok(k),
        Some(s) => match url_stage(s) {
            Err(e) => Err(StepView::Rejected(e)),
            Ok(h) => if looks.len() <= k {
                Err(StepView::Lookup(h))
            } else if !looks[k] {
                Err(StepView::Rejected(ValidationError::Unresolvable))
            } else {
                Ok(k + 1)
            },
        },
    }
}

/// The whole validation of a submission with URL fields `u` and `dn`,
/// given the lookup outcomes so far: rejected with `MissingUrl` when both
/// are absent; otherwise the contact URL is checked first and the donation
/// URL after it, each short-circuiting on failure, each consuming one
/// lookup outcome when its host must resolve.
pub open spec fn validate_spec(
    u: Option<Seq<char>>,
    dn: Option<Seq<char>>,
    looks: Seq<bool>,
) -> StepView {
    if u is None && dn is None {
        StepView::Rejected(ValidationError::MissingUrl)
    } else {
        match check_opt_url(u, looks, 0) {
            Err(st) => st,
            Ok(k) => match check_opt_url(dn, looks, k) {
                Err(st) => st,
                Ok(_) => StepView::Accepted,
            },
        }
    }
}

/// The validator's outcomes, spelled out. A submission with no URL at all
/// is rejected with `MissingUrl` before any lookup. One whose single URL
/// passes the parse stage is accepted exactly when its host resolves, and
/// rejected with `Unresolvable` when it does not. A URL that fails the
/// parse stage is rejected with that stage's reason before any lookup.
pub proof fn lemma_validate_shop_outcomes(u: Option<Seq<char>>, dn: Option<Seq<char>>)
    ensures
        u is None && dn is None ==> validate_spec(u, dn, Seq::empty()) == StepView::Rejected(
            ValidationError::MissingUrl,
        ),
        u is Some && dn is None && url_stage(u->Some_0) is Ok ==> validate_spec(u, dn, seq![true])
            == StepView::Accepted,
        u is None && dn is Some && url_stage(dn->Some_0) is Ok ==> validate_spec(u, dn, seq![true])
            == StepView::Accepted,
        u is Some && dn is None && url_stage(u->Some_0) is Ok ==> validate_spec(u, dn, seq![false])
            == StepView::Rejected(ValidationError::Unresolvable),
        u is None && dn is Some && url_stage(dn->Some_0) is Ok ==> validate_spec(u, dn, seq![false])
            == StepView::Rejected(ValidationError::Unresolvable),
        u is Some && url_stage(u->Some_0) is Err ==> validate_spec(u, dn, Seq::empty())
            == StepView::Rejected(url_stage(u->Some_0)->Err_0),
{
}

/// One step of validating a submission. `lookups` holds the outcomes of
/// the DNS lookups performed so far, in the order they were requested;
/// call first with none, and after each requested lookup call again with
/// its outcome appended. Rejects with `MissingUrl` when both URL fields
/// are absent; checks the contact URL before the donation URL; never asks
/// for more than two lookups.
pub fn validate_shop(shop: &InsertShopReq, lookups: &Vec<bool>) -> (r: ValidationStep)
    ensures
        r@ == validate_spec(opt_view(shop.url), opt_view(shop.donation_url), lookups@),
{
    if shop.url.is_none() && shop.donation_url.is_none() {
        return ValidationStep::Rejected { reason: ValidationError::MissingUrl };
    }
    let mut k: usize = 0;
    if let Some(u) = &shop.url {
        match normalize_url_stage(u) {
            Err(e) => {
                return ValidationStep::Rejected { reason: e };
            },
            Ok(h) => {
                if lookups.len() <= k {
                    return ValidationStep::Lookup { host: h };
                }
                if !lookups[k] {
                    return ValidationStep::Rejected { reason: ValidationError::Unresolvable };
                }
                k = k + 1;
            },
        }
    }
    if let Some(d) = &shop.donation_url {
        match normalize_url_stage(d) {
            Err(e) => {
                return ValidationStep::Rejected { reason: e };
            },
            Ok(h) => {
                if lookups.len() <= k {
                    return ValidationStep::Lookup { host: h };
                }
                if !lookups[k] {
                    return ValidationStep::Rejected { reason: ValidationError::Unresolvable };
                }
            },
        }
    }
    ValidationStep::Accepted
}

} // verus!
