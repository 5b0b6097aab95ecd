//! Per-item download decisions: what a failed resolution, a missing
//! link, an artifact already on disk, or a finished transfer each turn
//! into, as an exact decision table over the item's outcome record.

use vstd::prelude::*;
use vstd::string::StringExecFns;
use crate::models::{DownloadResult, DownloadResultView, opt_str_view};
use crate::resolve::{ResolvedLink, ResolvedLinkView};

verus! {

/// What the orchestrator must do for one item: record an outcome
/// without touching the network, or fetch the given URL.
pub enum DownloadPlan {
    Skip(DownloadResult),
    Fetch { url: String, version: Option<String> },
}

/// Mathematical view of a [`DownloadPlan`].
pub ghost enum DownloadPlanView {
    Skip(DownloadResultView),
    Fetch { url: Seq<char>, version: Option<Seq<char>> },
}

impl View for DownloadPlan {
    type V = DownloadPlanView;

    open spec fn view(&self) -> DownloadPlanView {
        match self {
            DownloadPlan::Skip(d) => DownloadPlanView::Skip(d@),
            DownloadPlan::Fetch { url, version } => DownloadPlanView::Fetch {
                url: url@,
                version: opt_str_view(*version),
            },
        }
    }
}

/// View of a resolution attempt: the validated link, or the failure cause.
pub open spec fn resolution_view(r: Result<ResolvedLink, String>) -> Result<
    ResolvedLinkView,
    Seq<char>,
> {
    match r {
        Ok(link) => Ok(link@),
        Err(cause) => Err(cause@),
    }
}

/// The decision table for one item, given how resolution went and
/// whether the artifact already sits non-empty on disk: a failed
/// resolution or a missing link is recorded at once; a present artifact
/// is the idempotent skip; only a resolved link with no artifact on
/// disk leads to a fetch.
pub open spec fn plan_view(
    slug: Seq<char>,
    resolution: Result<ResolvedLinkView, Seq<char>>,
    already_present: bool,
) -> DownloadPlanView {
    match resolution {
        Err(cause) => DownloadPlanView::Skip(
            DownloadResultView {
                slug,
                success: false,
                message: "error: "@ + cause,
                version: None,
            },
        ),
        Ok(link) => match link.url {
            None => DownloadPlanView::Skip(
                DownloadResultView {
                    slug,
                    success: false,
                    message: "no download_link"@,
                    version: link.version,
                },
            ),
            Some(url) => if already_present {
                DownloadPlanView::Skip(
                    DownloadResultView {
                        slug,
                        success: true,
                        message: "already exists"@,
                        version: link.version,
                    },
                )
            } else {
                DownloadPlanView::Fetch { url, version: link.version }
            },
        },
    }
}

/// Decides what to do for one item. `already_present` says whether the
/// destination file already exists with non-zero size; when it does and
/// a link was resolved, the plan skips the network entirely.
pub fn plan_download(
    slug: &str,
    resolution: Result<ResolvedLink, String>,
    already_present: bool,
) -> (p: DownloadPlan)
    ensures
        p@ == plan_view(slug@, resolution_view(resolution), already_present),
{
    match resolution {
        Err(cause) => {
            let mut message = String::from_str("error: ");
            message.append(cause.as_str());
            DownloadPlan::Skip(
                DownloadResult {
                    slug: String::from_str(slug),
                    success: false,
                    message,
                    version: None,
                },
            )
        },
        Ok(link) => match link.url {
            None => DownloadPlan::Skip(
                DownloadResult {
                    slug: String::from_str(slug),
                    success: false,
                    message: String::from_str("no download_link"),
                    version: link.version,
                },
            ),
            Some(url) => {
                if already_present {
                    DownloadPlan::Skip(
                        DownloadResult {
                            slug: String::from_str(slug),
                            success: true,
                            message: String::from_str("already exists"),
                            version: link.version,
                        },
                    )
                } else {
                    DownloadPlan::Fetch { url, version: link.version }
                }
            },
        },
    }
}

/// The outcome recorded after a fetch was attempted: success, or the
/// failure cause after every attempt was exhausted.
pub open spec fn finished_view(
    slug: Seq<char>,
    version: Option<Seq<char>>,
    failure: Option<Seq<char>>,
) -> DownloadResultView {
    match failure {
        None => DownloadResultView { slug, success: true, message: "downloaded"@, version },
        Some(cause) => DownloadResultView {
            slug,
            success: false,
            message: "download failed: "@ + cause,
            version,
        },
    }
}

/// Records the outcome of a finished fetch attempt; `failure` carries
/// the cause when every attempt was exhausted.
pub fn finish_download(slug: &str, version: Option<String>, failure: Option<String>) -> (d:
    DownloadResult)
    ensures
        d@ == finished_view(slug@, opt_str_view(version), opt_str_view(failure)),
{
    match failure {
        None => DownloadResult {
            slug: String::from_str(slug),
            success: true,
            message: String::from_str("downloaded"),
            version,
        },
        Some(cause) => {
            let mut message = String::from_str("download failed: ");
            message.append(cause.as_str());
            DownloadResult { slug: String::from_str(slug), success: false, message, version }
        },
    }
}

} // verus!
