//! `jade update`: whether an update is available, how to say so, and what
//! to do next.

use vstd::prelude::*;
use crate::install::{InstallKind, newer_version, is_newer_version};
use crate::text::{to_chars, from_chars, append_str};

verus! {

/// What `jade update` reports.
#[derive(Clone, Debug)]
pub struct UpdateStatus {
    pub current_version: String,
    pub latest_version: Option<String>,
    pub install_kind: InstallKind,
    pub package_name: Option<String>,
    pub update_available: bool,
    pub channel: String,
    pub message: String,
    pub download_url: Option<String>,
}

/// An update is available when the channel's latest version is newer than
/// the running one.
pub open spec fn available(current: Seq<char>, latest: Option<Seq<char>>) -> bool {
    match latest {
        Some(v) => newer_version(current, v),
        None => false,
    }
}

/// The sentence `jade update` prints.
pub open spec fn update_message(current: Seq<char>, latest: Option<Seq<char>>, channel: Seq<char>) -> Seq<char> {
    if !available(current, latest) {
        match latest {
            Some(v) => "Already up to date ("@ + current + "; channel latest "@ + v + ")."@,
            None => "Already up to date ("@ + current + "); could not resolve channel latest."@,
        }
    } else {
        "Update available: "@ + current + " \u{2192} "@ + latest->Some_0 + " via "@ + channel + "."@
    }
}

fn copy_opt_string(o: &Option<String>) -> (r: Option<String>)
    ensures
        r == *o,
{
    match o {
        Some(s) => Some(s.clone()),
        None => None,
    }
}

/// The status of an install of kind `kind` running `current`, whose channel
/// resolved to `latest`, `channel` and `download_url`.
pub fn update_status(
    current: &str,
    kind: InstallKind,
    package_name: &Option<String>,
    latest: &Option<String>,
    channel: &str,
    download_url: &Option<String>,
) -> (r: UpdateStatus)
    ensures
        r.current_version@ == current@,
        r.latest_version == *latest,
        r.install_kind == kind,
        r.package_name == *package_name,
        r.update_available == available(current@, crate::cron::opt_view(*latest)),
        r.channel@ == channel@,
        r.message@ == update_message(current@, crate::cron::opt_view(*latest), channel@),
        r.download_url == *download_url,
{
    let update_available = match latest {
        Some(v) => is_newer_version(current, v.as_str()),
        None => false,
    };
    let mut m: Vec<char> = Vec::new();
    if !update_available {
        match latest {
            Some(v) => {
                append_str(&mut m, "Already up to date (");
                append_str(&mut m, current);
                append_str(&mut m, "; channel latest ");
                append_str(&mut m, v.as_str());
                append_str(&mut m, ").");
            },
            None => {
                append_str(&mut m, "Already up to date (");
                append_str(&mut m, current);
                append_str(&mut m, "); could not resolve channel latest.");
            },
        }
    } else {
        let v = match latest {
            Some(v) => v.as_str(),
            None => "?",
        };
        append_str(&mut m, "Update available: ");
        append_str(&mut m, current);
        append_str(&mut m, " \u{2192} ");
        append_str(&mut m, v);
        append_str(&mut m, " via ");
        append_str(&mut m, channel);
        append_str(&mut m, ".");
    }
    UpdateStatus {
        current_version: from_chars(&to_chars(current)),
        latest_version: copy_opt_string(latest),
        install_kind: kind,
        package_name: copy_opt_string(package_name),
        update_available,
        channel: from_chars(&to_chars(channel)),
        message: from_chars(&m),
        download_url: copy_opt_string(download_url),
    }
}

/// What `jade update` does after reporting.
#[derive(Clone, Copy, Debug, PartialEq, Eq, Structural)]
pub enum UpdateStep {
    /// Print the status as JSON and stop.
    ReportJson,
    /// Stop (the status was printed as text).
    Done,
    /// Offer to install through the CLI install script.
    OfferInstallScript,
    /// Install the update.
    Install,
}

/// The next step: with JSON output, a check or no update only reports the
/// status; otherwise a check stops after the text report, no update stops
/// (an unknown install is offered the install script), and an available
/// update is installed.
pub open spec fn step_for(check_only: bool, json: bool, update_available: bool, kind: InstallKind) -> UpdateStep {
    if json && (check_only || !update_available) {
        UpdateStep::ReportJson
    } else if check_only {
        UpdateStep::Done
    } else if !update_available {
        if kind == InstallKind::Unknown {
            UpdateStep::OfferInstallScript
        } else {
            UpdateStep::Done
        }
    } else {
        UpdateStep::Install
    }
}

/// The next step of `jade update` (see [`step_for`]).
pub fn next_update_step(check_only: bool, json: bool, update_available: bool, kind: InstallKind) -> (r: UpdateStep)
    ensures
        r == step_for(check_only, json, update_available, kind),
{
    let unknown = match kind {
        InstallKind::Unknown => true,
        _ => false,
    };
    if json && (check_only || !update_available) {
        UpdateStep::ReportJson
    } else if check_only {
        UpdateStep::Done
    } else if !update_available {
        if unknown {
            UpdateStep::OfferInstallScript
        } else {
            UpdateStep::Done
        }
    } else {
        UpdateStep::Install
    }
}

} // verus!
