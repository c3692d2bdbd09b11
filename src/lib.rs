//! Fingerprints the technologies behind a web page by matching the page's
//! observable signals against a catalog of technology signatures.

pub mod pattern;
pub mod lines;
pub mod wapp;

use std::sync::Arc;
use vstd::prelude::*;
use vstd::string::StringExecFns;
use wapp::{check, detected, AppsJsonData, RawData, Tech};

verus! {

/// What a scan of one page found: the technologies, or why the page could
/// not be looked at.
#[derive(Debug)]
pub struct Analysis {
    pub url: String,
    pub result: Result<Vec<Tech>, String>,
}

/// Why a page could not be analysed.
#[derive(Debug, Clone)]
pub enum WappError {
    Fetch(String),
    Analyze(String),
    Other(String),
}

/// An error's message: its kind, a slash, and its detail.
pub open spec fn error_text(e: WappError) -> Seq<char> {
    match e {
        WappError::Fetch(m) => "Fetch/"@ + m@,
        WappError::Analyze(m) => "Analyze/"@ + m@,
        WappError::Other(m) => "Other/"@ + m@,
    }
}

impl WappError {
    /// The error's message, as `Fetch/...`, `Analyze/...` or `Other/...`.
    pub fn to_text(&self) -> (r: String)
        ensures
            r@ == error_text(*self),
    {
        let (kind, detail) = match self {
            WappError::Fetch(m) => ("Fetch/", m),
            WappError::Analyze(m) => ("Analyze/", m),
            WappError::Other(m) => ("Other/", m),
        };
        let mut text = kind.to_owned();
        text.append(detail.as_str());
        text
    }
}

/// The analysis of the page at `url`, once fetching it has succeeded or
/// failed: the catalog's findings on the page, or the fetch error's message.
pub fn analysis_of(url: String, fetched: Result<Arc<RawData>, WappError>, data: &AppsJsonData) -> (r:
    Analysis)
    ensures
        r.url@ == url@,
        match fetched {
            Ok(raw_data) => r.result matches Ok(techs) && techs@.map_values(|t: Tech| t@)
                == detected(data.app_views(), raw_data@, data.category_names()),
            Err(e) => r.result matches Err(m) && m@ == error_text(e),
        },
{
    match fetched {
        Ok(raw_data) => Analysis { url, result: Ok(check(raw_data, data)) },
        Err(err) => Analysis { url, result: Err(err.to_text()) },
    }
}

} // verus!
