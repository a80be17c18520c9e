//! Parameters of the trace endpoints and the choice of export format.

use vstd::prelude::*;
use crate::api_error::ApiError;
use crate::ids::{parse_uuid, parsed_uuid};
use crate::text::lowercase;
use crate::views::{ExportFormat, export_format_named};

verus! {

broadcast use vstd::string::group_string_axioms;

/// Path parameters of the trace endpoints.
#[derive(Debug, Clone, PartialEq, Eq)]
pub struct TracePath {
    /// Trace or span id.
    pub trace_id: String,
}

/// Query parameters of the export endpoint.
#[derive(Debug, Clone, PartialEq, Eq)]
pub struct ExportParams {
    /// Export format: json, mermaid, text.
    pub format: Option<String>,
}

/// The export format that the parameters ask for, if they name a known
/// one.
pub open spec fn requested_format(p: Option<Seq<char>>) -> Option<ExportFormat> {
    match p {
        Some(f) => export_format_named(lowercase(f)),
        None => None,
    }
}

/// The name under which an export is labelled: that of the format, and
/// `json` (the default) when none is known.
pub open spec fn export_label(f: Option<ExportFormat>) -> Seq<char> {
    match f {
        Some(ExportFormat::Json) => "json"@,
        Some(ExportFormat::Mermaid) => "mermaid"@,
        Some(ExportFormat::Text) => "text"@,
        None => "json"@,
    }
}

impl ExportParams {
    /// The export format that these parameters ask for, if they name one.
    pub fn export_format(&self) -> (r: Option<ExportFormat>)
        ensures
            r == requested_format(
                match self.format {
                    Some(f) => Some(f@),
                    None => None,
                },
            ),
    {
        match &self.format {
            Some(f) => ExportFormat::from_str(f.as_str()),
            None => None,
        }
    }
}

/// The label of an export in the given format (JSON when none is known).
pub fn export_format_name(format: Option<ExportFormat>) -> (r: &'static str)
    ensures
        r@ == export_label(format),
{
    match format {
        Some(ExportFormat::Json) => "json",
        Some(ExportFormat::Mermaid) => "mermaid",
        Some(ExportFormat::Text) => "text",
        None => "json",
    }
}

/// The exporter of the collector that serves an export.
#[derive(Debug, Clone, Copy, PartialEq, Eq)]
pub enum Exporter {
    /// The JSON export.
    Json,
    /// The Mermaid flowchart export.
    Mermaid,
}

/// The exporter serving a format: text is served by the Mermaid exporter,
/// and JSON (also when no known format is asked for) by the JSON one.
pub open spec fn exporter_for(f: Option<ExportFormat>) -> Exporter {
    match f {
        Some(ExportFormat::Mermaid) => Exporter::Mermaid,
        Some(ExportFormat::Text) => Exporter::Mermaid,
        _ => Exporter::Json,
    }
}

/// The exporter serving a format.
pub fn exporter(format: Option<ExportFormat>) -> (r: Exporter)
    ensures
        r == exporter_for(format),
{
    match format {
        Some(ExportFormat::Mermaid) => Exporter::Mermaid,
        Some(ExportFormat::Text) => Exporter::Mermaid,
        _ => Exporter::Json,
    }
}

/// The trace a path names: the UUID its id spells, or the refusal of an
/// invalid trace id.
pub fn trace_uuid(trace_id: &str) -> (r: Result<u128, ApiError>)
    ensures
        parsed_uuid(trace_id@) matches Some(id) ==> r == Ok::<u128, ApiError>(id),
        parsed_uuid(trace_id@) is None ==> (r matches Err(ApiError::InvalidTraceId(t)) && t@ == trace_id@),
{
    match parse_uuid(trace_id) {
        Ok(id) => Ok(id),
        Err(_) => Err(ApiError::InvalidTraceId(String::from_str(trace_id))),
    }
}

/// The reply to a trace lookup once the collector has answered: a trace it
/// does not hold is not found.
pub fn trace_reply(trace_id: &str, found: bool) -> (r: Result<(), ApiError>)
    ensures
        found ==> r is Ok,
        !found ==> (r matches Err(ApiError::TraceNotFound(t)) && t@ == trace_id@),
{
    if found {
        Ok(())
    } else {
        Err(ApiError::TraceNotFound(String::from_str(trace_id)))
    }
}

/// How an export request is served: the trace, the exporter, and the
/// label of the reply.
#[derive(Debug, Clone, PartialEq, Eq)]
pub struct ExportPlan {
    /// The trace to export.
    pub trace: u128,
    /// The exporter that serves it.
    pub exporter: Exporter,
    /// The format label of the reply.
    pub label: String,
}

/// Plans an export: the trace id must spell a UUID; the parameters choose
/// the exporter and the label.
pub fn plan_export(trace_id: &str, params: &ExportParams) -> (r: Result<ExportPlan, ApiError>)
    ensures
        parsed_uuid(trace_id@) is None ==> (r matches Err(ApiError::InvalidTraceId(t)) && t@ == trace_id@),
        parsed_uuid(trace_id@) matches Some(id) ==> (r matches Ok(plan) && {
            let f = requested_format(
                match params.format {
                    Some(x) => Some(x@),
                    None => None,
                },
            );
            &&& plan.trace == id
            &&& plan.exporter == exporter_for(f)
            &&& plan.label@ == export_label(f)
        }),
{
    let trace = match trace_uuid(trace_id) {
        Ok(id) => id,
        Err(e) => {
            return Err(e);
        },
    };
    let format = params.export_format();
    Ok(ExportPlan { trace, exporter: exporter(format), label: String::from_str(export_format_name(format)) })
}

} // verus!
