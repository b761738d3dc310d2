//! Which form the result takes, and where it goes.

use crate::chars;
use vstd::prelude::*;

verus! {

/// The forms in which a parsed log can be put out.
#[derive(Debug, Clone, Copy, PartialEq, Eq, Structural)]
pub enum OutputFormat {
    /// Short, human-readable summary.
    Summary,
    /// Compact JSON on a single line.
    Json,
    /// Indented JSON.
    JsonPretty,
    /// Gzipped compact JSON.
    JsonGz,
}

/// The form that the name of the output file asks for; the summary where
/// there is no file.
pub open spec fn format_for(name: Option<Seq<char>>) -> OutputFormat {
    match name {
        Some(n) => if chars::ends_with(n, ".json.gz"@) {
            OutputFormat::JsonGz
        } else if chars::ends_with(n, ".json"@) {
            OutputFormat::Json
        } else {
            OutputFormat::Summary
        },
        None => OutputFormat::Summary,
    }
}

/// Takes the output format from the name of the output file.
pub fn infer_format(name: Option<&str>) -> (out: OutputFormat)
    ensures
        out == format_for(
            match name {
                Some(n) => Some(n@),
                None => None,
            },
        ),
{
    match name {
        Some(n) => {
            let n = chars::chars_of(n);
            if chars::closes(n.as_slice(), ".json.gz") {
                OutputFormat::JsonGz
            } else if chars::closes(n.as_slice(), ".json") {
                OutputFormat::Json
            } else {
                OutputFormat::Summary
            }
        },
        None => OutputFormat::Summary,
    }
}

/// The form of the output: the one asked for, or else the one that the name
/// of the output file asks for. Gzip does not go to the terminal.
pub fn choose_format(asked: Option<OutputFormat>, name: Option<&str>) -> (out: Result<
    OutputFormat,
    &'static str,
>)
    ensures
        out is Err <==> name is None && asked == Some(OutputFormat::JsonGz),
        out matches Err(why) ==> why@
            == "--format json-gz requires --output (gzip to stdout is rarely useful)"@,
        out matches Ok(format) ==> format == (match asked {
            Some(f) => f,
            None => format_for(
                match name {
                    Some(n) => Some(n@),
                    None => None,
                },
            ),
        }),
{
    let format = match asked {
        Some(f) => f,
        None => infer_format(name),
    };
    if name.is_none() && format == OutputFormat::JsonGz {
        Err("--format json-gz requires --output (gzip to stdout is rarely useful)")
    } else {
        Ok(format)
    }
}

} // verus!
