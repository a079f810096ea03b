//! The options of the command line, as plain values.

use crate::shape::{is_shape_spec, parse, parsed, ShapeEntryView, ShapeParseError, ShapeSpec};
use vstd::prelude::*;
use vstd::string::StringExecFns;

verus! {

/// The options of one benchmark run.
#[derive(Clone, Debug)]
pub struct Cli {
    /// Where the model file lies.
    pub model_path: String,
    /// How many times the model is run.
    pub loop_num: usize,
    /// The shape specification of the synthetic inputs, as text.
    pub input_shape: String,
    /// The log verbosity threshold.
    pub level: String,
}

/// The lowercase form of a text, as `str::to_lowercase` gives it.
pub uninterp spec fn lowercase(text: Seq<char>) -> Seq<char>;

/// Calls `str::to_lowercase` of the standard library, which maps each
/// character by the Unicode rules for lowercase, the same on every machine.
/// The contract only names the outcome.
#[verifier::external_body]
fn to_lowercase(text: &str) -> (lower: String)
    ensures
        lower@ == lowercase(text@),
{
    text.to_lowercase()
}

/// The log filter that applies the threshold `level` to the program and to
/// the inference engine alike.
pub open spec fn filter_of(level: Seq<char>) -> Seq<char> {
    level + ",ort="@ + level
}

/// Builds the log filter for a threshold that is already in lowercase.
pub fn filter_directive(level: &str) -> (filter: String)
    ensures
        filter@ == filter_of(level@),
{
    let mut filter: String = level.to_owned();
    filter.append(",ort=");
    filter.append(level);
    filter
}

impl Cli {
    /// The log filter of the run: its threshold in lowercase, for the
    /// program and for the inference engine alike.
    pub fn log_filter(&self) -> (filter: String)
        ensures
            filter@ == filter_of(lowercase(self.level@)),
    {
        let level: String = to_lowercase(self.level.as_str());
        filter_directive(level.as_str())
    }

    /// Reads the shape specification that the options hold as text.
    pub fn parse_input_shape(&self) -> (result: Result<ShapeSpec, ShapeParseError>)
        ensures
            result matches Ok(spec) ==> parsed(self.input_shape@) == Ok::<_, ShapeParseError>(spec@)
                && is_shape_spec(spec@),
            result matches Err(e) ==> parsed(self.input_shape@) == Err::<Seq<ShapeEntryView>, _>(e),
    {
        parse(self.input_shape.as_str())
    }
}

impl Default for Cli {
    /// The options of a run for which nothing was given on the command line.
    fn default() -> (cli: Cli)
        ensures
            cli.model_path@ == ".assets/yolov5nu.onnx"@,
            cli.loop_num == 100,
            cli.input_shape@ == "images:1,3,640,640"@,
            cli.level@ == "info"@,
    {
        Cli {
            model_path: ".assets/yolov5nu.onnx".to_owned(),
            loop_num: 100,
            input_shape: "images:1,3,640,640".to_owned(),
            level: "info".to_owned(),
        }
    }
}

} // verus!
