//! Default values of descriptive metadata records.

use vstd::prelude::*;

verus! {

/// Names of the columns that carry the system and event time.
#[derive(Debug)]
pub struct DatasetVocabulary {
    pub system_time_column: Option<String>,
    pub event_time_column: Option<String>,
}

impl Default for DatasetVocabulary {
    fn default() -> (r: Self)
        ensures
            r.system_time_column is None,
            r.event_time_column is None,
    {
        DatasetVocabulary { system_time_column: None, event_time_column: None }
    }
}

/// How to read a CSV source; every option unset means the reader's default.
#[derive(Debug)]
pub struct ReadStepCsv {
    pub schema: Option<Vec<String>>,
    pub separator: Option<String>,
    pub encoding: Option<String>,
    pub quote: Option<String>,
    pub escape: Option<String>,
    pub comment: Option<String>,
    pub header: Option<bool>,
    pub enforce_schema: Option<bool>,
    pub infer_schema: Option<bool>,
    pub ignore_leading_white_space: Option<bool>,
    pub ignore_trailing_white_space: Option<bool>,
    pub null_value: Option<String>,
    pub empty_value: Option<String>,
    pub nan_value: Option<String>,
    pub positive_inf: Option<String>,
    pub negative_inf: Option<String>,
    pub date_format: Option<String>,
    pub timestamp_format: Option<String>,
    pub multi_line: Option<bool>,
}

impl Default for ReadStepCsv {
    fn default() -> (r: Self)
        ensures
            r.schema is None,
            r.separator is None,
            r.encoding is None,
            r.quote is None,
            r.escape is None,
            r.comment is None,
            r.header is None,
            r.enforce_schema is None,
            r.infer_schema is None,
            r.ignore_leading_white_space is None,
            r.ignore_trailing_white_space is None,
            r.null_value is None,
            r.empty_value is None,
            r.nan_value is None,
            r.positive_inf is None,
            r.negative_inf is None,
            r.date_format is None,
            r.timestamp_format is None,
            r.multi_line is None,
    {
        ReadStepCsv {
            schema: None,
            separator: None,
            encoding: None,
            quote: None,
            escape: None,
            comment: None,
            header: None,
            enforce_schema: None,
            infer_schema: None,
            ignore_leading_white_space: None,
            ignore_trailing_white_space: None,
            null_value: None,
            empty_value: None,
            nan_value: None,
            positive_inf: None,
            negative_inf: None,
            date_format: None,
            timestamp_format: None,
            multi_line: None,
        }
    }
}

} // verus!
