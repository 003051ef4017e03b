//! Raw data handling: TBF record extraction and stock metadata.
pub mod parse;
pub mod dataframe;
pub mod metadata;
