//! The options of the commands, as plain values. File names are text.

use vstd::prelude::*;

verus! {

/// Options of the sequence commands.
#[derive(Debug)]
pub struct SeqMainOpts {
    pub cmd: EcozSeqCommand,
}

/// The sequence commands.
#[derive(Debug)]
pub enum EcozSeqCommand {
    /// Sequence file info.
    Show(SeqShowOpts),
}

/// Options for showing sequences.
#[derive(Debug)]
pub struct SeqShowOpts {
    /// Show associated probabilities.
    pub with_prob: bool,
    /// Show most likely state sequence.
    pub gen_q_opt: bool,
    /// Do not show the sequence.
    pub no_sequence: bool,
    /// HMM model.
    pub hmm: Option<String>,
    /// Only show the length of the sequence.
    pub only_length: bool,
    /// Show the full sequence, not abbreviated.
    pub full: bool,
    /// Export all the given sequences to the given file.
    pub pickle: Option<String>,
    /// Desired class name for the export.
    pub class_name: Option<String>,
    /// TRAIN or TEST, for the export.
    pub tt: Option<String>,
    /// Codebook size, for the export.
    pub codebook_size: Option<usize>,
    /// The sequence files.
    pub seq_filenames: Vec<String>,
}

/// Options of the predictor commands.
#[derive(Debug)]
pub struct PrdMainOpts {
    pub cmd: EcozPrdCommand,
}

/// The predictor commands.
#[derive(Debug)]
pub enum EcozPrdCommand {
    /// Predictor file info.
    Show(PrdShowOpts),
}

/// Options for showing a predictor.
#[derive(Debug)]
pub struct PrdShowOpts {
    /// Show predictor coefficients.
    pub show_predictors: bool,
    /// Show reflection coefficients.
    pub show_reflections: bool,
    /// Show cepstral coefficients of this order, which must be greater than
    /// the prediction order.
    pub show_cepstrum: Option<usize>,
    /// Start of the coefficient range.
    pub from: usize,
    /// End of the coefficient range; 0 for the last coefficient.
    pub to: usize,
    /// File to read.
    pub file: String,
    /// Use the analysis of this library.
    pub zrs: bool,
    /// Export the extracted data into the given file.
    pub pickle: Option<String>,
}

/// Options of the naive-Bayes commands.
#[derive(Debug)]
pub struct NBayesMainOpts {
    pub cmd: EcozNBayesCommand,
}

/// The naive-Bayes commands.
#[derive(Debug)]
pub enum EcozNBayesCommand {
    /// Training.
    Learn(NBayesLearnOpts),
    /// Classification.
    Classify(NBayesClassifyOpts),
    /// Show a model.
    Show(NBayesShowOpts),
}

/// Options for training a naive-Bayes model.
#[derive(Debug)]
pub struct NBayesLearnOpts {
    pub codebook_size: usize,
    pub class_name: Option<String>,
    pub sequences: Vec<String>,
}

/// Options for classifying with naive-Bayes models.
#[derive(Debug)]
pub struct NBayesClassifyOpts {
    pub codebook_size: usize,
    pub show_ranked: bool,
    pub tt: String,
    pub models: Vec<String>,
    pub sequences: Vec<String>,
}

/// Options for showing a naive-Bayes model.
#[derive(Debug)]
pub struct NBayesShowOpts {
    pub model: String,
}

/// Options of the signal commands.
#[derive(Debug)]
pub struct SgnMainOpts {
    pub cmd: EcozSgnCommand,
}

/// The signal commands.
#[derive(Debug)]
pub enum EcozSgnCommand {
    /// Basic signal info.
    Show(SgnShowOpts),
    /// Extract segments from an audio file.
    Extract(SgnExtractOpts),
}

/// Options for showing a signal.
#[derive(Debug)]
pub struct SgnShowOpts {
    pub file: String,
}

/// Options for extracting segments of a signal.
#[derive(Debug)]
pub struct SgnExtractOpts {
    pub wav: String,
    pub segments: String,
    pub selection_ranges: Vec<String>,
    pub time_ranges: Vec<String>,
    pub minpc: usize,
    pub out_dir: String,
}

/// Options for showing a selection table.
#[derive(Debug)]
pub struct CsvShowOpts {
    pub file: String,
}

} // verus!
