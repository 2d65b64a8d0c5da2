//! Showing and exporting sequence files.

use vstd::prelude::*;
use vstd::slice::slice_subrange;
use crate::opts::SeqShowOpts;
use crate::sequence::Sequence;
use crate::text::{concat, decimal, decimal_text, join_numbers, joined};

verus! {

/// Sequences with more symbols than this are shown abbreviated.
pub const SHORT_SEQUENCE_LEN: usize = 30;

/// Number of symbols shown at each end of an abbreviated sequence.
pub const SHOWN_AT_EACH_END: usize = 10;

/// The symbols as shown: all of them, or the first and the last ten of a long
/// sequence that is not asked for in full.
pub open spec fn symbols_text(symbols: Seq<u16>, full: bool) -> Seq<char> {
    if full || symbols.len() <= SHORT_SEQUENCE_LEN {
        joined(symbols)
    } else {
        joined(symbols.subrange(0, SHOWN_AT_EACH_END as int)) + ", ..., "@ + joined(
            symbols.subrange(symbols.len() - SHOWN_AT_EACH_END, symbols.len() as int),
        )
    }
}

/// The line that shows a sequence, if the options ask for one.
pub open spec fn show_text(
    class_name: Seq<char>,
    codebook_size: u32,
    symbols: Seq<u16>,
    no_sequence: bool,
    only_length: bool,
    full: bool,
) -> Option<Seq<char>> {
    if no_sequence {
        None
    } else if only_length {
        Some(decimal(symbols.len()))
    } else {
        Some(
            "<"@ + class_name + "(M="@ + decimal(codebook_size as nat) + ",L="@ + decimal(
                symbols.len(),
            ) + "): "@ + symbols_text(symbols, full) + ">"@,
        )
    }
}

impl Sequence {
    /// The line that shows this sequence: nothing where the options ask for
    /// no sequence, its length alone where they ask for that, else its class,
    /// codebook size, length and symbols, a long sequence abbreviated to its
    /// two ends unless asked for in full.
    pub fn show(&self, opts: &SeqShowOpts) -> (r: Option<String>)
        ensures
            match show_text(
                self.class_name@,
                self.codebook_size,
                self.symbols@,
                opts.no_sequence,
                opts.only_length,
                opts.full,
            ) {
                Some(text) => r is Some && r->Some_0@ == text,
                None => r is None,
            },
    {
        if opts.no_sequence {
            return None;
        }
        let len = self.symbols.len();
        if opts.only_length {
            return Some(decimal_text(len));
        }
        let symbols = self.symbols.as_slice();
        let symbols_to_show = if opts.full || len <= SHORT_SEQUENCE_LEN {
            join_numbers(symbols)
        } else {
            let head = join_numbers(slice_subrange(symbols, 0, SHOWN_AT_EACH_END));
            let tail = join_numbers(slice_subrange(symbols, len - SHOWN_AT_EACH_END, len));
            let head = concat(head.as_str(), ", ..., ");
            concat(head.as_str(), tail.as_str())
        };
        let line = concat("<", self.class_name.as_str());
        let line = concat(line.as_str(), "(M=");
        let line = concat(line.as_str(), decimal_text(self.codebook_size as usize).as_str());
        let line = concat(line.as_str(), ",L=");
        let line = concat(line.as_str(), decimal_text(len).as_str());
        let line = concat(line.as_str(), "): ");
        let line = concat(line.as_str(), symbols_to_show.as_str());
        let line = concat(line.as_str(), ">");
        Some(line)
    }
}

/// What showing sequences comes to.
#[derive(Debug)]
pub enum SeqShowPlan<'a> {
    /// Export the symbols of the sequences found under `subdir` for the
    /// given category and class into the file `pickle`.
    Export {
        pickle: &'a String,
        seq_filenames: &'a Vec<String>,
        tt: &'a String,
        class_name: &'a Option<String>,
        subdir: String,
        file_ext: &'static str,
    },
    /// Show each of the given files.
    ShowEach { seq_filenames: &'a Vec<String> },
}

/// The directory of the sequences of one codebook size.
pub open spec fn sequences_subdir(codebook_size: usize) -> Seq<char> {
    "sequences/M"@ + decimal(codebook_size as nat)
}

/// Decides what showing sequences comes to: an export, where the options
/// name a file for it, else a line for each file.
pub fn seq_show<'a>(opts: &'a SeqShowOpts) -> (plan: SeqShowPlan<'a>)
    requires
        opts.pickle is Some ==> opts.codebook_size is Some && opts.tt is Some,
    ensures
        match opts.pickle {
            Some(pickle) => plan matches SeqShowPlan::Export {
                pickle: p,
                seq_filenames,
                tt,
                class_name,
                subdir,
                file_ext,
            } && *p == pickle && *seq_filenames == opts.seq_filenames && Some(*tt) == opts.tt
                && *class_name == opts.class_name && subdir@ == sequences_subdir(
                opts.codebook_size->Some_0,
            ) && file_ext@ == ".seq"@,
            None => plan matches SeqShowPlan::ShowEach { seq_filenames } && *seq_filenames
                == opts.seq_filenames,
        },
{
    match &opts.pickle {
        Some(pickle) => {
            let number = decimal_text(opts.codebook_size.unwrap());
            SeqShowPlan::Export {
                pickle,
                seq_filenames: &opts.seq_filenames,
                tt: opts.tt.as_ref().unwrap(),
                class_name: &opts.class_name,
                subdir: concat("sequences/M", number.as_str()),
                file_ext: ".seq",
            }
        },
        None => SeqShowPlan::ShowEach { seq_filenames: &opts.seq_filenames },
    }
}

} // verus!
