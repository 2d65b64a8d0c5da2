//! Naive-Bayes models over codebook symbols: how often each symbol occurred
//! in the training sequences of one class.

use vstd::prelude::*;
use crate::error::EcozError;
use crate::sequence::Sequence;

verus! {

/// A trained model.
#[derive(Debug)]
pub struct NBayes {
    pub class_name: String,
    pub total_symbols: usize,
    pub frequencies: Vec<usize>,
}

/// A probability as an exact fraction.
#[derive(Clone, Copy, Debug, PartialEq, Eq, Structural)]
pub struct Ratio {
    pub numerator: u128,
    pub denominator: u128,
}

/// One line of the table of a model.
#[derive(Clone, Copy, Debug, PartialEq, Eq, Structural)]
pub struct SymbolRow {
    pub symbol: usize,
    pub frequency: usize,
    pub prob: Ratio,
}

/// How often `symbol` occurs among `symbols`.
pub open spec fn occurrences(symbols: Seq<u16>, symbol: int) -> nat
    decreases symbols.len(),
{
    if symbols.len() == 0 {
        0
    } else {
        occurrences(symbols.drop_last(), symbol) + if symbols.last() == symbol {
            1nat
        } else {
            0nat
        }
    }
}

/// How often `symbol` occurs in the first `upto` sequences.
pub open spec fn occurrences_in(sequences: Seq<Sequence>, upto: int, symbol: int) -> nat
    decreases upto,
{
    if upto <= 0 {
        0
    } else {
        occurrences_in(sequences, upto - 1, symbol) + occurrences(
            sequences[upto - 1].symbols@,
            symbol,
        )
    }
}

/// Number of symbols of the first `upto` sequences.
pub open spec fn symbols_in(sequences: Seq<Sequence>, upto: int) -> nat
    decreases upto,
{
    if upto <= 0 {
        0
    } else {
        symbols_in(sequences, upto - 1) + sequences[upto - 1].symbols@.len()
    }
}

/// Every symbol of the sequence is a place of its codebook.
pub open spec fn within_codebook(sequence: Sequence) -> bool {
    forall|k: int|
        0 <= k < sequence.symbols.len() ==> (#[trigger] sequence.symbols[k])
            < sequence.codebook_size
}

/// The sequence is of the class and of the codebook size of the first one.
pub open spec fn conforms(sequences: Seq<Sequence>, i: int) -> bool {
    sequences[i].class_name@ == sequences[0].class_name@ && sequences[i].codebook_size
        == sequences[0].codebook_size
}

/// The first of the sequences from `k` on that does not conform, or their
/// number where all conform.
pub open spec fn first_stranger(sequences: Seq<Sequence>, k: int) -> int
    decreases sequences.len() - k,
{
    if k >= sequences.len() {
        sequences.len() as int
    } else if !conforms(sequences, k) {
        k
    } else {
        first_stranger(sequences, k + 1)
    }
}

/// No symbol occurs more often than there are symbols.
pub proof fn lemma_occurrences_bound(symbols: Seq<u16>, symbol: int)
    ensures
        occurrences(symbols, symbol) <= symbols.len(),
    decreases symbols.len(),
{
    if symbols.len() > 0 {
        lemma_occurrences_bound(symbols.drop_last(), symbol);
    }
}

/// No symbol occurs more often in the sequences than they have symbols, and
/// fewer sequences have no more symbols.
pub proof fn lemma_occurrences_in_bound(sequences: Seq<Sequence>, upto: int, symbol: int)
    requires
        0 <= upto <= sequences.len(),
    ensures
        occurrences_in(sequences, upto, symbol) <= symbols_in(sequences, upto),
        symbols_in(sequences, upto) <= symbols_in(sequences, sequences.len() as int),
    decreases sequences.len() - upto, upto,
{
    if upto > 0 {
        lemma_occurrences_in_bound_upto(sequences, upto, symbol);
    }
    if upto < sequences.len() {
        lemma_occurrences_in_bound(sequences, upto + 1, symbol);
    }
}

/// No symbol occurs more often in the sequences than they have symbols.
pub proof fn lemma_occurrences_in_bound_upto(sequences: Seq<Sequence>, upto: int, symbol: int)
    requires
        0 <= upto <= sequences.len(),
    ensures
        occurrences_in(sequences, upto, symbol) <= symbols_in(sequences, upto),
    decreases upto,
{
    if upto > 0 {
        lemma_occurrences_in_bound_upto(sequences, upto - 1, symbol);
        lemma_occurrences_bound(sequences[upto - 1].symbols@, symbol);
    }
}

impl NBayes {
    /// Size of the codebook of the model.
    pub open spec fn codebook_size(&self) -> int {
        self.frequencies.len() as int
    }

    /// The probability of `symbol` as a fraction: one more than its
    /// frequency, over the number of symbols plus the size of the codebook.
    pub open spec fn spec_prob_symbol(&self, symbol: int) -> Ratio {
        Ratio {
            numerator: (self.frequencies[symbol] + 1) as u128,
            denominator: (self.total_symbols + self.frequencies.len()) as u128,
        }
    }

    /// Probability of generating the symbol, using an m-estimate.
    pub fn prob_symbol(&self, symbol: usize) -> (r: Ratio)
        requires
            symbol < self.frequencies.len(),
        ensures
            r == self.spec_prob_symbol(symbol as int),
            r.denominator > 0,
    {
        Ratio {
            numerator: self.frequencies[symbol] as u128 + 1,
            denominator: self.total_symbols as u128 + self.frequencies.len() as u128,
        }
    }

    /// The table of the model: each symbol with its frequency and its
    /// probability.
    pub fn show(&self) -> (rows: Vec<SymbolRow>)
        ensures
            rows.len() == self.frequencies.len(),
            forall|s: int|
                0 <= s < rows.len() ==> #[trigger] rows[s] == (SymbolRow {
                    symbol: s as usize,
                    frequency: self.frequencies[s],
                    prob: self.spec_prob_symbol(s),
                }),
    {
        let mut rows: Vec<SymbolRow> = Vec::new();
        let mut s: usize = 0;
        while s < self.frequencies.len()
            invariant
                s <= self.frequencies.len(),
                rows.len() == s,
                forall|k: int|
                    0 <= k < s ==> #[trigger] rows[k] == (SymbolRow {
                        symbol: k as usize,
                        frequency: self.frequencies[k],
                        prob: self.spec_prob_symbol(k),
                    }),
            decreases self.frequencies.len() - s,
        {
            let prob = self.prob_symbol(s);
            rows.push(SymbolRow { symbol: s, frequency: self.frequencies[s], prob });
            s += 1;
        }
        rows
    }
}

/// The table of a model, for showing it.
pub fn main_nbayes_show(model: &NBayes) -> (rows: Vec<SymbolRow>)
    ensures
        rows.len() == model.frequencies.len(),
        forall|s: int|
            0 <= s < rows.len() ==> #[trigger] rows[s] == (SymbolRow {
                symbol: s as usize,
                frequency: model.frequencies[s],
                prob: model.spec_prob_symbol(s),
            }),
{
    model.show()
}

/// Adds the occurrences of the symbols of one sequence to the counts.
fn count_symbols(frequencies: &mut Vec<usize>, symbols: &Vec<u16>, Ghost(room): Ghost<int>)
    requires
        forall|k: int| 0 <= k < symbols.len() ==> (#[trigger] symbols[k]) < old(frequencies).len(),
        forall|s: int|
            0 <= s < old(frequencies).len() ==> (#[trigger] old(frequencies)[s]) + symbols.len()
                <= room,
        room <= usize::MAX,
    ensures
        final(frequencies).len() == old(frequencies).len(),
        forall|s: int|
            0 <= s < old(frequencies).len() ==> (#[trigger] final(frequencies)[s]) == old(
                frequencies,
            )[s] + occurrences(symbols@, s),
{
    let ghost before = frequencies@;
    let mut k: usize = 0;
    while k < symbols.len()
        invariant
            k <= symbols.len(),
            frequencies.len() == before.len(),
            forall|m: int| 0 <= m < symbols.len() ==> (#[trigger] symbols[m]) < before.len(),
            forall|s: int| 0 <= s < before.len() ==> (#[trigger] before[s]) + symbols.len() <= room,
            room <= usize::MAX,
            forall|s: int|
                0 <= s < before.len() ==> (#[trigger] frequencies[s]) == before[s] + occurrences(
                    symbols@.subrange(0, k as int),
                    s,
                ),
        decreases symbols.len() - k,
    {
        let symbol = symbols[k] as usize;
        proof {
            lemma_occurrences_bound(symbols@.subrange(0, k as int), symbol as int);
            assert(before[symbol as int] + symbols.len() <= room);
            assert forall|s: int| 0 <= s < before.len() implies occurrences(
                symbols@.subrange(0, k + 1),
                s,
            ) == occurrences(symbols@.subrange(0, k as int), s) + if symbols[k as int] == s {
                1nat
            } else {
                0nat
            } by {
                assert(symbols@.subrange(0, k + 1).drop_last() =~= symbols@.subrange(0, k as int));
            }
        }
        frequencies[symbol] = frequencies[symbol] + 1;
        k += 1;
    }
    proof {
        assert(symbols@.subrange(0, k as int) =~= symbols@);
    }
}

/// Trains a model on the sequences of one class: counts how often each
/// symbol of the codebook occurs in them. Sequences that are not all of the
/// class and of the codebook size of the first one are refused, with the
/// reason for which the first stranger among them differs.
pub fn learn(sequences: &Vec<Sequence>) -> (r: Result<NBayes, EcozError>)
    requires
        sequences.len() >= 1,
        forall|i: int| 0 <= i < sequences.len() ==> within_codebook(#[trigger] sequences[i]),
        symbols_in(sequences@, sequences.len() as int) <= usize::MAX,
    ensures
        ({
            let stranger = first_stranger(sequences@, 0);
            if stranger == sequences.len() {
                &&& r is Ok
                &&& r->Ok_0.class_name@ == sequences[0].class_name@
                &&& r->Ok_0.frequencies.len() == sequences[0].codebook_size
                &&& r->Ok_0.total_symbols == symbols_in(sequences@, sequences.len() as int)
                &&& forall|s: int|
                    0 <= s < r->Ok_0.frequencies.len() ==> #[trigger] r->Ok_0.frequencies[s]
                        == occurrences_in(sequences@, sequences.len() as int, s)
            } else if sequences[stranger].class_name@ != sequences[0].class_name@ {
                r == Err::<NBayes, EcozError>(EcozError::ClassMismatch)
            } else {
                r == Err::<NBayes, EcozError>(EcozError::CodebookMismatch)
            }
        }),
{
    let class_name = sequences[0].class_name.clone();
    let codebook_size = sequences[0].codebook_size as usize;
    let mut frequencies: Vec<usize> = Vec::new();
    let mut s: usize = 0;
    while s < codebook_size
        invariant
            s <= codebook_size,
            frequencies.len() == s,
            forall|k: int| 0 <= k < s ==> #[trigger] frequencies[k] == 0,
        decreases codebook_size - s,
    {
        frequencies.push(0);
        s += 1;
    }
    let mut total_symbols: usize = 0;
    let mut i: usize = 0;
    while i < sequences.len()
        invariant
            i <= sequences.len(),
            sequences.len() >= 1,
            class_name@ == sequences[0].class_name@,
            codebook_size == sequences[0].codebook_size,
            forall|m: int| 0 <= m < sequences.len() ==> within_codebook(#[trigger] sequences[m]),
            symbols_in(sequences@, sequences.len() as int) <= usize::MAX,
            first_stranger(sequences@, 0) == first_stranger(sequences@, i as int),
            frequencies.len() == codebook_size,
            total_symbols == symbols_in(sequences@, i as int),
            forall|k: int|
                0 <= k < codebook_size ==> #[trigger] frequencies[k] == occurrences_in(
                    sequences@,
                    i as int,
                    k,
                ),
        decreases sequences.len() - i,
    {
        let sequence = &sequences[i];
        if sequence.class_name != class_name {
            return Err(EcozError::ClassMismatch);
        }
        if sequence.codebook_size as usize != codebook_size {
            return Err(EcozError::CodebookMismatch);
        }
        proof {
            assert(conforms(sequences@, i as int));
            assert(within_codebook(sequences[i as int]));
            lemma_occurrences_in_bound(sequences@, i + 1, 0);
            assert forall|k: int| 0 <= k < frequencies.len() implies (#[trigger] frequencies[k])
                + sequence.symbols.len() <= symbols_in(sequences@, i + 1) by {
                lemma_occurrences_in_bound_upto(sequences@, i as int, k);
            }
        }
        total_symbols = total_symbols + sequence.symbols.len();
        count_symbols(
            &mut frequencies,
            &sequence.symbols,
            Ghost(symbols_in(sequences@, i + 1) as int),
        );
        i += 1;
    }
    Ok(NBayes { class_name, total_symbols, frequencies })
}

} // verus!
