//! Classification results: the confusion matrix and the candidate-rank
//! histogram of one evaluation run.

use vstd::prelude::*;
use crate::error::EcozError;
use crate::ranking::{
    candidate_rank, comparable, is_top, keys_of, lemma_top_unique, rank_of, score_keys, top_of,
    top_ranked,
};

verus! {

/// Sum of the counts of one row.
pub open spec fn row_sum(row: Seq<i32>) -> int
    decreases row.len(),
{
    if row.len() == 0 {
        0
    } else {
        row_sum(row.drop_last()) + row.last()
    }
}

/// One more in one place makes the sum of the row one more.
pub proof fn lemma_row_sum_update(row: Seq<i32>, j: int, v: i32)
    requires
        0 <= j < row.len(),
        v == row[j] + 1,
    ensures
        row_sum(row.update(j, v)) == row_sum(row) + 1,
    decreases row.len(),
{
    let after = row.update(j, v);
    if j == row.len() - 1 {
        assert(after.drop_last() =~= row.drop_last());
    } else {
        assert(after.drop_last() =~= row.drop_last().update(j, v));
        lemma_row_sum_update(row.drop_last(), j, v);
    }
}

/// A row of zeros sums to zero.
pub proof fn lemma_row_sum_zero(row: Seq<i32>)
    requires
        forall|j: int| 0 <= j < row.len() ==> row[j] == 0,
    ensures
        row_sum(row) == 0,
    decreases row.len(),
{
    if row.len() > 0 {
        lemma_row_sum_zero(row.drop_last());
    }
}

/// In a row without negative counts no count exceeds the sum.
pub proof fn lemma_row_sum_bounds(row: Seq<i32>, j: int)
    requires
        forall|k: int| 0 <= k < row.len() ==> row[k] >= 0,
        0 <= j < row.len(),
    ensures
        0 <= row[j] <= row_sum(row),
    decreases row.len(),
{
    lemma_row_sum_nonnegative(row.drop_last());
    if j < row.len() - 1 {
        lemma_row_sum_bounds(row.drop_last(), j);
    }
}

/// A row without negative counts has no negative sum.
pub proof fn lemma_row_sum_nonnegative(row: Seq<i32>)
    requires
        forall|k: int| 0 <= k < row.len() ==> row[k] >= 0,
    ensures
        0 <= row_sum(row),
    decreases row.len(),
{
    if row.len() > 0 {
        lemma_row_sum_nonnegative(row.drop_last());
    }
}

/// The views of a list of names.
pub open spec fn names(list: Seq<String>) -> Seq<Seq<char>> {
    Seq::new(list.len(), |i: int| list[i]@)
}

/// A square table of `side` rows of `side` zeros.
fn zero_table(side: usize) -> (t: Vec<Vec<i32>>)
    ensures
        t.len() == side,
        forall|i: int| 0 <= i < side ==> (#[trigger] t[i]).len() == side,
        forall|i: int, j: int| 0 <= i < side && 0 <= j < side ==> #[trigger] t[i][j] == 0,
{
    let mut table: Vec<Vec<i32>> = Vec::new();
    let mut i: usize = 0;
    while i < side
        invariant
            i <= side,
            table.len() == i,
            forall|a: int| 0 <= a < i ==> (#[trigger] table[a]).len() == side,
            forall|a: int, b: int| 0 <= a < i && 0 <= b < side ==> #[trigger] table[a][b] == 0,
        decreases side - i,
    {
        let mut row: Vec<i32> = Vec::new();
        let mut j: usize = 0;
        while j < side
            invariant
                j <= side,
                row.len() == j,
                forall|b: int| 0 <= b < j ==> #[trigger] row[b] == 0,
            decreases side - j,
        {
            row.push(0);
            j += 1;
        }
        table.push(row);
        i += 1;
    }
    table
}

/// Adds one to the count at row `i`, column `j`.
fn bump(table: &mut Vec<Vec<i32>>, i: usize, j: usize)
    requires
        i < old(table).len(),
        j < old(table)[i as int].len(),
        old(table)[i as int][j as int] < i32::MAX,
    ensures
        final(table).len() == old(table).len(),
        forall|a: int| 0 <= a < old(table).len() && a != i ==> #[trigger] final(table)[a] == old(
            table,
        )[a],
        final(table)[i as int]@ == old(table)[i as int]@.update(
            j as int,
            (old(table)[i as int][j as int] + 1) as i32,
        ),
        row_sum(final(table)[i as int]@) == row_sum(old(table)[i as int]@) + 1,
{
    proof {
        lemma_row_sum_update(
            table[i as int]@,
            j as int,
            (table[i as int][j as int] + 1) as i32,
        );
    }
    table[i][j] = table[i][j] + 1;
}

/// The counts of a run as numbers, and its names as texts.
pub struct Tally {
    pub models: Seq<Seq<char>>,
    pub result: Seq<Seq<int>>,
    pub confusion: Seq<Seq<int>>,
    pub y_true: Seq<Seq<char>>,
    pub y_pred: Seq<Seq<char>>,
}

/// A table of counts as numbers.
pub open spec fn table_view(table: Seq<Vec<i32>>) -> Seq<Seq<int>> {
    Seq::new(table.len(), |i: int| Seq::new(table[i]@.len(), |j: int| table[i]@[j] as int))
}

impl Tally {
    /// The tally of a run over the given models before any case: all counts
    /// zero, no names.
    pub open spec fn empty(models: Seq<Seq<char>>) -> Tally {
        Tally {
            models,
            result: Seq::new(models.len() + 1, |i: int| Seq::new(models.len() + 1, |j: int| 0int)),
            confusion: Seq::new(
                models.len() + 1,
                |i: int| Seq::new(models.len() + 1, |j: int| 0int),
            ),
            y_true: Seq::empty(),
            y_pred: Seq::empty(),
        }
    }

    /// The tally after one more case of class `class_id`, named `name`,
    /// classified as `predicted`, whose true class came `rank`-th: one more
    /// test and one more at that rank for the class and in the totals, one
    /// more in the confusion matrix, and the pair of names.
    pub open spec fn with_case(self, class_id: int, name: Seq<char>, predicted: int, rank: int) -> Tally {
        let n = self.models.len() as int;
        Tally {
            models: self.models,
            result: Seq::new(
                self.result.len(),
                |i: int|
                    Seq::new(
                        self.result[i].len(),
                        |j: int| self.result[i][j] + C12nResults::result_growth(n, class_id, rank, i, j),
                    ),
            ),
            confusion: Seq::new(
                self.confusion.len(),
                |i: int|
                    Seq::new(
                        self.confusion[i].len(),
                        |j: int|
                            self.confusion[i][j] + C12nResults::confusion_growth(
                                class_id,
                                predicted,
                                i,
                                j,
                            ),
                    ),
            ),
            y_true: self.y_true.push(name),
            y_pred: self.y_pred.push(self.models[predicted]),
        }
    }

    /// The tally after one more case of class `class_id` with the given
    /// order keys of the models' scores: the best candidate is the
    /// prediction.
    pub open spec fn with_scores(self, class_id: int, name: Seq<char>, keys: Seq<u64>) -> Tally {
        self.with_case(class_id, name, top_of(keys), rank_of(keys, class_id))
    }
}

/// Counts only grow: a case leaves the tables as wide as they were, takes
/// nothing from any count, and adds one to the tests of its class and to the
/// total, whatever was predicted.
pub proof fn lemma_case_grows_counts(
    tally: Tally,
    class_id: int,
    name: Seq<char>,
    predicted: int,
    rank: int,
)
    requires
        tally.result.len() == tally.models.len() + 1,
        forall|i: int|
            0 <= i < tally.result.len() ==> (#[trigger] tally.result[i]).len()
                == tally.models.len() + 1,
        0 <= class_id < tally.models.len(),
    ensures
        ({
            let after = tally.with_case(class_id, name, predicted, rank);
            let n = tally.models.len() as int;
            &&& after.result.len() == tally.result.len()
            &&& after.confusion.len() == tally.confusion.len()
            &&& forall|i: int, j: int|
                0 <= i < tally.result.len() && 0 <= j < tally.result[i].len()
                    ==> #[trigger] after.result[i][j] >= tally.result[i][j]
            &&& forall|i: int, j: int|
                0 <= i < tally.confusion.len() && 0 <= j < tally.confusion[i].len()
                    ==> #[trigger] after.confusion[i][j] >= tally.confusion[i][j]
            &&& after.result[class_id][0] == tally.result[class_id][0] + 1
            &&& after.result[n][0] == tally.result[n][0] + 1
        }),
{
    let n = tally.models.len() as int;
    assert(tally.result[class_id].len() == n + 1);
    assert(tally.result[n].len() == n + 1);
}

/// What one test case came to.
#[derive(Clone, Copy, Debug, PartialEq, Eq, Structural)]
pub struct CaseOutcome {
    /// The model with the highest score.
    pub predicted_id: usize,
    /// The place of the true class among the candidates, 1 for the best.
    pub rank: usize,
    /// The highest score is that of the true class.
    pub correct: bool,
}

/// Classification results of one run.
pub struct C12nResults {
    pub model_class_names: Vec<String>,
    /// `result[c][0]`: test cases of class `c`; `result[c][k]`, `k >= 1`: those
    /// whose true class came `k`-th. The last row holds the totals.
    pub result: Vec<Vec<i32>>,
    /// `confusion[i][j]`: test cases of class `i` classified as class `j`.
    pub confusion: Vec<Vec<i32>>,
    pub y_true: Vec<String>,
    pub y_pred: Vec<String>,
}

impl View for C12nResults {
    type V = Tally;

    open spec fn view(&self) -> Tally {
        Tally {
            models: names(self.model_class_names@),
            result: table_view(self.result@),
            confusion: table_view(self.confusion@),
            y_true: names(self.y_true@),
            y_pred: names(self.y_pred@),
        }
    }
}

impl C12nResults {
    /// Number of models of the run.
    pub open spec fn num_models(&self) -> int {
        self.model_class_names.len() as int
    }

    /// Number of test cases taken so far.
    pub open spec fn total(&self) -> int {
        self.result[self.num_models()][0] as int
    }

    /// Both tables are square with one row and one column more than there
    /// are models; no count is negative or exceeds the number of cases; each
    /// case has its pair of names; without models there are no cases.
    pub open spec fn wf(&self) -> bool {
        let n = self.num_models();
        &&& self.result.len() == n + 1
        &&& self.confusion.len() == n + 1
        &&& forall|i: int| 0 <= i <= n ==> (#[trigger] self.result[i]).len() == n + 1
        &&& forall|i: int| 0 <= i <= n ==> (#[trigger] self.confusion[i]).len() == n + 1
        &&& forall|i: int, j: int|
            0 <= i <= n && 0 <= j <= n ==> 0 <= #[trigger] self.result[i][j] <= self.total()
        &&& forall|i: int, j: int|
            0 <= i <= n && 0 <= j <= n ==> 0 <= #[trigger] self.confusion[i][j]
        &&& forall|i: int| 0 <= i <= n ==> row_sum((#[trigger] self.confusion[i])@) <= self.total()
        &&& self.y_true.len() == self.total()
        &&& self.y_pred.len() == self.total()
        &&& n == 0 ==> self.total() == 0
    }

    /// How much the count `result[i][j]` grows with a case of class
    /// `class_id` whose true class came `rank`-th.
    pub open spec fn result_growth(n: int, class_id: int, rank: int, i: int, j: int) -> int {
        if (i == class_id || i == n) && (j == 0 || j == rank) {
            1
        } else {
            0
        }
    }

    /// How much the count `confusion[i][j]` grows with a case of class
    /// `class_id` classified as `predicted`.
    pub open spec fn confusion_growth(class_id: int, predicted: int, i: int, j: int) -> int {
        if i == class_id && j == predicted {
            1
        } else {
            0
        }
    }

    /// The results of a run over the given models, before any case.
    pub fn new(model_class_names: Vec<String>) -> (r: C12nResults)
        requires
            model_class_names.len() < usize::MAX,
        ensures
            r.wf(),
            r.model_class_names == model_class_names,
            r.total() == 0,
            r@ == Tally::empty(names(model_class_names@)),
    {
        let num_models = model_class_names.len();
        let result = zero_table(num_models + 1);
        let confusion = zero_table(num_models + 1);
        proof {
            let empty = Tally::empty(names(model_class_names@));
            assert(table_view(result@) =~~= empty.result);
            assert(table_view(confusion@) =~~= empty.confusion);
            assert(names(Seq::<String>::empty()) =~= Seq::<Seq<char>>::empty());
            assert forall|i: int| 0 <= i <= num_models implies row_sum(
                (#[trigger] confusion[i])@,
            ) <= 0 by {
                assert forall|j: int| 0 <= j < confusion[i]@.len() implies confusion[i]@[j]
                    == 0 by {
                    assert(confusion[i][j] == 0);
                }
                lemma_row_sum_zero(confusion[i]@);
            }
        }
        C12nResults {
            model_class_names,
            result,
            confusion,
            y_true: Vec::new(),
            y_pred: Vec::new(),
        }
    }

    /// Number of test cases taken so far.
    pub fn num_cases(&self) -> (r: i32)
        requires
            self.wf(),
        ensures
            r == self.total(),
    {
        self.result[self.model_class_names.len()][0]
    }

    /// Takes one test case of class `class_id` with the models' scores, given
    /// as bit patterns of doubles. The model with the highest score is the
    /// prediction; of models with equal scores the later one ranks higher.
    /// Counts the case, the prediction and the place of the true class among
    /// the candidates. A score that cannot be compared is refused and
    /// nothing is counted.
    pub fn add_case(&mut self, class_id: usize, seq_classname: &str, score_bits: Vec<u64>) -> (r:
        Result<CaseOutcome, EcozError>)
        requires
            old(self).wf(),
            class_id < old(self).num_models(),
            score_bits.len() == old(self).num_models(),
            old(self).total() < i32::MAX,
        ensures
            final(self).wf(),
            final(self).model_class_names == old(self).model_class_names,
            comparable(score_bits@) <==> r is Ok,
            r is Err ==> r == Err::<CaseOutcome, EcozError>(EcozError::ScoreRangeViolation)
                && *final(self) == *old(self),
            r is Ok ==> ({
                let keys = keys_of(score_bits@);
                let o = r->Ok_0;
                &&& is_top(keys, o.predicted_id as int)
                &&& o.rank == rank_of(keys, class_id as int)
                &&& o.correct == (o.predicted_id == class_id)
                &&& final(self).total() == old(self).total() + 1
                &&& final(self)@ == old(self)@.with_scores(class_id as int, seq_classname@, keys)
            }),
    {
        let keys = match score_keys(&score_bits) {
            Some(keys) => keys,
            None => {
                return Err(EcozError::ScoreRangeViolation);
            },
        };
        let num_models = self.model_class_names.len();
        let predicted_id = top_ranked(&keys);
        let rank = candidate_rank(&keys, class_id);
        let correct = class_id == predicted_id;
        let ghost before = *self;

        bump(&mut self.result, num_models, 0);
        bump(&mut self.result, class_id, 0);
        bump(&mut self.result, num_models, rank);
        bump(&mut self.result, class_id, rank);
        proof {
            assert forall|k: int| 0 <= k < before.confusion[class_id as int]@.len() implies before.confusion[class_id as int]@[k]
                >= 0 by {
                assert(0 <= before.confusion[class_id as int][k]);
            }
            lemma_row_sum_bounds(before.confusion[class_id as int]@, predicted_id as int);
        }
        bump(&mut self.confusion, class_id, predicted_id);

        let ghost y_true_before = self.y_true@;
        let ghost y_pred_before = self.y_pred@;
        self.y_true.push(seq_classname.to_owned());
        self.y_pred.push(self.model_class_names[predicted_id].clone());

        proof {
            let n = num_models as int;
            assert(names(self.y_true@) =~= names(y_true_before).push(seq_classname@));
            assert(names(self.y_pred@) =~= names(y_pred_before).push(
                before.model_class_names[predicted_id as int]@,
            ));
            assert forall|i: int, j: int| 0 <= i <= n && 0 <= j <= n implies #[trigger] self.result[i][j]
                == before.result[i][j] + Self::result_growth(n, class_id as int, rank as int, i, j) by {
                assert(before.result[i].len() == n + 1);
            }
            assert forall|i: int, j: int|
                0 <= i <= n && 0 <= j <= n implies #[trigger] self.confusion[i][j]
                == before.confusion[i][j] + Self::confusion_growth(
                class_id as int,
                predicted_id as int,
                i,
                j,
            ) by {
                assert(before.confusion[i].len() == n + 1);
            }
            assert forall|i: int| 0 <= i <= n implies row_sum((#[trigger] self.confusion[i])@)
                <= self.total() by {
                assert(row_sum(before.confusion[i]@) <= before.total());
            }
            assert forall|i: int, j: int| 0 <= i <= n && 0 <= j <= n implies 0
                <= #[trigger] self.result[i][j] <= self.total() by {
                assert(0 <= before.result[i][j] <= before.total());
            }
            assert forall|i: int, j: int| 0 <= i <= n && 0 <= j <= n implies 0
                <= #[trigger] self.confusion[i][j] by {
                assert(0 <= before.confusion[i][j]);
            }
            lemma_top_unique(keys@, predicted_id as int);
            let after = before@.with_scores(class_id as int, seq_classname@, keys@);
            assert(self@.result.len() == after.result.len());
            assert forall|i: int| 0 <= i <= n implies #[trigger] self@.result[i] =~= after.result[i] by {
                assert(self.result[i].len() == n + 1);
                assert(before.result[i].len() == n + 1);
                assert forall|j: int| 0 <= j <= n implies self@.result[i][j]
                    == after.result[i][j] by {
                    assert(self.result[i][j] == before.result[i][j] + Self::result_growth(
                        n,
                        class_id as int,
                        rank as int,
                        i,
                        j,
                    ));
                }
            }
            assert(self@.result =~= after.result);
            assert forall|i: int| 0 <= i <= n implies #[trigger] self@.confusion[i]
                =~= after.confusion[i] by {
                assert(self.confusion[i].len() == n + 1);
                assert(before.confusion[i].len() == n + 1);
                assert forall|j: int| 0 <= j <= n implies self@.confusion[i][j]
                    == after.confusion[i][j] by {
                    assert(self.confusion[i][j] == before.confusion[i][j]
                        + Self::confusion_growth(class_id as int, predicted_id as int, i, j));
                }
            }
            assert(self@.confusion =~= after.confusion);
            assert(self@.models == after.models);
            assert(self@.y_true == after.y_true);
            assert(after.y_pred == names(y_pred_before).push(
                before.model_class_names[predicted_id as int]@,
            ));
        }
        Ok(CaseOutcome { predicted_id, rank, correct })
    }
}

/// The first of the models from `k` on that is of the class `name`, or the
/// number of models where none is.
pub open spec fn first_of_class(models: Seq<Seq<char>>, name: Seq<char>, k: int) -> int
    decreases models.len() - k,
{
    if k >= models.len() {
        models.len() as int
    } else if models[k] == name {
        k
    } else {
        first_of_class(models, name, k + 1)
    }
}

/// The first model of the class `name`, if there is one.
pub open spec fn spec_class_id(models: Seq<Seq<char>>, name: Seq<char>) -> Option<int> {
    if first_of_class(models, name, 0) < models.len() {
        Some(first_of_class(models, name, 0))
    } else {
        None
    }
}

/// The first model of the class `class_name`, if there is one.
pub fn class_id_of(model_class_names: &Vec<String>, class_name: &String) -> (r: Option<usize>)
    ensures
        match spec_class_id(names(model_class_names@), class_name@) {
            Some(id) => r == Some(id as usize) && 0 <= id < model_class_names.len(),
            None => r is None,
        },
{
    let ghost models = names(model_class_names@);
    let mut id: usize = 0;
    while id < model_class_names.len()
        invariant
            id <= model_class_names.len(),
            models == names(model_class_names@),
            first_of_class(models, class_name@, 0) == first_of_class(models, class_name@, id as int),
        decreases model_class_names.len() - id,
    {
        assert(models[id as int] == model_class_names[id as int]@);
        if model_class_names[id] == *class_name {
            return Some(id);
        }
        id += 1;
    }
    None
}

/// A test case: the class of a sequence, and the score that each model gave
/// to the sequence, as the bit pattern of a double.
#[derive(Debug)]
pub struct TestCase {
    pub class_name: String,
    pub score_bits: Vec<u64>,
}

/// The tally of the first `upto` cases: each case of the class of one of the
/// models is taken with its scores, the others are passed over.
pub open spec fn tally_of(models: Seq<Seq<char>>, cases: Seq<TestCase>, upto: int) -> Tally
    decreases upto,
{
    if upto <= 0 {
        Tally::empty(models)
    } else {
        let before = tally_of(models, cases, upto - 1);
        let case = cases[upto - 1];
        match spec_class_id(models, case.class_name@) {
            Some(id) => before.with_scores(id, case.class_name@, keys_of(case.score_bits@)),
            None => before,
        }
    }
}

/// The case is of the class of one of the models and has a score that cannot
/// be compared.
pub open spec fn is_refused(models: Seq<Seq<char>>, case: TestCase) -> bool {
    spec_class_id(models, case.class_name@) is Some && !comparable(case.score_bits@)
}

/// The first of the cases from `k` on that is refused, or the number of cases
/// where none is.
pub open spec fn first_refused(models: Seq<Seq<char>>, cases: Seq<TestCase>, k: int) -> int
    decreases cases.len() - k,
{
    if k >= cases.len() {
        cases.len() as int
    } else if is_refused(models, cases[k]) {
        k
    } else {
        first_refused(models, cases, k + 1)
    }
}

/// What a case comes to: nothing where its class is that of none of the
/// models, else the prediction and the place of its class among the
/// candidates.
pub open spec fn outcome_of(models: Seq<Seq<char>>, case: TestCase) -> Option<CaseOutcome> {
    let keys = keys_of(case.score_bits@);
    match spec_class_id(models, case.class_name@) {
        Some(id) => Some(
            CaseOutcome {
                predicted_id: top_of(keys) as usize,
                rank: rank_of(keys, id) as usize,
                correct: top_of(keys) == id,
            },
        ),
        None => None,
    }
}

/// The results of an evaluation, and what each case came to.
pub struct Classification {
    pub results: C12nResults,
    pub outcomes: Vec<Option<CaseOutcome>>,
}

/// Evaluates the models on the test cases: each case whose class is that of
/// one of the models is taken with `add_case`, in order; cases of other
/// classes are passed over. The first case with a score that cannot be
/// compared ends the evaluation with an error.
pub fn classify(model_class_names: Vec<String>, cases: &Vec<TestCase>) -> (r: Result<
    Classification,
    EcozError,
>)
    requires
        model_class_names.len() < usize::MAX,
        cases.len() < i32::MAX,
        forall|k: int|
            0 <= k < cases.len() ==> (#[trigger] cases[k]).score_bits.len()
                == model_class_names.len(),
    ensures
        first_refused(names(model_class_names@), cases@, 0) < cases.len() ==> r is Err && r->Err_0
            == EcozError::ScoreRangeViolation,
        first_refused(names(model_class_names@), cases@, 0) == cases.len() ==> r is Ok && ({
            let c = r->Ok_0;
            &&& c.results.wf()
            &&& c.results.model_class_names == model_class_names
            &&& c.results@ == tally_of(names(model_class_names@), cases@, cases.len() as int)
            &&& c.outcomes.len() == cases.len()
            &&& forall|k: int|
                0 <= k < cases.len() ==> #[trigger] c.outcomes[k] == outcome_of(
                    names(model_class_names@),
                    cases[k],
                )
        }),
{
    let ghost models = names(model_class_names@);
    let mut results = C12nResults::new(model_class_names);
    let mut outcomes: Vec<Option<CaseOutcome>> = Vec::new();
    let mut k: usize = 0;
    while k < cases.len()
        invariant
            k <= cases.len(),
            cases.len() < i32::MAX,
            results.wf(),
            results.total() <= k,
            results.model_class_names == model_class_names,
            models == names(model_class_names@),
            forall|m: int|
                0 <= m < cases.len() ==> (#[trigger] cases[m]).score_bits.len()
                    == model_class_names.len(),
            results@ == tally_of(models, cases@, k as int),
            first_refused(models, cases@, 0) == first_refused(models, cases@, k as int),
            outcomes.len() == k,
            forall|m: int| 0 <= m < k ==> #[trigger] outcomes[m] == outcome_of(models, cases[m]),
        decreases cases.len() - k,
    {
        let case = &cases[k];
        assert(case == cases@[k as int]);
        match class_id_of(&results.model_class_names, &case.class_name) {
            Some(class_id) => {
                let scores = case.score_bits.clone();
                assert(scores@ == case.score_bits@);
                assert(spec_class_id(models, case.class_name@) == Some(class_id as int));
                match results.add_case(class_id, case.class_name.as_str(), scores) {
                    Ok(outcome) => {
                        assert(!is_refused(models, cases@[k as int]));
                        proof {
                            lemma_top_unique(keys_of(scores@), outcome.predicted_id as int);
                        }
                        outcomes.push(Some(outcome));
                    },
                    Err(e) => {
                        assert(is_refused(models, cases@[k as int]));
                        assert(first_refused(models, cases@, k as int) == k);
                        return Err(e);
                    },
                }
            },
            None => {
                assert(!is_refused(models, cases@[k as int]));
                outcomes.push(None);
            },
        }
        assert(first_refused(models, cases@, k as int) == first_refused(models, cases@, k + 1));
        k += 1;
    }
    Ok(Classification { results, outcomes })
}

} // verus!
