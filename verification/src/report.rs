//! The summary of an evaluation run: which classes had test cases, how each
//! was classified, and where the artifacts of the run are kept.

use vstd::prelude::*;
use crate::c12n::{C12nResults, row_sum, lemma_row_sum_nonnegative};
use crate::text::concat;

verus! {

/// The line of one class, or of the totals, in the summary.
#[derive(Debug)]
pub struct ClassRow {
    /// The class, or the number of models for the line of totals.
    pub class_id: usize,
    /// Test cases of the class.
    pub tests: i32,
    /// Test cases of the class whose best candidate was the class itself.
    pub correct: i32,
    /// Test cases of the class classified as another of the classes shown.
    pub errors: i32,
    /// How the cases of the class were classified, one count per class shown.
    pub confusion: Vec<i32>,
    /// How many cases had the class as first, second, ... candidate.
    pub candidate_order: Vec<i32>,
}

/// The summary of a run with at least one test case.
#[derive(Debug)]
pub struct Report {
    /// Width in bytes of the longest name among the classes shown.
    pub name_width: usize,
    /// The classes that had test cases, ascending.
    pub shown: Vec<usize>,
    /// One line per class shown, in the same order.
    pub rows: Vec<ClassRow>,
    /// The line of totals.
    pub total: ClassRow,
    /// Where the accuracies of the run are kept.
    pub summary_name: String,
    /// Where the pairs of true and predicted class names are kept.
    pub true_pred_name: String,
}

impl C12nResults {
    /// Class `i` had at least one test case.
    pub open spec fn has_tests(&self, i: int) -> bool {
        self.result[i][0] > 0
    }

    /// The classes below `upto` that had test cases, ascending.
    pub open spec fn shown_classes(&self, upto: int) -> Seq<usize>
        decreases upto,
    {
        if upto <= 0 {
            Seq::empty()
        } else if self.has_tests(upto - 1) {
            self.shown_classes(upto - 1).push((upto - 1) as usize)
        } else {
            self.shown_classes(upto - 1)
        }
    }

    /// Cases of class `i` classified as another class below `upto` that had
    /// test cases of its own.
    pub open spec fn errors_of(&self, i: int, upto: int) -> int
        decreases upto,
    {
        if upto <= 0 {
            0
        } else {
            self.errors_of(i, upto - 1) + if self.has_tests(upto - 1) && upto - 1 != i {
                self.confusion[i][upto - 1] as int
            } else {
                0
            }
        }
    }

    /// The counts of row `i` of the confusion matrix in the columns shown.
    pub open spec fn confusion_shown(&self, i: int) -> Seq<i32> {
        let shown = self.shown_classes(self.num_models());
        Seq::new(shown.len(), |k: int| self.confusion[i][shown[k] as int])
    }

    /// The line of the summary for row `i` of the tables.
    pub open spec fn row_matches(&self, i: int, row: ClassRow) -> bool {
        let n = self.num_models();
        &&& row.class_id == i
        &&& row.tests == self.result[i][0]
        &&& row.correct == self.result[i][1]
        &&& row.errors == self.errors_of(i, n)
        &&& row.confusion@ == self.confusion_shown(i)
        &&& row.candidate_order@ == self.result[i]@.subrange(1, n + 1)
    }
}

/// The greatest length in bytes among the names of the classes listed.
pub open spec fn widest_name(class_names: Seq<&String>, shown: Seq<usize>) -> int
    decreases shown.len(),
{
    if shown.len() == 0 {
        0
    } else {
        let rest = widest_name(class_names, shown.drop_last());
        let len = vstd::utf8::encode_utf8(class_names[shown.last() as int]@).len() as int;
        if rest < len {
            len
        } else {
            rest
        }
    }
}

/// The counts of the first columns of a row without negative counts sum
/// to no more than the whole row.
pub proof fn lemma_prefix_sum(row: Seq<i32>, k: int)
    requires
        forall|j: int| 0 <= j < row.len() ==> row[j] >= 0,
        0 <= k <= row.len(),
    ensures
        0 <= row_sum(row.subrange(0, k)) <= row_sum(row),
    decreases row.len(),
{
    if k == row.len() {
        assert(row.subrange(0, k) =~= row);
        lemma_row_sum_nonnegative(row);
    } else {
        assert(row.drop_last().subrange(0, k) =~= row.subrange(0, k));
        lemma_prefix_sum(row.drop_last(), k);
    }
}

impl C12nResults {
    /// The classes shown lie below `upto`, had test cases, and are no more
    /// than `upto`.
    pub proof fn lemma_shown_classes(&self, upto: int)
        requires
            0 <= upto <= usize::MAX,
        ensures
            self.shown_classes(upto).len() <= upto,
            forall|k: int|
                0 <= k < self.shown_classes(upto).len() ==> (#[trigger] self.shown_classes(
                    upto,
                )[k]) < upto && self.has_tests(self.shown_classes(upto)[k] as int),
        decreases upto,
    {
        if upto > 0 {
            self.lemma_shown_classes(upto - 1);
        }
    }

    /// The errors of a row are no more than the cases counted in its first
    /// columns.
    pub proof fn lemma_errors_bounded(&self, i: int, upto: int)
        requires
            self.wf(),
            0 <= i <= self.num_models(),
            0 <= upto <= self.num_models() + 1,
        ensures
            0 <= self.errors_of(i, upto) <= row_sum(self.confusion[i]@.subrange(0, upto)),
        decreases upto,
    {
        let row = self.confusion[i]@;
        if upto > 0 {
            self.lemma_errors_bounded(i, upto - 1);
            assert(row.subrange(0, upto).drop_last() =~= row.subrange(0, upto - 1));
            assert(row.subrange(0, upto).last() == self.confusion[i][upto - 1]);
            assert(0 <= self.confusion[i][upto - 1]);
        }
    }

    /// The line of the summary for row `i` of the tables.
    fn class_row(&self, i: usize, shown: &Vec<usize>) -> (row: ClassRow)
        requires
            self.wf(),
            self.num_models() >= 1,
            i <= self.num_models(),
            shown@ == self.shown_classes(self.num_models()),
        ensures
            self.row_matches(i as int, row),
    {
        let num_models = self.model_class_names.len();
        proof {
            self.lemma_shown_classes(num_models as int);
        }
        let mut confusion: Vec<i32> = Vec::new();
        let mut k: usize = 0;
        while k < shown.len()
            invariant
                self.wf(),
                i <= self.num_models(),
                num_models == self.num_models(),
                k <= shown.len(),
                confusion.len() == k,
                forall|m: int| 0 <= m < shown.len() ==> (#[trigger] shown[m]) < num_models,
                forall|m: int|
                    0 <= m < k ==> #[trigger] confusion[m] == self.confusion[i as int][shown[m] as int],
            decreases shown.len() - k,
        {
            assert(shown[k as int] < num_models);
            assert(self.confusion[i as int].len() == num_models + 1);
            confusion.push(self.confusion[i][shown[k]]);
            k += 1;
        }
        let mut errors: i32 = 0;
        let mut j: usize = 0;
        while j < num_models
            invariant
                self.wf(),
                i <= self.num_models(),
                num_models == self.num_models(),
                j <= num_models,
                errors == self.errors_of(i as int, j as int),
            decreases num_models - j,
        {
            proof {
                self.lemma_errors_bounded(i as int, j + 1);
                assert forall|m: int| 0 <= m < self.confusion[i as int]@.len() implies self.confusion[i as int]@[m]
                    >= 0 by {
                    assert(0 <= self.confusion[i as int][m]);
                }
                lemma_prefix_sum(self.confusion[i as int]@, j + 1);
                assert(row_sum(self.confusion[i as int]@) <= self.total());
                assert(self.result[j as int].len() == num_models + 1);
                assert(self.confusion[i as int].len() == num_models + 1);
            }
            if self.result[j][0] > 0 && j != i {
                errors = errors + self.confusion[i][j];
            }
            j += 1;
        }
        let mut candidate_order: Vec<i32> = Vec::new();
        let mut c: usize = 1;
        assert(self.result[i as int].len() == num_models + 1);
        while c <= num_models
            invariant
                self.wf(),
                i <= self.num_models(),
                num_models == self.num_models(),
                self.result[i as int].len() == num_models + 1,
                1 <= c <= num_models + 1,
                candidate_order.len() == c - 1,
                forall|m: int|
                    0 <= m < c - 1 ==> #[trigger] candidate_order[m] == self.result[i as int][m + 1],
            decreases num_models + 1 - c,
        {
            candidate_order.push(self.result[i][c]);
            c += 1;
        }
        proof {
            assert(confusion@ =~= self.confusion_shown(i as int));
            assert(candidate_order@ =~= self.result[i as int]@.subrange(1, num_models + 1));
        }
        ClassRow {
            class_id: i,
            tests: self.result[i][0],
            correct: self.result[i][1],
            errors,
            confusion,
            candidate_order,
        }
    }

    /// Summarizes the run: the classes that had test cases, a line for each
    /// and a line of totals, the width that their names need, and the names
    /// under which the artifacts of the run are kept. A run without test
    /// cases has no summary.
    pub fn report_results(&self, class_names: Vec<&String>, out_base_name: String) -> (r: Option<
        Report,
    >)
        requires
            self.wf(),
            class_names.len() == self.num_models(),
        ensures
            r is None <==> self.total() == 0,
            r is Some ==> ({
                let rep = r->Some_0;
                let n = self.num_models();
                &&& rep.shown@ == self.shown_classes(n)
                &&& rep.name_width == widest_name(class_names@, rep.shown@)
                &&& rep.rows.len() == rep.shown.len()
                &&& forall|k: int|
                    0 <= k < rep.rows.len() ==> self.row_matches(
                        rep.shown[k] as int,
                        #[trigger] rep.rows[k],
                    )
                &&& self.row_matches(n, rep.total)
                &&& rep.summary_name@ == out_base_name@ + "_classification.json"@
                &&& rep.true_pred_name@ == out_base_name@ + "_y_true_pred.json"@
            }),
    {
        let num_models = self.model_class_names.len();
        if self.result[num_models][0] == 0 {
            return None;
        }
        let mut shown: Vec<usize> = Vec::new();
        let mut name_width: usize = 0;
        let mut i: usize = 0;
        while i < num_models
            invariant
                self.wf(),
                num_models == self.num_models(),
                class_names.len() == num_models,
                i <= num_models,
                shown@ == self.shown_classes(i as int),
                name_width == widest_name(class_names@, shown@),
            decreases num_models - i,
        {
            assert(self.result[i as int].len() == num_models + 1);
            if self.result[i][0] > 0 {
                let ghost before = shown@;
                shown.push(i);
                assert(shown@.drop_last() =~= before);
                let len = class_names[i].as_str().as_bytes().len();
                if name_width < len {
                    name_width = len;
                }
            }
            i += 1;
        }
        proof {
            self.lemma_shown_classes(num_models as int);
        }
        let mut rows: Vec<ClassRow> = Vec::new();
        let mut k: usize = 0;
        while k < shown.len()
            invariant
                self.wf(),
                num_models == self.num_models(),
                num_models >= 1,
                shown@ == self.shown_classes(num_models as int),
                forall|m: int| 0 <= m < shown.len() ==> (#[trigger] shown[m]) < num_models,
                k <= shown.len(),
                rows.len() == k,
                forall|m: int|
                    0 <= m < k ==> self.row_matches(shown[m] as int, #[trigger] rows[m]),
            decreases shown.len() - k,
        {
            let row = self.class_row(shown[k], &shown);
            rows.push(row);
            k += 1;
        }
        let total = self.class_row(num_models, &shown);
        let summary_name = concat(out_base_name.as_str(), "_classification.json");
        let true_pred_name = concat(out_base_name.as_str(), "_y_true_pred.json");
        Some(Report { name_width, shown, rows, total, summary_name, true_pred_name })
    }
}

} // verus!
