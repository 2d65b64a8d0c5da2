//! Predictors: the vectors that the analysis of one signal produced, one per
//! frame, each value kept as the bit pattern of a double.

use vstd::prelude::*;
use vstd::slice::{slice_subrange, slice_to_vec};
use vstd::utf8::{decode_utf8, encode_utf8, valid_utf8};
use crate::codec::{
    le_u32, le_u64, lemma_le_round_trip, lemma_le_round_trip_u64, read_u32_le, read_u64_le,
    u32_le_bytes, u64_le_bytes, write_u32_le, write_u64_le,
};
use crate::error::EcozError;
use crate::opts::PrdShowOpts;
use crate::text::text_from_utf8;

verus! {

/// The vectors of one signal, in frame order.
#[derive(Debug)]
pub struct Predictor {
    pub class_name: String,
    pub prediction_order: usize,
    pub vectors: Vec<Vec<u64>>,
}

/// What a predictor holds.
pub struct PredictorView {
    pub class_name: Seq<char>,
    pub prediction_order: nat,
    pub vectors: Seq<Seq<u64>>,
}

/// The lists of values that the vectors hold.
pub open spec fn vectors_view(vectors: Seq<Vec<u64>>) -> Seq<Seq<u64>> {
    Seq::new(vectors.len(), |i: int| vectors[i]@)
}

impl View for Predictor {
    type V = PredictorView;

    open spec fn view(&self) -> PredictorView {
        PredictorView {
            class_name: self.class_name@,
            prediction_order: self.prediction_order as nat,
            vectors: vectors_view(self.vectors@),
        }
    }
}

/// The coefficients that a predictor can show.
#[derive(Clone, Copy, Debug, PartialEq, Eq, Structural)]
pub enum Coefficients {
    /// The stored vectors.
    Autocorrelation,
    /// Prediction coefficients.
    Predictors,
    /// Reflection coefficients.
    Reflections,
    /// Cepstral coefficients of the given order.
    Cepstrum(usize),
}

/// Which coefficients to show, and which of their places, both ends
/// included.
#[derive(Clone, Copy, Debug, PartialEq, Eq, Structural)]
pub struct Selection {
    pub kind: Coefficients,
    pub from: usize,
    pub to: usize,
}

/// The last place to show: the one asked for, or the last of `count`
/// coefficients where none was asked for or the one asked for does not exist.
pub open spec fn last_place(to: int, count: int) -> int {
    if to == 0 || to >= count {
        count - 1
    } else {
        to
    }
}

/// The selection that the options ask for, of a predictor of order `p`.
/// Cepstral coefficients are refused unless their order exceeds `p`.
pub open spec fn spec_selection(
    p: int,
    show_predictors: bool,
    show_reflections: bool,
    show_cepstrum: Option<usize>,
    from: usize,
    to: usize,
) -> Result<Selection, EcozError> {
    match show_cepstrum {
        Some(q) => if p < q {
            Ok(
                Selection {
                    kind: Coefficients::Cepstrum(q),
                    from,
                    to: last_place(to as int, q as int) as usize,
                },
            )
        } else {
            Err(EcozError::CepstrumOrder)
        },
        None => Ok(
            Selection {
                kind: if show_predictors {
                    Coefficients::Predictors
                } else if show_reflections {
                    Coefficients::Reflections
                } else {
                    Coefficients::Autocorrelation
                },
                from,
                to: last_place(to as int, p + 1) as usize,
            },
        ),
    }
}

impl Coefficients {
    /// The letter that heads the columns of these coefficients.
    pub fn label(&self) -> (c: char)
        ensures
            c == match *self {
                Coefficients::Autocorrelation => 'r',
                Coefficients::Predictors => 'a',
                Coefficients::Reflections => 'k',
                Coefficients::Cepstrum(_) => 'c',
            },
    {
        match self {
            Coefficients::Autocorrelation => 'r',
            Coefficients::Predictors => 'a',
            Coefficients::Reflections => 'k',
            Coefficients::Cepstrum(_) => 'c',
        }
    }
}

impl Predictor {
    /// Every vector has one value more than the prediction order.
    pub open spec fn wf(&self) -> bool {
        &&& self.prediction_order < usize::MAX
        &&& forall|i: int|
            0 <= i < self.vectors.len() ==> (#[trigger] self.vectors[i]).len()
                == self.prediction_order + 1
    }

    /// Which coefficients to show and which of their places. Cepstral
    /// coefficients are refused unless their order exceeds the prediction
    /// order.
    pub fn show(
        &self,
        show_predictors: bool,
        show_reflections: bool,
        show_cepstrum: Option<usize>,
        from: usize,
        to: usize,
    ) -> (r: Result<Selection, EcozError>)
        requires
            self.prediction_order < usize::MAX,
        ensures
            r == spec_selection(
                self.prediction_order as int,
                show_predictors,
                show_reflections,
                show_cepstrum,
                from,
                to,
            ),
    {
        let p = self.prediction_order;
        match show_cepstrum {
            Some(q) => {
                if p < q {
                    let to_ = if to == 0 || to >= q {
                        q - 1
                    } else {
                        to
                    };
                    Ok(Selection { kind: Coefficients::Cepstrum(q), from, to: to_ })
                } else {
                    Err(EcozError::CepstrumOrder)
                }
            },
            None => {
                let to_ = if to == 0 || to > p {
                    p
                } else {
                    to
                };
                let kind = if show_predictors {
                    Coefficients::Predictors
                } else if show_reflections {
                    Coefficients::Reflections
                } else {
                    Coefficients::Autocorrelation
                };
                Ok(Selection { kind, from, to: to_ })
            },
        }
    }
}

/// The places `from` to `to`, both included, of each of the vectors.
pub fn extract(vectors: &Vec<Vec<u64>>, from: usize, to: usize) -> (list: Vec<Vec<u64>>)
    requires
        from <= to + 1,
        forall|i: int| 0 <= i < vectors.len() ==> to < (#[trigger] vectors[i]).len(),
    ensures
        list.len() == vectors.len(),
        forall|i: int|
            0 <= i < vectors.len() ==> (#[trigger] list[i])@ == vectors[i]@.subrange(
                from as int,
                to + 1,
            ),
{
    let mut list: Vec<Vec<u64>> = Vec::new();
    let mut i: usize = 0;
    while i < vectors.len()
        invariant
            i <= vectors.len(),
            from <= to + 1,
            forall|m: int| 0 <= m < vectors.len() ==> to < (#[trigger] vectors[m]).len(),
            list.len() == i,
            forall|m: int|
                0 <= m < i ==> (#[trigger] list[m])@ == vectors[m]@.subrange(from as int, to + 1),
        decreases vectors.len() - i,
    {
        let vector = &vectors[i];
        let mut extracted: Vec<u64> = Vec::new();
        let mut j: usize = from;
        while j <= to
            invariant
                from <= j <= to + 1,
                to < vector.len(),
                extracted@ == vector@.subrange(from as int, j as int),
            decreases to + 1 - j,
        {
            extracted.push(vector[j]);
            assert(extracted@ =~= vector@.subrange(from as int, j + 1));
            j += 1;
        }
        list.push(extracted);
        i += 1;
    }
    list
}

/// How a predictor file is shown.
#[derive(Debug)]
pub enum PrdShowPlan {
    /// With this library: load the file, then show what `Predictor::show`
    /// selects.
    Native {
        file: String,
        show_predictors: bool,
        show_reflections: bool,
        show_cepstrum: Option<usize>,
        from: usize,
        to: usize,
        pickle: Option<String>,
    },
    /// With the engine that produced the file.
    Engine { file: String, show_reflections: bool, from: usize, to: usize },
}

/// Decides how the predictor file of the options is shown.
pub fn prd_show(opts: PrdShowOpts) -> (plan: PrdShowPlan)
    ensures
        opts.zrs ==> plan == (PrdShowPlan::Native {
            file: opts.file,
            show_predictors: opts.show_predictors,
            show_reflections: opts.show_reflections,
            show_cepstrum: opts.show_cepstrum,
            from: opts.from,
            to: opts.to,
            pickle: opts.pickle,
        }),
        !opts.zrs ==> plan == (PrdShowPlan::Engine {
            file: opts.file,
            show_reflections: opts.show_reflections,
            from: opts.from,
            to: opts.to,
        }),
{
    let PrdShowOpts {
        show_predictors,
        show_reflections,
        show_cepstrum,
        from,
        to,
        file,
        zrs,
        pickle,
    } = opts;
    if zrs {
        PrdShowPlan::Native {
            file,
            show_predictors,
            show_reflections,
            show_cepstrum,
            from,
            to,
            pickle,
        }
    } else {
        PrdShowPlan::Engine { file, show_reflections, from, to }
    }
}

/// The values of all vectors, one vector after the other.
pub open spec fn flatten(vectors: Seq<Seq<u64>>) -> Seq<u64>
    decreases vectors.len(),
{
    if vectors.len() == 0 {
        Seq::empty()
    } else {
        flatten(vectors.drop_last()) + vectors.last()
    }
}

/// The values, eight bytes each, least significant byte first.
pub open spec fn value_bytes(values: Seq<u64>) -> Seq<u8>
    decreases values.len(),
{
    if values.len() == 0 {
        Seq::empty()
    } else {
        value_bytes(values.drop_last()) + u64_le_bytes(values.last())
    }
}

/// The predictor can be written: every vector has one value more than the
/// prediction order, and the sizes fit the 32-bit numbers of the file.
pub open spec fn storable(v: PredictorView) -> bool {
    &&& encode_utf8(v.class_name).len() <= u32::MAX
    &&& v.prediction_order < u32::MAX
    &&& v.vectors.len() <= u32::MAX
    &&& forall|i: int|
        0 <= i < v.vectors.len() ==> (#[trigger] v.vectors[i]).len() == v.prediction_order + 1
}

/// The bytes of the file that holds the predictor: the length of the class
/// name and the name, the prediction order, the number of vectors, then the
/// values of the vectors; numbers are little-endian, lengths take 32 bits.
pub open spec fn spec_save(v: PredictorView) -> Seq<u8> {
    u32_le_bytes(encode_utf8(v.class_name).len() as u32) + encode_utf8(v.class_name)
        + u32_le_bytes(v.prediction_order as u32) + u32_le_bytes(v.vectors.len() as u32)
        + value_bytes(flatten(v.vectors))
}

/// Where the values start in a file whose class name takes `name_len` bytes.
pub open spec fn values_start(name_len: int) -> int {
    name_len + 12
}

/// Value `j` of vector `i` of a file with vectors of `width` values.
pub open spec fn value_at(bytes: Seq<u8>, start: int, width: int, i: int, j: int) -> u64 {
    le_u64(bytes.subrange(start + 8 * (i * width + j), start + 8 * (i * width + j) + 8)) as u64
}

/// The predictor that a file holds, if the file is well formed: its class
/// name is text, its prediction order is less than the greatest 32-bit
/// number, and its length is exactly that of its header and of the vectors
/// that the header announces.
pub open spec fn spec_load(bytes: Seq<u8>) -> Option<PredictorView> {
    let name_len = le_u32(bytes.subrange(0, 4));
    let name = bytes.subrange(4, 4 + name_len);
    let order = le_u32(bytes.subrange(4 + name_len, 8 + name_len));
    let count = le_u32(bytes.subrange(8 + name_len, 12 + name_len));
    let start = values_start(name_len);
    if bytes.len() < 4 {
        None
    } else if bytes.len() < start {
        None
    } else if !valid_utf8(name) || order >= u32::MAX {
        None
    } else if bytes.len() != start + 8 * (count * (order + 1)) {
        None
    } else {
        Some(
            PredictorView {
                class_name: decode_utf8(name),
                prediction_order: order as nat,
                vectors: Seq::new(
                    count as nat,
                    |i: int|
                        Seq::new((order + 1) as nat, |j: int| value_at(bytes, start, order + 1, i, j)),
                ),
            },
        )
    }
}

impl Predictor {
    /// The bytes of the file that holds this predictor.
    pub fn save(&self) -> (bytes: Vec<u8>)
        requires
            storable(self@),
        ensures
            bytes@ == spec_save(self@),
    {
        let name = self.class_name.as_str().as_bytes();
        let mut bytes = write_u32_le(name.len() as u32);
        let mut k: usize = 0;
        while k < name.len()
            invariant
                k <= name.len(),
                bytes@ == u32_le_bytes(name@.len() as u32) + name@.subrange(0, k as int),
            decreases name.len() - k,
        {
            bytes.push(name[k]);
            assert(bytes@ =~= u32_le_bytes(name@.len() as u32) + name@.subrange(0, k + 1));
            k += 1;
        }
        assert(name@.subrange(0, k as int) =~= name@);
        let mut order = write_u32_le(self.prediction_order as u32);
        bytes.append(&mut order);
        let mut count = write_u32_le(self.vectors.len() as u32);
        bytes.append(&mut count);
        let ghost header = bytes@;
        let ghost vectors = self@.vectors;
        let mut i: usize = 0;
        assert(vectors.subrange(0, 0) =~= Seq::<Seq<u64>>::empty());
        while i < self.vectors.len()
            invariant
                i <= self.vectors.len(),
                vectors == self@.vectors,
                vectors.len() == self.vectors.len(),
                bytes@ == header + value_bytes(flatten(vectors.subrange(0, i as int))),
            decreases self.vectors.len() - i,
        {
            let vector = &self.vectors[i];
            let ghost done = flatten(vectors.subrange(0, i as int));
            let mut j: usize = 0;
            assert(done + vector@.subrange(0, 0) =~= done);
            while j < vector.len()
                invariant
                    j <= vector.len(),
                    bytes@ == header + value_bytes(done + vector@.subrange(0, j as int)),
                decreases vector.len() - j,
            {
                let mut value = write_u64_le(vector[j]);
                bytes.append(&mut value);
                proof {
                    let upto = done + vector@.subrange(0, j + 1);
                    assert(upto.drop_last() =~= done + vector@.subrange(0, j as int));
                    assert(upto.last() == vector[j as int]);
                    assert(bytes@ =~= header + value_bytes(upto));
                }
                j += 1;
            }
            proof {
                assert(vector@.subrange(0, j as int) =~= vector@);
                let upto = vectors.subrange(0, i + 1);
                assert(upto.drop_last() =~= vectors.subrange(0, i as int));
                assert(upto.last() == vector@);
            }
            i += 1;
        }
        proof {
            assert(vectors.subrange(0, i as int) =~= vectors);
        }
        bytes
    }
}

/// Place `i * width + j` lies among the `count * width` places of `count`
/// rows of `width`.
pub proof fn lemma_place_in_rows(count: int, width: int, i: int, j: int)
    requires
        0 <= i < count,
        0 <= j < width,
    ensures
        0 <= i * width + j < count * width,
        (i + 1) * width == i * width + width,
{
    assert(0 <= i * width && (i + 1) * width <= count * width && (i + 1) * width == i * width
        + width) by (nonlinear_arith)
        requires
            0 <= i < count,
            0 < width,
    ;
}

/// Reads a predictor from the bytes of a predictor file. A file whose class
/// name is no text, or whose length is not that of its header and of the
/// vectors that the header announces, is refused.
pub fn load(bytes: &[u8]) -> (r: Result<Predictor, EcozError>)
    ensures
        match spec_load(bytes@) {
            Some(v) => r is Ok && r->Ok_0@ == v && r->Ok_0.wf(),
            None => r == Err::<Predictor, EcozError>(EcozError::MalformedPredictorFile),
        },
{
    broadcast use vstd::utf8::encode_utf8_decode_utf8;

    let total: usize = bytes.len();
    if total < 4 {
        return Err(EcozError::MalformedPredictorFile);
    }
    let name_len = read_u32_le(slice_subrange(bytes, 0, 4)) as usize;
    if total - 4 < name_len || total - 4 - name_len < 8 {
        return Err(EcozError::MalformedPredictorFile);
    }
    let name = slice_to_vec(slice_subrange(bytes, 4, 4 + name_len));
    let class_name = match text_from_utf8(name) {
        Some(class_name) => class_name,
        None => {
            return Err(EcozError::MalformedPredictorFile);
        },
    };
    let order = read_u32_le(slice_subrange(bytes, 4 + name_len, 8 + name_len));
    let count = read_u32_le(slice_subrange(bytes, 8 + name_len, 12 + name_len));
    if order == u32::MAX {
        return Err(EcozError::MalformedPredictorFile);
    }
    let start: usize = 12 + name_len;
    let width: usize = order as usize + 1;
    assert(count as u128 * (order as u128 + 1) <= 0xffff_ffff * 0x1_0000_0000) by (nonlinear_arith)
        requires
            count <= 0xffff_ffff,
            order < 0xffff_ffff,
    ;
    let needed: u128 = 8 * (count as u128 * (order as u128 + 1));
    if (total - start) as u128 != needed {
        return Err(EcozError::MalformedPredictorFile);
    }
    let mut vectors: Vec<Vec<u64>> = Vec::new();
    let mut at: usize = start;
    let mut i: usize = 0;
    while i < count as usize
        invariant
            total == bytes@.len(),
            i <= count,
            width == order + 1,
            total == start + 8 * (count * width),
            at == start + 8 * (i * width),
            vectors.len() == i,
            forall|m: int| 0 <= m < i ==> (#[trigger] vectors[m]).len() == width,
            forall|m: int, n: int|
                0 <= m < i && 0 <= n < width ==> #[trigger] vectors[m][n] == value_at(
                    bytes@,
                    start as int,
                    width as int,
                    m,
                    n,
                ),
        decreases count - i,
    {
        let mut vector: Vec<u64> = Vec::new();
        let mut j: usize = 0;
        while j < width
            invariant
                total == bytes@.len(),
                i < count,
                width == order + 1,
                j <= width,
                total == start + 8 * (count * width),
                at == start + 8 * (i * width + j),
                vector.len() == j,
                forall|n: int|
                    0 <= n < j ==> #[trigger] vector[n] == value_at(
                        bytes@,
                        start as int,
                        width as int,
                        i as int,
                        n,
                    ),
            decreases width - j,
        {
            proof {
                lemma_place_in_rows(count as int, width as int, i as int, j as int);
            }
            let value = read_u64_le(slice_subrange(bytes, at, at + 8));
            vector.push(value);
            at = at + 8;
            j += 1;
        }
        proof {
            lemma_place_in_rows(count as int, width as int, i as int, 0);
        }
        vectors.push(vector);
        i += 1;
    }
    let predictor = Predictor { class_name, prediction_order: order as usize, vectors };
    proof {
        let v = spec_load(bytes@)->Some_0;
        assert(predictor@.vectors.len() == v.vectors.len());
        assert forall|m: int| 0 <= m < count implies #[trigger] predictor@.vectors[m]
            == v.vectors[m] by {
            assert(predictor.vectors[m]@ =~= v.vectors[m]);
        }
        assert(predictor@.vectors =~= v.vectors);
    }
    Ok(predictor)
}

/// The values of `count` vectors of `width` values are `count * width`
/// values, and value `j` of vector `i` stands at place `i * width + j`.
pub proof fn lemma_flatten(vectors: Seq<Seq<u64>>, width: int, i: int, j: int)
    requires
        forall|m: int| 0 <= m < vectors.len() ==> (#[trigger] vectors[m]).len() == width,
        0 <= i < vectors.len(),
        0 <= j < width,
    ensures
        flatten(vectors).len() == vectors.len() * width,
        0 <= i * width + j < flatten(vectors).len(),
        flatten(vectors)[i * width + j] == vectors[i][j],
    decreases vectors.len(),
{
    lemma_flatten_len(vectors, width);
    lemma_flatten_len(vectors.drop_last(), width);
    lemma_place_in_rows(vectors.len() as int, width, i, j);
    let n = vectors.len() as int;
    assert((n - 1) * width + width == n * width) by (nonlinear_arith);
    if i == n - 1 {
    } else {
        lemma_flatten(vectors.drop_last(), width, i, j);
        lemma_place_in_rows(n - 1, width, i, j);
    }
}

/// The values of `count` vectors of `width` values are `count * width`
/// values.
pub proof fn lemma_flatten_len(vectors: Seq<Seq<u64>>, width: int)
    requires
        forall|m: int| 0 <= m < vectors.len() ==> (#[trigger] vectors[m]).len() == width,
    ensures
        flatten(vectors).len() == vectors.len() * width,
    decreases vectors.len(),
{
    if vectors.len() > 0 {
        lemma_flatten_len(vectors.drop_last(), width);
        let n = vectors.len() as int;
        assert((n - 1) * width + width == n * width) by (nonlinear_arith);
    } else {
        assert(0 * width == 0) by (nonlinear_arith);
    }
}

/// Each value takes eight bytes, and they are the bytes of that value.
pub proof fn lemma_value_bytes(values: Seq<u64>, k: int)
    requires
        0 <= k < values.len(),
    ensures
        value_bytes(values).len() == 8 * values.len(),
        value_bytes(values).subrange(8 * k, 8 * k + 8) == u64_le_bytes(values[k]),
    decreases values.len(),
{
    lemma_value_bytes_len(values);
    lemma_value_bytes_len(values.drop_last());
    lemma_le_round_trip_u64(values.last());
    let all = value_bytes(values);
    if k == values.len() - 1 {
        assert(all.subrange(8 * k, 8 * k + 8) =~= u64_le_bytes(values[k]));
    } else {
        lemma_value_bytes(values.drop_last(), k);
        assert(all.subrange(8 * k, 8 * k + 8) =~= value_bytes(values.drop_last()).subrange(
            8 * k,
            8 * k + 8,
        ));
    }
}

/// Each value takes eight bytes.
pub proof fn lemma_value_bytes_len(values: Seq<u64>)
    ensures
        value_bytes(values).len() == 8 * values.len(),
    decreases values.len(),
{
    if values.len() > 0 {
        lemma_value_bytes_len(values.drop_last());
        lemma_le_round_trip_u64(values.last());
    }
}

/// Saving a predictor and loading it back gives the same predictor: the same
/// class name, the same prediction order, and the same vectors with every
/// value bit for bit.
pub proof fn lemma_save_load(v: PredictorView)
    requires
        storable(v),
    ensures
        spec_load(spec_save(v)) == Some(v),
{
    let name = encode_utf8(v.class_name);
    let name_len = name.len() as int;
    let order = v.prediction_order as int;
    let count = v.vectors.len() as int;
    let width = order + 1;
    let values = flatten(v.vectors);
    let bytes = spec_save(v);
    let start = values_start(name_len);
    lemma_le_round_trip(0, name_len as u32);
    lemma_le_round_trip(0, order as u32);
    lemma_le_round_trip(0, count as u32);
    lemma_flatten_len(v.vectors, width);
    lemma_value_bytes_len(values);
    vstd::utf8::encode_utf8_valid_utf8(v.class_name);
    vstd::utf8::encode_utf8_decode_utf8(v.class_name);

    assert(bytes.len() == start + 8 * (count * width));
    assert(bytes.subrange(0, 4) =~= u32_le_bytes(name_len as u32));
    assert(bytes.subrange(4, 4 + name_len) =~= name);
    assert(bytes.subrange(4 + name_len, 8 + name_len) =~= u32_le_bytes(order as u32));
    assert(bytes.subrange(8 + name_len, 12 + name_len) =~= u32_le_bytes(count as u32));

    let loaded = spec_load(bytes)->Some_0;
    assert(loaded.vectors.len() == count);
    assert forall|i: int| 0 <= i < count implies #[trigger] loaded.vectors[i] == v.vectors[i] by {
        assert(v.vectors[i].len() == width);
        assert forall|j: int| 0 <= j < width implies loaded.vectors[i][j] == v.vectors[i][j] by {
            lemma_flatten(v.vectors, width, i, j);
            let k = i * width + j;
            lemma_value_bytes(values, k);
            assert(bytes.subrange(start + 8 * k, start + 8 * k + 8) =~= value_bytes(
                values,
            ).subrange(8 * k, 8 * k + 8));
            lemma_le_round_trip_u64(values[k]);
        }
        assert(loaded.vectors[i] =~= v.vectors[i]);
    }
    assert(loaded.vectors =~= v.vectors);
}

} // verus!
