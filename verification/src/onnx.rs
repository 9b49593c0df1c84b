//! Driving an ONNX embedding model: which tensors feed its inputs, the
//! token tensors of a batch, the query text, and how its output is read.
use vstd::prelude::*;
use crate::catalog::{feed_for, feed_kind_for_input, FeedKind, Pooling};
use crate::text::{decimal, u64_to_decimal};
use crate::types::GpError;

verus! {

/// The matrix an output tensor is read as.
#[derive(Debug)]
pub struct HiddenShape {
    pub rows: usize,
    pub cols: usize,
    /// Text to put before a reshape error, when the shape's batch does not
    /// match the input's.
    pub context: Option<String>,
}

/// The dimensions of a tensor shape, each cast to `usize`.
pub open spec fn dims_of(shape: Seq<i64>) -> Seq<usize> {
    shape.map_values(|d: i64| d as usize)
}

/// Rows, columns and whether a reshape error is annotated: a `[batch,
/// hidden]` output is already pooled; `[batch, seq, hidden]` (or any three
/// dimensions) holds one row per token; otherwise a flat buffer of
/// `batch * seq * native_dim` values is one row per token of `native_dim`.
pub open spec fn hidden_shape_spec(
    dims: Seq<usize>,
    data_len: nat,
    batch: nat,
    seq: nat,
    native_dim: nat,
) -> Option<(nat, nat, bool)> {
    if dims.len() == 2 && dims[0] == batch {
        Some((batch, dims[1] as nat, false))
    } else if dims.len() == 3 && dims[0] == batch {
        Some((batch * (dims[1] as nat), dims[2] as nat, false))
    } else if dims.len() == 3 {
        Some(((dims[0] as nat) * (dims[1] as nat), dims[2] as nat, true))
    } else if data_len == batch * seq * native_dim {
        Some((batch * seq, native_dim, false))
    } else {
        None
    }
}

/// The products `hidden_shape_spec` computes fit in a `usize`.
pub open spec fn hidden_products_fit(dims: Seq<usize>, batch: nat, seq: nat, native_dim: nat) -> bool {
    if dims.len() == 2 && dims[0] == batch {
        true
    } else if dims.len() == 3 {
        dims[0] * dims[1] <= usize::MAX
    } else {
        batch * seq <= usize::MAX && batch * seq * native_dim <= usize::MAX
    }
}

/// Whether the products `hidden_shape` computes fit in a `usize` (what its
/// callers test first).
pub fn hidden_products_fit_exec(shape: &Vec<i64>, batch: usize, seq: usize, native_dim: usize) -> (r: bool)
    ensures
        r == hidden_products_fit(dims_of(shape@), batch as nat, seq as nat, native_dim as nat),
{
    let n = shape.len();
    if n == 2 && shape[0] as usize == batch {
        return true;
    }
    if n == 3 {
        let a = shape[0] as usize;
        let b = shape[1] as usize;
        return a.checked_mul(b).is_some();
    }
    match batch.checked_mul(seq) {
        None => false,
        Some(bs) => bs.checked_mul(native_dim).is_some(),
    }
}

/// Debug text of a list of dimensions, `[1, 22, 1024]`.
pub open spec fn dims_text(d: Seq<usize>) -> Seq<char> {
    seq!['['] + dims_joined(d) + seq![']']
}

/// The dimensions in decimal, separated by `, `.
pub open spec fn dims_joined(d: Seq<usize>) -> Seq<char>
    decreases d.len(),
{
    if d.len() == 0 {
        Seq::empty()
    } else if d.len() == 1 {
        decimal(d[0] as nat)
    } else {
        dims_joined(d.drop_last()) + ", "@ + decimal(d.last() as nat)
    }
}

fn dims_string(d: &Vec<usize>) -> (r: String)
    ensures
        r@ == dims_text(d@),
{
    let mut s = String::new();
    crate::text::push_char(&mut s, '[');
    let ghost start = s@;
    let mut i: usize = 0;
    while i < d.len()
        invariant
            i <= d.len(),
            start == seq!['['],
            s@ == start + dims_joined(d@.take(i as int)),
        decreases d.len() - i,
    {
        let ghost before = s@;
        assert(d@.take(i + 1).drop_last() =~= d@.take(i as int));
        if i > 0 {
            s.append(", ");
        }
        let t = u64_to_decimal(d[i] as u64);
        s.append(t.as_str());
        i += 1;
        if i == 1 {
            assert(d@.take(1).len() == 1);
            assert(s@ =~= start + dims_joined(d@.take(i as int)));
        } else {
            assert(s@ =~= start + dims_joined(d@.take(i as int)));
        }
    }
    assert(d@.take(d.len() as int) =~= d@);
    crate::text::push_char(&mut s, ']');
    assert(s@ =~= dims_text(d@));
    s
}

/// The error for an output shape that fits none of the readings.
pub open spec fn unexpected_shape(
    dims: Seq<usize>,
    batch: usize,
    seq: usize,
    native_dim: usize,
    data_len: usize,
) -> Seq<char> {
    "unexpected ONNX output shape "@ + dims_text(dims) + " (batch="@ + decimal(batch as nat)
        + ", seq="@ + decimal(seq as nat) + ", native_dim="@ + decimal(native_dim as nat)
        + ", len="@ + decimal(data_len as nat) + ")"@
}

fn append_number(s: &mut String, n: usize)
    ensures
        final(s)@ == old(s)@ + decimal(n as nat),
{
    let t = u64_to_decimal(n as u64);
    s.append(t.as_str());
}

/// How an output tensor of shape `shape` holding `data_len` values is read
/// for `batch` inputs of `seq` tokens and a model of width `native_dim`.
pub fn hidden_shape(shape: &Vec<i64>, data_len: usize, batch: usize, seq: usize, native_dim: usize) -> (r:
    Result<HiddenShape, GpError>)
    requires
        hidden_products_fit(dims_of(shape@), batch as nat, seq as nat, native_dim as nat),
    ensures
        match hidden_shape_spec(
            dims_of(shape@),
            data_len as nat,
            batch as nat,
            seq as nat,
            native_dim as nat,
        ) {
            Some((rows, cols, annotate)) => r matches Ok(h) && h.rows == rows && h.cols == cols && (
            if annotate {
                h.context matches Some(c) && c@ == "output shape "@ + dims_text(dims_of(shape@))
            } else {
                h.context is None
            }),
            None => r matches Err(GpError::Model(m)) && m@ == unexpected_shape(
                dims_of(shape@),
                batch,
                seq,
                native_dim,
                data_len,
            ),
        },
{
    let mut dims: Vec<usize> = Vec::new();
    let mut i: usize = 0;
    while i < shape.len()
        invariant
            i <= shape.len(),
            dims@ == dims_of(shape@).take(i as int),
        decreases shape.len() - i,
    {
        dims.push(shape[i] as usize);
        i += 1;
        assert(dims@ =~= dims_of(shape@).take(i as int));
    }
    assert(dims_of(shape@).take(shape.len() as int) =~= dims_of(shape@));
    if dims.len() == 2 && dims[0] == batch {
        return Ok(HiddenShape { rows: batch, cols: dims[1], context: None });
    }
    if dims.len() == 3 {
        if dims[0] == batch {
            return Ok(HiddenShape { rows: batch * dims[1], cols: dims[2], context: None });
        }
        let mut c = String::from_str("output shape ");
        let t = dims_string(&dims);
        c.append(t.as_str());
        return Ok(HiddenShape { rows: dims[0] * dims[1], cols: dims[2], context: Some(c) });
    }
    if data_len == batch * seq * native_dim {
        return Ok(HiddenShape { rows: batch * seq, cols: native_dim, context: None });
    }
    let mut m = String::from_str("unexpected ONNX output shape ");
    let t = dims_string(&dims);
    m.append(t.as_str());
    m.append(" (batch=");
    append_number(&mut m, batch);
    m.append(", seq=");
    append_number(&mut m, seq);
    m.append(", native_dim=");
    append_number(&mut m, native_dim);
    m.append(", len=");
    append_number(&mut m, data_len);
    m.append(")");
    Err(GpError::Model(m))
}

// ---------------------------------------------------------------------
// Inputs.

/// Views of a vector of strings.
pub open spec fn name_views(v: Seq<String>) -> Seq<Seq<char>> {
    v.map_values(|s: String| s@)
}

/// Index of the first input name no tensor is built for.
pub open spec fn first_unsupported(names: Seq<Seq<char>>) -> Option<int>
    decreases names.len(),
{
    if names.len() == 0 {
        None
    } else {
        match first_unsupported(names.drop_last()) {
            Some(i) => Some(i),
            None => if feed_for(names.last()) is None {
                Some(names.len() - 1)
            } else {
                None
            },
        }
    }
}

proof fn lemma_first_unsupported_stable(names: Seq<Seq<char>>, m: int)
    requires
        0 < m <= names.len(),
        first_unsupported(names.take(m)) is Some,
    ensures
        first_unsupported(names) == first_unsupported(names.take(m)),
    decreases names.len() - m,
{
    if m < names.len() {
        assert(names.take(m + 1).drop_last() =~= names.take(m));
        lemma_first_unsupported_stable(names, m + 1);
    } else {
        assert(names.take(m) =~= names);
    }
}

/// The error when loading a model with an input no tensor is built for.
pub open spec fn unsupported_input_of(id: Seq<char>, name: Seq<char>) -> Seq<char> {
    "model "@ + id + " requires unsupported ONNX input `"@ + name + "`"@
}

/// A model loads only when every input it declares can be fed.
pub fn check_inputs(model_id: &str, input_names: &Vec<String>) -> (r: Result<(), GpError>)
    ensures
        match first_unsupported(name_views(input_names@)) {
            None => r is Ok,
            Some(i) => r matches Err(GpError::Model(m)) && m@ == unsupported_input_of(
                model_id@,
                name_views(input_names@)[i],
            ),
        },
{
    let ghost ns = name_views(input_names@);
    let mut i: usize = 0;
    while i < input_names.len()
        invariant
            i <= input_names.len(),
            ns == name_views(input_names@),
            first_unsupported(ns.take(i as int)) is None,
        decreases input_names.len() - i,
    {
        assert(ns.take(i + 1).drop_last() =~= ns.take(i as int));
        assert(ns.take(i + 1).last() == input_names@[i as int]@);
        if feed_kind_for_input(input_names[i].as_str()).is_none() {
            proof {
                lemma_first_unsupported_stable(ns, i + 1);
            }
            let mut m = String::from_str("model ");
            m.append(model_id);
            m.append(" requires unsupported ONNX input `");
            m.append(input_names[i].as_str());
            m.append("`");
            return Err(GpError::Model(m));
        }
        i += 1;
    }
    assert(ns.take(input_names.len() as int) =~= ns);
    Ok(())
}

/// The error for a second input fed by the same tensor.
pub open spec fn duplicate_feed(k: FeedKind) -> Seq<char> {
    match k {
        FeedKind::InputIds => "duplicate input_ids in ONNX graph"@,
        FeedKind::AttentionMask => "duplicate attention_mask in ONNX graph"@,
        FeedKind::TokenTypeIds => "duplicate token_type_ids in ONNX graph"@,
        FeedKind::PositionIds => "duplicate position_ids in ONNX graph"@,
    }
}

/// The tensor fed to each input, in input order: each tensor is fed once;
/// the first input that cannot be fed, or that would take a tensor a
/// second time, is an error.
pub open spec fn feed_plan_spec(names: Seq<Seq<char>>) -> Result<Seq<FeedKind>, Seq<char>>
    decreases names.len(),
{
    if names.len() == 0 {
        Ok(Seq::empty())
    } else {
        match feed_plan_spec(names.drop_last()) {
            Err(m) => Err(m),
            Ok(ks) => match feed_for(names.last()) {
                None => Err("unsupported ONNX input `"@ + names.last() + "`"@),
                Some(k) => if ks.contains(k) {
                    Err(duplicate_feed(k))
                } else {
                    Ok(ks.push(k))
                },
            },
        }
    }
}

proof fn lemma_feed_plan_err_stable(names: Seq<Seq<char>>, m: int)
    requires
        0 < m <= names.len(),
        feed_plan_spec(names.take(m)) is Err,
    ensures
        feed_plan_spec(names) == feed_plan_spec(names.take(m)),
    decreases names.len() - m,
{
    if m < names.len() {
        assert(names.take(m + 1).drop_last() =~= names.take(m));
        lemma_feed_plan_err_stable(names, m + 1);
    } else {
        assert(names.take(m) =~= names);
    }
}

fn duplicate_feed_error(k: FeedKind) -> (r: String)
    ensures
        r@ == duplicate_feed(k),
{
    match k {
        FeedKind::InputIds => String::from_str("duplicate input_ids in ONNX graph"),
        FeedKind::AttentionMask => String::from_str("duplicate attention_mask in ONNX graph"),
        FeedKind::TokenTypeIds => String::from_str("duplicate token_type_ids in ONNX graph"),
        FeedKind::PositionIds => String::from_str("duplicate position_ids in ONNX graph"),
    }
}

/// The tensor each declared input is fed with, in input order.
pub fn feed_plan(input_names: &Vec<String>) -> (r: Result<Vec<FeedKind>, GpError>)
    ensures
        match feed_plan_spec(name_views(input_names@)) {
            Ok(ks) => r matches Ok(v) && v@ == ks,
            Err(m) => r matches Err(GpError::Model(e)) && e@ == m,
        },
{
    let ghost ns = name_views(input_names@);
    let mut kinds: Vec<FeedKind> = Vec::new();
    let mut i: usize = 0;
    while i < input_names.len()
        invariant
            i <= input_names.len(),
            ns == name_views(input_names@),
            feed_plan_spec(ns.take(i as int)) == Ok::<Seq<FeedKind>, Seq<char>>(kinds@),
        decreases input_names.len() - i,
    {
        assert(ns.take(i + 1).drop_last() =~= ns.take(i as int));
        assert(ns.take(i + 1).last() == input_names@[i as int]@);
        match feed_kind_for_input(input_names[i].as_str()) {
            None => {
                proof {
                    lemma_feed_plan_err_stable(ns, i + 1);
                }
                let mut m = String::from_str("unsupported ONNX input `");
                m.append(input_names[i].as_str());
                m.append("`");
                return Err(GpError::Model(m));
            },
            Some(k) => {
                let mut seen = false;
                let mut j: usize = 0;
                while j < kinds.len() && !seen
                    invariant
                        j <= kinds.len(),
                        seen ==> kinds@.contains(k),
                        !seen ==> forall|q: int| 0 <= q < j ==> kinds@[q] != k,
                    decreases kinds.len() - j,
                {
                    if kinds[j] == k {
                        seen = true;
                    }
                    j += 1;
                }
                if seen {
                    proof {
                        lemma_feed_plan_err_stable(ns, i + 1);
                    }
                    return Err(GpError::Model(duplicate_feed_error(k)));
                }
                kinds.push(k);
            },
        }
        i += 1;
    }
    assert(ns.take(input_names.len() as int) =~= ns);
    Ok(kinds)
}

/// Tokens of a batch: the longest encoding, capped at the model's length.
pub open spec fn sequence_len_spec(lens: Seq<usize>, max_len: usize) -> usize
    decreases lens.len(),
{
    if lens.len() == 0 {
        0
    } else {
        let rest = sequence_len_spec(lens.drop_last(), max_len);
        let l = if lens.last() < max_len {
            lens.last()
        } else {
            max_len
        };
        if l > rest {
            l
        } else {
            rest
        }
    }
}

/// Tokens per row of a batch whose encodings have the given lengths.
pub fn sequence_len(lens: &Vec<usize>, max_len: usize) -> (r: usize)
    ensures
        r == sequence_len_spec(lens@, max_len),
        r <= max_len,
{
    let mut best: usize = 0;
    let mut i: usize = 0;
    while i < lens.len()
        invariant
            i <= lens.len(),
            best == sequence_len_spec(lens@.take(i as int), max_len),
            best <= max_len,
        decreases lens.len() - i,
    {
        assert(lens@.take(i + 1).drop_last() =~= lens@.take(i as int));
        let l = if lens[i] < max_len {
            lens[i]
        } else {
            max_len
        };
        if l > best {
            best = l;
        }
        i += 1;
    }
    assert(lens@.take(lens.len() as int) =~= lens@);
    best
}

/// A token row of `seq` values: the first `seq` of `vals` (as far as `n`
/// reaches), zeros after.
pub open spec fn padded_row(vals: Seq<u32>, n: nat, seq: nat) -> Seq<i64> {
    Seq::new(seq, |j: int| if j < n && j < vals.len() {
        vals[j] as i64
    } else {
        0i64
    })
}

fn pad_row(vals: &Vec<u32>, n: usize, seq: usize) -> (r: Vec<i64>)
    ensures
        r@ == padded_row(vals@, n as nat, seq as nat),
{
    let mut out: Vec<i64> = Vec::new();
    let mut j: usize = 0;
    while j < seq
        invariant
            j <= seq,
            out@ == padded_row(vals@, n as nat, seq as nat).take(j as int),
        decreases seq - j,
    {
        if j < n && j < vals.len() {
            out.push(vals[j] as i64);
        } else {
            out.push(0);
        }
        j += 1;
        assert(out@ =~= padded_row(vals@, n as nat, seq as nat).take(j as int));
    }
    assert(padded_row(vals@, n as nat, seq as nat).take(seq as int) =~= padded_row(
        vals@,
        n as nat,
        seq as nat,
    ));
    out
}

/// The token tensors of one batch, one row of `seq` values per encoding.
pub struct InputRows {
    pub ids: Vec<Vec<i64>>,
    pub mask: Vec<Vec<i64>>,
    pub type_ids: Vec<Vec<i64>>,
    pub positions: Vec<Vec<i64>>,
}

/// Ids and attention mask are read pairwise (as far as both reach), type
/// ids on their own, positions count from zero; every row is zero-padded
/// to `seq`.
pub fn input_rows(ids: &Vec<Vec<u32>>, mask: &Vec<Vec<u32>>, type_ids: &Vec<Vec<u32>>, seq: usize) -> (r:
    InputRows)
    requires
        ids.len() == mask.len(),
        ids.len() == type_ids.len(),
    ensures
        r.ids.len() == ids.len() && r.mask.len() == ids.len(),
        r.type_ids.len() == ids.len() && r.positions.len() == ids.len(),
        forall|i: int|
            0 <= i < ids.len() ==> {
                let n = if ids@[i]@.len() < mask@[i]@.len() {
                    ids@[i]@.len()
                } else {
                    mask@[i]@.len()
                };
                &&& (#[trigger] r.ids@[i])@ == padded_row(ids@[i]@, n, seq as nat)
                &&& r.mask@[i]@ == padded_row(mask@[i]@, n, seq as nat)
                &&& r.type_ids@[i]@ == padded_row(type_ids@[i]@, type_ids@[i]@.len(), seq as nat)
                &&& r.positions@[i]@ == Seq::new(seq as nat, |j: int| j as i64)
            },
{
    let mut out = InputRows { ids: Vec::new(), mask: Vec::new(), type_ids: Vec::new(), positions: Vec::new() };
    let mut i: usize = 0;
    while i < ids.len()
        invariant
            i <= ids.len(),
            ids.len() == mask.len(),
            ids.len() == type_ids.len(),
            out.ids.len() == i && out.mask.len() == i,
            out.type_ids.len() == i && out.positions.len() == i,
            forall|k: int|
                0 <= k < i ==> {
                    let n = if ids@[k]@.len() < mask@[k]@.len() {
                        ids@[k]@.len()
                    } else {
                        mask@[k]@.len()
                    };
                    &&& (#[trigger] out.ids@[k])@ == padded_row(ids@[k]@, n, seq as nat)
                    &&& out.mask@[k]@ == padded_row(mask@[k]@, n, seq as nat)
                    &&& out.type_ids@[k]@ == padded_row(
                        type_ids@[k]@,
                        type_ids@[k]@.len(),
                        seq as nat,
                    )
                    &&& out.positions@[k]@ == Seq::new(seq as nat, |j: int| j as i64)
                },
        decreases ids.len() - i,
    {
        let n = if ids[i].len() < mask[i].len() {
            ids[i].len()
        } else {
            mask[i].len()
        };
        out.ids.push(pad_row(&ids[i], n, seq));
        out.mask.push(pad_row(&mask[i], n, seq));
        out.type_ids.push(pad_row(&type_ids[i], type_ids[i].len(), seq));
        let mut pos: Vec<i64> = Vec::new();
        let mut j: usize = 0;
        while j < seq
            invariant
                j <= seq,
                pos@ == Seq::new(j as nat, |q: int| q as i64),
            decreases seq - j,
        {
            pos.push(j as i64);
            j += 1;
            assert(pos@ =~= Seq::new(j as nat, |q: int| q as i64));
        }
        out.positions.push(pos);
        i += 1;
    }
    out
}

/// Text embedded for a query: last-token models get the instruction
/// prompt, the others the bare query.
pub open spec fn query_text_spec(pooling: Pooling, instruct: Seq<char>, query: Seq<char>) -> Seq<char> {
    match pooling {
        Pooling::Last => "Instruct: "@ + instruct + "\nQuery:"@ + query,
        _ => query,
    }
}

/// Text embedded for a query.
pub fn query_text(pooling: Pooling, instruct: &str, query: &str) -> (r: String)
    ensures
        r@ == query_text_spec(pooling, instruct@, query@),
{
    match pooling {
        Pooling::Last => {
            let mut s = String::from_str("Instruct: ");
            s.append(instruct);
            s.append("\nQuery:");
            s.append(query);
            s
        },
        _ => String::from_str(query),
    }
}

/// Row a last-token model is pooled from: the last attended token (the
/// first row when none is).
pub open spec fn last_attended_spec(mask: Seq<i64>) -> nat
    decreases mask.len(),
{
    if mask.len() == 0 {
        0
    } else if mask.last() == 1 {
        (mask.len() - 1) as nat
    } else {
        last_attended_spec(mask.drop_last())
    }
}

/// Index of the last token with mask 1 in a mask row (0 when none).
pub fn last_attended(mask: &Vec<i64>) -> (r: usize)
    ensures
        r == last_attended_spec(mask@),
{
    let mut last: usize = 0;
    let mut j: usize = 0;
    while j < mask.len()
        invariant
            j <= mask.len(),
            last == last_attended_spec(mask@.take(j as int)),
        decreases mask.len() - j,
    {
        assert(mask@.take(j + 1).drop_last() =~= mask@.take(j as int));
        if mask[j] == 1 {
            last = j;
        }
        j += 1;
    }
    assert(mask@.take(mask.len() as int) =~= mask@);
    last
}

} // verus!
