use vstd::prelude::*;
use crate::layout::{fits, plan, LayoutView, RowLayout, MAX_FIELDS};
use crate::types::{
    is_supported, matches_type, schema_types, supported, values_match, Column, Field,
    RecordBatch, RowError, Schema,
};
use crate::writer::{encode_row, row_input_ok, write_row, RowWriter};

verus! {

/// The schema can be laid out: few enough fields, each of a supported type.
pub open spec fn schema_ok(fields: Seq<Field>) -> bool {
    &&& fields.len() <= MAX_FIELDS
    &&& forall|i: int| 0 <= i < fields.len() ==> is_supported(#[trigger] fields[i].data_type)
}

/// `e` is the error a schema is refused with: too many fields, else the
/// first field of an unsupported type.
pub open spec fn schema_rejects(fields: Seq<Field>, e: RowError) -> bool {
    if fields.len() > MAX_FIELDS {
        e == RowError::TooManyFields
    } else {
        exists|f: usize|
            e == (RowError::UnsupportedType { field: f }) && f < fields.len()
                && !is_supported(#[trigger] fields[f as int].data_type)
                && forall|g: int| 0 <= g < f ==> is_supported(#[trigger] fields[g].data_type)
    }
}

/// The columns have one column per field, each of its field's type.
pub open spec fn columns_match(fields: Seq<Field>, cols: Seq<Column>) -> bool {
    &&& cols.len() == fields.len()
    &&& forall|i: int| 0 <= i < cols.len() ==> values_match(fields[i].data_type, #[trigger] cols[i].spec_values())
}

/// `e` is the error columns are refused with: a column count other than the
/// field count, else the first column whose type is not its field's.
pub open spec fn columns_reject(fields: Seq<Field>, cols: Seq<Column>, e: RowError) -> bool {
    if cols.len() != fields.len() {
        e == RowError::ColumnCountMismatch
    } else {
        exists|f: usize|
            e == (RowError::TypeMismatch { field: f }) && f < fields.len()
                && !values_match(fields[f as int].data_type, #[trigger] cols[f as int].spec_values())
                && forall|g: int| 0 <= g < f ==> values_match(fields[g].data_type, #[trigger] cols[g].spec_values())
    }
}

/// Number of rows from `row_idx` to the end of a batch of `num_rows` rows.
pub open spec fn rows_from(num_rows: nat, row_idx: nat) -> nat {
    if row_idx < num_rows { (num_rows - row_idx) as nat } else { 0 }
}

/// An output of `len` bytes holds `k` rows of `w` bytes from `offset` on.
pub open spec fn output_holds(len: nat, offset: nat, k: nat, w: nat) -> bool {
    k == 0 || offset + k * w <= len
}

/// `after` is `before` with rows `row_idx`, `row_idx + 1`, ... (`k` of them) of
/// the columns encoded under `l` back to back from `offset` on, and `offsets`
/// holds where each starts; every other byte is unchanged.
pub open spec fn rows_written(
    before: Seq<u8>,
    after: Seq<u8>,
    offsets: Seq<usize>,
    offset: nat,
    l: LayoutView,
    cols: Seq<Column>,
    row_idx: nat,
    k: nat,
) -> bool {
    &&& offsets.len() == k
    &&& after.len() == before.len()
    &&& forall|j: int| 0 <= j < k ==> #[trigger] offsets[j] == offset + j * l.width
    &&& forall|j: int|
        0 <= j < k ==> after.subrange(#[trigger] offsets[j] as int, offsets[j] + l.width) == encode_row(
            l,
            cols,
            row_idx + j,
        )
    &&& forall|p: int|
        0 <= p < before.len() && !(offset <= p < offset + k * l.width) ==> #[trigger] after[p] == before[p]
}

/// Checks that the schema can be laid out.
pub fn check_schema(schema: &Schema) -> (r: Result<(), RowError>)
    ensures
        r.is_ok() <==> schema_ok(schema.fields@),
        r matches Err(e) ==> schema_rejects(schema.fields@, e),
{
    let n = schema.fields.len();
    if n > MAX_FIELDS {
        return Err(RowError::TooManyFields);
    }
    let mut i: usize = 0;
    while i < n
        invariant
            i <= n == schema.fields@.len() <= MAX_FIELDS,
            forall|g: int| 0 <= g < i ==> is_supported(#[trigger] schema.fields@[g].data_type),
        decreases n - i,
    {
        if !supported(schema.fields[i].data_type) {
            let e = RowError::UnsupportedType { field: i };
            proof {
                assert(schema_rejects(schema.fields@, e)) by {
                    assert(!is_supported(schema.fields@[i as int].data_type));
                }
            }
            return Err(e);
        }
        i += 1;
    }
    Ok(())
}

/// Checks that the columns have one column per schema field, each of its
/// field's type.
pub fn check_columns(schema: &Schema, columns: &Vec<Column>) -> (r: Result<(), RowError>)
    ensures
        r.is_ok() <==> columns_match(schema.fields@, columns@),
        r matches Err(e) ==> columns_reject(schema.fields@, columns@, e),
{
    let n = schema.fields.len();
    if columns.len() != n {
        return Err(RowError::ColumnCountMismatch);
    }
    let mut i: usize = 0;
    while i < n
        invariant
            i <= n == schema.fields@.len() == columns@.len(),
            forall|g: int| 0 <= g < i ==> values_match(schema.fields@[g].data_type, #[trigger] columns@[g].spec_values()),
        decreases n - i,
    {
        if !matches_type(schema.fields[i].data_type, columns[i].values()) {
            let e = RowError::TypeMismatch { field: i };
            proof {
                assert(columns_reject(schema.fields@, columns@, e)) by {
                    assert(!values_match(schema.fields@[i as int].data_type, columns@[i as int].spec_values()));
                }
            }
            return Err(e);
        }
        i += 1;
    }
    Ok(())
}

/// Writes `src` into `output` from position `at` on.
fn copy_into(output: &mut [u8], at: usize, src: &[u8])
    requires
        at + src@.len() <= old(output)@.len(),
    ensures
        final(output)@.len() == old(output)@.len(),
        forall|p: int|
            0 <= p < old(output)@.len() ==> #[trigger] final(output)@[p] == if at <= p < at + src@.len() {
                src@[p - at]
            } else {
                old(output)@[p]
            },
{
    let n = src.len();
    let len = output.len();
    let mut q: usize = 0;
    while q < n
        invariant
            n == src@.len(),
            len == old(output)@.len(),
            at + n <= output@.len() == old(output)@.len(),
            q <= n,
            forall|p: int|
                0 <= p < old(output)@.len() ==> #[trigger] output@[p] == if at <= p < at + q {
                    src@[p - at]
                } else {
                    old(output)@[p]
                },
        decreases n - q,
    {
        output[at + q] = src[q];
        q += 1;
    }
}

proof fn lemma_row_slots(j: nat, d: nat, w: nat)
    requires
        j < d,
    ensures
        j * w + w <= d * w,
        (j + 1) * w == j * w + w,
{
    assert(j * w + w <= d * w) by (nonlinear_arith)
        requires
            j < d,
    ;
    assert((j + 1) * w == j * w + w) by (nonlinear_arith);
}

/// Encodes the rows of `batch` from `row_idx` on into `output`, back to back
/// from `offset` on, and returns the offset at which each row starts. The
/// output must hold every row.
pub fn write_batch_unchecked(
    output: &mut [u8],
    offset: usize,
    batch: &RecordBatch,
    row_idx: usize,
    schema: &Schema,
) -> (r: Vec<usize>)
    requires
        schema_ok(schema.fields@),
        columns_match(schema.fields@, batch.spec_columns()),
        output_holds(
            old(output)@.len(),
            offset as nat,
            rows_from(batch.spec_num_rows(), row_idx as nat),
            plan(schema.fields@).width,
        ),
    ensures
        rows_written(
            old(output)@,
            final(output)@,
            r@,
            offset as nat,
            plan(schema.fields@),
            batch.spec_columns(),
            row_idx as nat,
            rows_from(batch.spec_num_rows(), row_idx as nat),
        ),
{
    let ghost l = plan(schema.fields@);
    let ghost w = l.width;
    let ghost k = rows_from(batch.spec_num_rows(), row_idx as nat);
    let ghost cols = batch.spec_columns();
    let mut writer = RowWriter::new(schema);
    proof {
        writer.lemma_wf();
    }
    let mut current_offset = offset;
    let mut offsets: Vec<usize> = Vec::new();
    let columns = batch.columns();
    let num_rows = batch.num_rows();
    let out_len = output.len();
    if row_idx >= num_rows {
        proof {
            assert(output@ =~= old(output)@);
        }
        return offsets;
    }
    let mut cur_row = row_idx;
    while cur_row < num_rows
        invariant
            schema_ok(schema.fields@),
            l == plan(schema.fields@),
            w == l.width,
            w <= usize::MAX,
            cols == batch.spec_columns(),
            columns_match(schema.fields@, cols),
            columns@ == cols,
            forall|i: int| 0 <= i < columns@.len() ==> #[trigger] columns@[i].spec_len() == num_rows,
            num_rows == batch.spec_num_rows(),
            k == rows_from(num_rows as nat, row_idx as nat),
            output_holds(old(output)@.len(), offset as nat, k, w),
            writer.wf(),
            writer.spec_layout() == l,
            fits(l, schema_types(schema.fields@)),
            writer@ == crate::bytes::zeros(w),
            offsets@.len() == cur_row - row_idx,
            offsets@.len() <= k,
            current_offset == offset + offsets@.len() * w,
            output@.len() == old(output)@.len() == out_len,
            forall|j: int| 0 <= j < offsets@.len() ==> #[trigger] offsets@[j] == offset + j * w,
            forall|j: int|
                0 <= j < offsets@.len() ==> output@.subrange(#[trigger] offsets@[j] as int, offsets@[j] + w)
                    == encode_row(l, cols, row_idx + j),
            forall|p: int|
                0 <= p < old(output)@.len() && !(offset <= p < offset + offsets@.len() * w)
                    ==> #[trigger] output@[p] == old(output)@[p],
        decreases num_rows - cur_row,
    {
        let ghost done = offsets@.len();
        proof {
            lemma_row_slots(done, k, w);
            assert(row_input_ok(l, schema.fields@, cols, cur_row as int));
        }
        offsets.push(current_offset);
        let row_width = write_row(&mut writer, cur_row, schema, columns);
        let ghost before = output@;
        copy_into(output, current_offset, writer.get_row());
        proof {
            assert forall|j: int| 0 <= j < offsets@.len() implies output@.subrange(
                #[trigger] offsets@[j] as int,
                offsets@[j] + w,
            ) == encode_row(l, cols, row_idx + j) by {
                if j < done {
                    lemma_row_slots(j as nat, done, w);
                    assert(output@.subrange(offsets@[j] as int, offsets@[j] + w) =~= before.subrange(
                        offsets@[j] as int,
                        offsets@[j] + w,
                    ));
                } else {
                    assert(output@.subrange(offsets@[j] as int, offsets@[j] + w) =~= writer@);
                }
            }
        }
        current_offset = current_offset + row_width;
        writer.reset();
        cur_row += 1;
    }
    offsets
}

/// Encodes the rows of `batch` from `row_idx` on into `output` as
/// `write_batch_unchecked` does, after checking the schema, the columns and
/// that the output holds every row; on an error the output is left as it was.
pub fn write_batch(
    output: &mut [u8],
    offset: usize,
    batch: &RecordBatch,
    row_idx: usize,
    schema: &Schema,
) -> (r: Result<Vec<usize>, RowError>)
    ensures
        !schema_ok(schema.fields@) ==> (r matches Err(e) && schema_rejects(schema.fields@, e)),
        schema_ok(schema.fields@) && !columns_match(schema.fields@, batch.spec_columns()) ==> (r matches Err(e)
            && columns_reject(schema.fields@, batch.spec_columns(), e)),
        schema_ok(schema.fields@) && columns_match(schema.fields@, batch.spec_columns()) && !output_holds(
            old(output)@.len(),
            offset as nat,
            rows_from(batch.spec_num_rows(), row_idx as nat),
            plan(schema.fields@).width,
        ) ==> r == Err::<Vec<usize>, RowError>(RowError::OutputTooSmall),
        r is Ok <==> schema_ok(schema.fields@) && columns_match(schema.fields@, batch.spec_columns())
            && output_holds(
            old(output)@.len(),
            offset as nat,
            rows_from(batch.spec_num_rows(), row_idx as nat),
            plan(schema.fields@).width,
        ),
        r is Err ==> final(output)@ == old(output)@,
        r matches Ok(v) ==> rows_written(
            old(output)@,
            final(output)@,
            v@,
            offset as nat,
            plan(schema.fields@),
            batch.spec_columns(),
            row_idx as nat,
            rows_from(batch.spec_num_rows(), row_idx as nat),
        ),
{
    match check_schema(schema) {
        Err(e) => return Err(e),
        Ok(()) => {},
    }
    match check_columns(schema, batch.columns()) {
        Err(e) => return Err(e),
        Ok(()) => {},
    }
    let layout = RowLayout::new(schema);
    let width = layout.fixed_part_width();
    let num_rows = batch.num_rows();
    let k: usize = if row_idx < num_rows { num_rows - row_idx } else { 0 };
    let len = output.len();
    let holds = k == 0 || (offset <= len && (width == 0 || k <= (len - offset) / width));
    proof {
        if k > 0 && offset <= len && width > 0 {
            lemma_fits_div(k as nat, width as nat, (len - offset) as nat);
        }
    }
    if !holds {
        return Err(RowError::OutputTooSmall);
    }
    Ok(write_batch_unchecked(output, offset, batch, row_idx, schema))
}

proof fn lemma_fits_div(k: nat, w: nat, m: nat)
    requires
        w > 0,
    ensures
        k * w <= m <==> k <= m / w,
{
    assert(k * w <= m <==> k <= m / w) by (nonlinear_arith)
        requires
            w > 0,
    ;
}

/// The batches of each group, one after the other.
pub open spec fn flatten(groups: Seq<Vec<RecordBatch>>) -> Seq<RecordBatch>
    decreases groups.len(),
{
    if groups.len() == 0 {
        Seq::empty()
    } else {
        flatten(groups.drop_last()) + groups.last()@
    }
}

/// Total number of rows of the batches.
pub open spec fn total_rows(batches: Seq<RecordBatch>) -> nat
    decreases batches.len(),
{
    if batches.len() == 0 {
        0
    } else {
        total_rows(batches.drop_last()) + batches.last().spec_num_rows()
    }
}

pub proof fn lemma_flatten_append(a: Seq<Vec<RecordBatch>>, b: Seq<Vec<RecordBatch>>)
    ensures
        flatten(a + b) == flatten(a) + flatten(b),
    decreases b.len(),
{
    if b.len() == 0 {
        assert(a + b =~= a);
        assert(flatten(a) + flatten(b) =~= flatten(a));
    } else {
        lemma_flatten_append(a, b.drop_last());
        assert((a + b).drop_last() =~= a + b.drop_last());
        assert(flatten(a) + flatten(b.drop_last()) + b.last()@ =~= flatten(a) + (flatten(b.drop_last())
            + b.last()@));
    }
}

/// Encodes every row of every batch, in order, and returns the width of each
/// encoded row; fails when the schema cannot be laid out or a batch's
/// columns do not match it, with the error of the first such batch.
pub fn bench_write_batch(batches: &[Vec<RecordBatch>], schema: &Schema) -> (r: Result<Vec<usize>, RowError>)
    ensures
        r is Ok <==> schema_ok(schema.fields@) && forall|b: int|
            0 <= b < flatten(batches@).len() ==> columns_match(
                schema.fields@,
                #[trigger] flatten(batches@)[b].spec_columns(),
            ),
        !schema_ok(schema.fields@) ==> (r matches Err(e) && schema_rejects(schema.fields@, e)),
        schema_ok(schema.fields@) && r is Err ==> (r matches Err(e) && exists|f: int|
            0 <= f < flatten(batches@).len() && columns_reject(
                schema.fields@,
                #[trigger] flatten(batches@)[f].spec_columns(),
                e,
            ) && forall|g: int| 0 <= g < f ==> columns_match(schema.fields@, #[trigger] flatten(batches@)[g].spec_columns())),
        r matches Ok(v) ==> v@ == Seq::new(total_rows(flatten(batches@)), |i: int| plan(schema.fields@).width as usize),
{
    match check_schema(schema) {
        Err(e) => return Err(e),
        Ok(()) => {},
    }
    let ghost l = plan(schema.fields@);
    let ghost all = flatten(batches@);
    let mut writer = RowWriter::new(schema);
    proof {
        writer.lemma_wf();
    }
    let mut lengths: Vec<usize> = Vec::new();
    let mut b: usize = 0;
    while b < batches.len()
        invariant
            schema_ok(schema.fields@),
            l == plan(schema.fields@),
            all == flatten(batches@),
            b <= batches@.len(),
            writer.wf(),
            writer.spec_layout() == l,
            writer@ == crate::bytes::zeros(l.width),
            l.width <= usize::MAX,
            fits(l, schema_types(schema.fields@)),
            forall|g: int| 0 <= g < flatten(batches@.take(b as int)).len() ==> columns_match(
                schema.fields@,
                #[trigger] flatten(batches@.take(b as int))[g].spec_columns(),
            ),
            lengths@ == Seq::new(total_rows(flatten(batches@.take(b as int))), |i: int| l.width as usize),
        decreases batches@.len() - b,
    {
        let group = &batches[b];
        let ghost done = flatten(batches@.take(b as int));
        proof {
            lemma_flatten_append(batches@.take(b as int), batches@.subrange(b as int, batches@.len() as int));
            assert(batches@.take(b as int) + batches@.subrange(b as int, batches@.len() as int) =~= batches@);
            assert(batches@.subrange(b as int, batches@.len() as int) =~= seq![batches@[b as int]]
                + batches@.subrange(b + 1, batches@.len() as int));
            lemma_flatten_append(seq![batches@[b as int]], batches@.subrange(b + 1, batches@.len() as int));
            assert(seq![batches@[b as int]].drop_last() =~= Seq::<Vec<RecordBatch>>::empty());
            assert(flatten(seq![batches@[b as int]].drop_last()) == Seq::<RecordBatch>::empty());
            assert(Seq::<RecordBatch>::empty() + group@ =~= group@);
            assert(flatten(seq![batches@[b as int]]) =~= group@);
            assert(batches@.take(b + 1).drop_last() =~= batches@.take(b as int));
        }
        let mut c: usize = 0;
        while c < group.len()
            invariant
                schema_ok(schema.fields@),
                l == plan(schema.fields@),
                all == flatten(batches@),
                b < batches@.len(),
                *group == batches@[b as int],
                done == flatten(batches@.take(b as int)),
                all == done + group@ + flatten(batches@.subrange(b + 1, batches@.len() as int)),
                c <= group@.len(),
                writer.wf(),
                writer.spec_layout() == l,
                writer@ == crate::bytes::zeros(l.width),
                l.width <= usize::MAX,
                fits(l, schema_types(schema.fields@)),
                forall|g: int| 0 <= g < (done + group@.take(c as int)).len() ==> columns_match(
                    schema.fields@,
                    #[trigger] (done + group@.take(c as int))[g].spec_columns(),
                ),
                lengths@ == Seq::new(total_rows(done + group@.take(c as int)), |i: int| l.width as usize),
            decreases group@.len() - c,
        {
            let batch = &group[c];
            let ghost before = done + group@.take(c as int);
            let ghost after = done + group@.take(c + 1);
            proof {
                assert(after.drop_last() =~= before);
                assert(after.last() == *batch);
                assert(all[before.len() as int] == *batch);
                assert forall|g: int| 0 <= g < before.len() implies #[trigger] all[g] == before[g] by {}
            }
            match check_columns(schema, batch.columns()) {
                Err(e) => {
                    proof {
                        let f = before.len() as int;
                        assert(columns_reject(schema.fields@, all[f].spec_columns(), e));
                        assert forall|g: int| 0 <= g < f implies columns_match(
                            schema.fields@,
                            #[trigger] all[g].spec_columns(),
                        ) by {
                            assert(all[g] == before[g]);
                        }
                    }
                    return Err(e);
                },
                Ok(()) => {},
            }
            let columns = batch.columns();
            let num_rows = batch.num_rows();
            let mut cur_row: usize = 0;
            let ghost base = lengths@.len();
            while cur_row < num_rows
                invariant
                    schema_ok(schema.fields@),
                    columns_match(schema.fields@, columns@),
                    forall|i: int| 0 <= i < columns@.len() ==> #[trigger] columns@[i].spec_len() == num_rows,
                    cur_row <= num_rows,
                    l == plan(schema.fields@),
                    writer.wf(),
                    writer.spec_layout() == l,
                    writer@ == crate::bytes::zeros(l.width),
                    fits(l, schema_types(schema.fields@)),
                    lengths@ == Seq::new((base + cur_row) as nat, |i: int| l.width as usize),
                decreases num_rows - cur_row,
            {
                proof {
                    assert(row_input_ok(l, schema.fields@, columns@, cur_row as int));
                }
                let row_width = write_row(&mut writer, cur_row, schema, columns);
                lengths.push(row_width);
                writer.reset();
                cur_row += 1;
                proof {
                    assert(lengths@ =~= Seq::new((base + cur_row) as nat, |i: int| l.width as usize));
                }
            }
            c += 1;
            proof {
                assert forall|g: int| 0 <= g < after.len() implies columns_match(
                    schema.fields@,
                    #[trigger] after[g].spec_columns(),
                ) by {
                    if g < before.len() {
                        assert(after[g] == before[g]);
                    }
                }
            }
        }
        b += 1;
        proof {
            assert(done + group@.take(group@.len() as int) =~= done + group@);
        }
    }
    proof {
        assert(batches@.take(batches@.len() as int) =~= batches@);
    }
    Ok(lengths)
}

} // verus!
