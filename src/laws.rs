use vstd::prelude::*;
use crate::batch::rows_written;
use crate::bytes::{bit_of, le_byte, lemma_with_bit, with_bit, zeros};
use crate::layout::LayoutView;
use crate::types::{lemma_match_width, schema_types, type_width, value_bits, values_width, Column, Field};
use crate::writer::{encode_fields, encode_row, put_field, row_input_ok};

verus! {

/// Byte `p` of field `i`'s value slot in the encoding of row `r`: the value's
/// little-endian byte when it is written, zero when the field is null.
pub open spec fn slot_byte(l: LayoutView, cols: Seq<Column>, r: int, i: int, p: nat) -> u8 {
    if l.null_free || !cols[i].spec_is_null(r) {
        le_byte(value_bits(cols[i].spec_values(), r), p)
    } else {
        0
    }
}

proof fn lemma_prefix(l: LayoutView, fields: Seq<Field>, cols: Seq<Column>, r: int, n: nat)
    requires
        row_input_ok(l, fields, cols, r),
        n <= cols.len(),
    ensures
        encode_fields(zeros(l.width), l, cols, r, n).len() == l.width,
        forall|i: int, p: nat|
            0 <= i < n && p < type_width(fields[i].data_type) ==> #[trigger] encode_fields(
                zeros(l.width),
                l,
                cols,
                r,
                n,
            )[(l.offsets[i] + p) as int] == slot_byte(l, cols, r, i, p),
        forall|i: int, p: nat|
            n <= i < cols.len() && p < type_width(fields[i].data_type) ==> #[trigger] encode_fields(
                zeros(l.width),
                l,
                cols,
                r,
                n,
            )[(l.offsets[i] + p) as int] == 0u8,
        !l.null_free ==> forall|i: int|
            0 <= i < n ==> #[trigger] bit_of(encode_fields(zeros(l.width), l, cols, r, n), i as nat)
                == !cols[i].spec_is_null(r),
    decreases n,
{
    let types = schema_types(fields);
    let e = encode_fields(zeros(l.width), l, cols, r, n);
    if n == 0 {
        return;
    }
    let m = (n - 1) as nat;
    let prev = encode_fields(zeros(l.width), l, cols, r, m);
    lemma_prefix(l, fields, cols, r, m);
    let i = m as int;
    assert(types[i] == fields[i].data_type);
    lemma_match_width(types[i], cols[i].spec_values());
    let v = cols[i].spec_values();
    let off = l.offsets[i] as int;
    let w = values_width(v);
    assert(e == put_field(prev, l, cols, r, i));
    if !l.null_free {
        assert(i / 8 < l.null_width) by {
            assert(i < 8 * l.null_width);
        }
    }
    // Bytes outside field `i`'s slot and bitmap byte keep their values.
    assert forall|q: int|
        0 <= q < l.width && !(off <= q < off + w) && (l.null_free || q != i / 8) implies #[trigger] e[q]
        == prev[q] by {}
    assert forall|j: int, p: nat|
        0 <= j < n && p < type_width(fields[j].data_type) implies #[trigger] e[(l.offsets[j] + p) as int] == slot_byte(
        l,
        cols,
        r,
        j,
        p,
    ) by {
        assert(types[j] == fields[j].data_type);
        if j < i {
            assert(l.offsets[j] + type_width(types[j]) <= l.offsets[i]);
        }
    }
    assert forall|j: int, p: nat|
        n <= j < cols.len() && p < type_width(fields[j].data_type) implies #[trigger] e[(l.offsets[j] + p) as int]
        == 0u8 by {
        assert(types[j] == fields[j].data_type);
        assert(l.offsets[i] + type_width(types[i]) <= l.offsets[j]);
    }
    if !l.null_free {
        assert forall|j: int| 0 <= j < n implies #[trigger] bit_of(e, j as nat) == !cols[j].spec_is_null(r) by {
            assert(j / 8 < l.null_width) by {
                assert(j < 8 * l.null_width);
            }
            let mid = if cols[i].spec_is_null(r) {
                with_bit(prev, i as nat, false)
            } else {
                with_bit(prev, i as nat, true)
            };
            lemma_with_bit(prev, i as nat, !cols[i].spec_is_null(r), j as nat);
            if !cols[i].spec_is_null(r) {
                assert(e[j / 8] == mid[j / 8]);
            }
        }
    }
}

/// Encoding depends on the values and null flags of the row alone: columns
/// that agree on them at the row encode to the same bytes.
pub proof fn lemma_deterministic(l: LayoutView, a: Seq<Column>, b: Seq<Column>, r: int, s: int)
    requires
        a.len() == b.len(),
        forall|i: int|
            0 <= i < a.len() ==> values_width(#[trigger] a[i].spec_values()) == values_width(b[i].spec_values())
                && value_bits(a[i].spec_values(), r) == value_bits(b[i].spec_values(), s)
                && a[i].spec_is_null(r) == b[i].spec_is_null(s),
    ensures
        encode_row(l, a, r) == encode_row(l, b, s),
{
    lemma_fields_agree(l, a, b, r, s, a.len());
}

proof fn lemma_fields_agree(l: LayoutView, a: Seq<Column>, b: Seq<Column>, r: int, s: int, n: nat)
    requires
        a.len() == b.len(),
        n <= a.len(),
        forall|i: int|
            0 <= i < a.len() ==> values_width(#[trigger] a[i].spec_values()) == values_width(b[i].spec_values())
                && value_bits(a[i].spec_values(), r) == value_bits(b[i].spec_values(), s)
                && a[i].spec_is_null(r) == b[i].spec_is_null(s),
    ensures
        encode_fields(zeros(l.width), l, a, r, n) == encode_fields(zeros(l.width), l, b, s, n),
    decreases n,
{
    if n > 0 {
        lemma_fields_agree(l, a, b, r, s, (n - 1) as nat);
        let i = n - 1;
        assert(values_width(a[i].spec_values()) == values_width(b[i].spec_values()));
    }
}

/// Every encoded row is exactly as wide as the layout's fixed part.
pub proof fn lemma_fixed_width(l: LayoutView, fields: Seq<Field>, cols: Seq<Column>, r: int)
    requires
        row_input_ok(l, fields, cols, r),
    ensures
        encode_row(l, cols, r).len() == l.width,
{
    lemma_prefix(l, fields, cols, r, cols.len());
}

/// Under a layout with a bitmap, a field's bit is clear exactly when its value
/// is null, and a null field's value slot is all zero bytes.
pub proof fn lemma_null_round_trip(l: LayoutView, fields: Seq<Field>, cols: Seq<Column>, r: int)
    requires
        row_input_ok(l, fields, cols, r),
        !l.null_free,
    ensures
        forall|i: int|
            0 <= i < cols.len() ==> #[trigger] bit_of(encode_row(l, cols, r), i as nat) == !cols[i].spec_is_null(
                r,
            ),
        forall|i: int, p: nat|
            0 <= i < cols.len() && cols[i].spec_is_null(r) && p < type_width(fields[i].data_type)
                ==> #[trigger] encode_row(l, cols, r)[(l.offsets[i] + p) as int] == 0u8,
{
    lemma_prefix(l, fields, cols, r, cols.len());
}

/// A field that is present has the little-endian bytes of its value in its slot.
pub proof fn lemma_value_slots(l: LayoutView, fields: Seq<Field>, cols: Seq<Column>, r: int)
    requires
        row_input_ok(l, fields, cols, r),
    ensures
        forall|i: int, p: nat|
            0 <= i < cols.len() && (l.null_free || !cols[i].spec_is_null(r)) && p < type_width(
                fields[i].data_type,
            ) ==> #[trigger] encode_row(l, cols, r)[(l.offsets[i] + p) as int] == le_byte(
                value_bits(cols[i].spec_values(), r),
                p,
            ),
{
    lemma_prefix(l, fields, cols, r, cols.len());
}

/// A row without nulls has the same value bytes under a null-free layout as
/// under a layout with a bitmap, where every bit is set: the null-free layout
/// only leaves the bitmap out.
pub proof fn lemma_null_free_equivalence(
    free: LayoutView,
    with_nulls: LayoutView,
    fields: Seq<Field>,
    cols: Seq<Column>,
    r: int,
)
    requires
        row_input_ok(free, fields, cols, r),
        row_input_ok(with_nulls, fields, cols, r),
        free.null_free,
        !with_nulls.null_free,
        forall|i: int| 0 <= i < cols.len() ==> !(#[trigger] cols[i].spec_is_null(r)),
    ensures
        forall|i: int, p: nat|
            0 <= i < cols.len() && p < type_width(fields[i].data_type) ==> #[trigger] encode_row(
                free,
                cols,
                r,
            )[(free.offsets[i] + p) as int] == encode_row(with_nulls, cols, r)[(with_nulls.offsets[i] + p) as int],
        forall|i: int| 0 <= i < cols.len() ==> #[trigger] bit_of(encode_row(with_nulls, cols, r), i as nat),
{
    lemma_prefix(free, fields, cols, r, cols.len());
    lemma_prefix(with_nulls, fields, cols, r, cols.len());
}

/// Rows written back to back start at offsets that grow by exactly one row
/// width from one row to the next, strictly when rows are not empty.
pub proof fn lemma_batch_offsets(
    before: Seq<u8>,
    after: Seq<u8>,
    offsets: Seq<usize>,
    offset: nat,
    l: LayoutView,
    cols: Seq<Column>,
    row_idx: nat,
    k: nat,
)
    requires
        rows_written(before, after, offsets, offset, l, cols, row_idx, k),
    ensures
        forall|j: int| 0 <= j < k - 1 ==> offsets[j + 1] == #[trigger] offsets[j] + l.width,
        l.width > 0 ==> forall|i: int, j: int| 0 <= i < j < k ==> #[trigger] offsets[i] < #[trigger] offsets[j],
{
    assert forall|j: int| 0 <= j < k - 1 implies offsets[j + 1] == #[trigger] offsets[j] + l.width by {
        assert((j + 1) * l.width == j * l.width + l.width) by (nonlinear_arith);
    }
    if l.width > 0 {
        assert forall|i: int, j: int| 0 <= i < j < k implies #[trigger] offsets[i] < #[trigger] offsets[j] by {
            assert(i * l.width < j * l.width) by (nonlinear_arith)
                requires
                    i < j,
                    l.width > 0,
            ;
        }
    }
}

} // verus!
