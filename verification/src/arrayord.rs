//! Ordering over dynamically typed columns.
//!
//! A column arrives as an untrusted, dynamically typed bundle of buffers;
//! [`ArrayOrd::new`] checks its shape once and wraps it so that entries of
//! two same-typed columns can be compared. [`ArrayIdx`] names one entry of
//! one column; comparing two of them orders whole rows: absent entries sort
//! last, lists compare element by element with the shorter prefix first,
//! and structures compare field by field. Floating-point columns have no
//! place here, since their ordering is not a total order over plain values.

use vstd::prelude::*;
use vstd::string::StrSliceExecFns;

verus! {

broadcast use vstd::seq::axiom_seq_index_decreases, vstd::std_specs::vec::axiom_vec_decreases_to_view;

/// An untrusted, dynamically typed column: the buffers as a caller
/// assembled them, before their shape has been checked.
#[derive(Debug)]
pub enum ColumnData {
    /// A column of nothing but absent entries.
    Null {
        /// The number of entries.
        len: usize,
    },
    /// Truth values.
    Bool {
        /// Which entries are absent, if any can be.
        nulls: Option<Vec<bool>>,
        /// The entries.
        values: Vec<bool>,
    },
    /// Signed 8-bit numbers.
    Int8 {
        /// Which entries are absent, if any can be.
        nulls: Option<Vec<bool>>,
        /// The entries.
        values: Vec<i8>,
    },
    /// Signed 16-bit numbers.
    Int16 {
        /// Which entries are absent, if any can be.
        nulls: Option<Vec<bool>>,
        /// The entries.
        values: Vec<i16>,
    },
    /// Signed 32-bit numbers.
    Int32 {
        /// Which entries are absent, if any can be.
        nulls: Option<Vec<bool>>,
        /// The entries.
        values: Vec<i32>,
    },
    /// Signed 64-bit numbers.
    Int64 {
        /// Which entries are absent, if any can be.
        nulls: Option<Vec<bool>>,
        /// The entries.
        values: Vec<i64>,
    },
    /// Unsigned 8-bit numbers.
    UInt8 {
        /// Which entries are absent, if any can be.
        nulls: Option<Vec<bool>>,
        /// The entries.
        values: Vec<u8>,
    },
    /// Unsigned 16-bit numbers.
    UInt16 {
        /// Which entries are absent, if any can be.
        nulls: Option<Vec<bool>>,
        /// The entries.
        values: Vec<u16>,
    },
    /// Unsigned 32-bit numbers.
    UInt32 {
        /// Which entries are absent, if any can be.
        nulls: Option<Vec<bool>>,
        /// The entries.
        values: Vec<u32>,
    },
    /// Unsigned 64-bit numbers.
    UInt64 {
        /// Which entries are absent, if any can be.
        nulls: Option<Vec<bool>>,
        /// The entries.
        values: Vec<u64>,
    },
    /// Text.
    Utf8 {
        /// Which entries are absent, if any can be.
        nulls: Option<Vec<bool>>,
        /// The entries.
        values: Vec<String>,
    },
    /// Byte strings.
    Binary {
        /// Which entries are absent, if any can be.
        nulls: Option<Vec<bool>>,
        /// The entries.
        values: Vec<Vec<u8>>,
    },
    /// Lists: entry `i` holds the inner values from `offsets[i]` to
    /// `offsets[i + 1]`.
    List {
        /// Which entries are absent, if any can be.
        nulls: Option<Vec<bool>>,
        /// One more offset than there are entries, non-decreasing.
        offsets: Vec<usize>,
        /// The inner values all entries share.
        values: Box<ColumnData>,
    },
    /// Structures: entry `i` is the row of each field's entry `i`.
    Struct {
        /// The number of entries.
        len: usize,
        /// Which entries are absent, if any can be.
        nulls: Option<Vec<bool>>,
        /// The fields.
        fields: Vec<ColumnData>,
    },
}

/// A checked column whose entries can be compared.
#[derive(Debug)]
pub enum ArrayOrd {
    /// A column of nothing but absent entries.
    Null {
        /// The number of entries.
        len: usize,
    },
    /// Truth values.
    Bool {
        /// Which entries are absent, if any can be.
        nulls: Option<Vec<bool>>,
        /// The entries.
        values: Vec<bool>,
    },
    /// Signed 8-bit numbers.
    Int8 {
        /// Which entries are absent, if any can be.
        nulls: Option<Vec<bool>>,
        /// The entries.
        values: Vec<i8>,
    },
    /// Signed 16-bit numbers.
    Int16 {
        /// Which entries are absent, if any can be.
        nulls: Option<Vec<bool>>,
        /// The entries.
        values: Vec<i16>,
    },
    /// Signed 32-bit numbers.
    Int32 {
        /// Which entries are absent, if any can be.
        nulls: Option<Vec<bool>>,
        /// The entries.
        values: Vec<i32>,
    },
    /// Signed 64-bit numbers.
    Int64 {
        /// Which entries are absent, if any can be.
        nulls: Option<Vec<bool>>,
        /// The entries.
        values: Vec<i64>,
    },
    /// Unsigned 8-bit numbers.
    UInt8 {
        /// Which entries are absent, if any can be.
        nulls: Option<Vec<bool>>,
        /// The entries.
        values: Vec<u8>,
    },
    /// Unsigned 16-bit numbers.
    UInt16 {
        /// Which entries are absent, if any can be.
        nulls: Option<Vec<bool>>,
        /// The entries.
        values: Vec<u16>,
    },
    /// Unsigned 32-bit numbers.
    UInt32 {
        /// Which entries are absent, if any can be.
        nulls: Option<Vec<bool>>,
        /// The entries.
        values: Vec<u32>,
    },
    /// Unsigned 64-bit numbers.
    UInt64 {
        /// Which entries are absent, if any can be.
        nulls: Option<Vec<bool>>,
        /// The entries.
        values: Vec<u64>,
    },
    /// Text.
    Utf8 {
        /// Which entries are absent, if any can be.
        nulls: Option<Vec<bool>>,
        /// The entries.
        values: Vec<String>,
    },
    /// Byte strings.
    Binary {
        /// Which entries are absent, if any can be.
        nulls: Option<Vec<bool>>,
        /// The entries.
        values: Vec<Vec<u8>>,
    },
    /// Lists: entry `i` holds the inner values from `offsets[i]` to
    /// `offsets[i + 1]`.
    List {
        /// Which entries are absent, if any can be.
        nulls: Option<Vec<bool>>,
        /// One more offset than there are entries, non-decreasing.
        offsets: Vec<usize>,
        /// The inner values all entries share.
        values: Box<ArrayOrd>,
    },
    /// Structures: entry `i` is the row of each field's entry `i`.
    Struct {
        /// The number of entries.
        len: usize,
        /// Which entries are absent, if any can be.
        nulls: Option<Vec<bool>>,
        /// The fields.
        fields: Vec<ArrayOrd>,
    },
}

/// The shape of a column was not consistent.
#[derive(Clone, Copy, Debug, PartialEq, Eq, Structural)]
pub enum ColumnError {
    /// A null mask's length does not match the entry count.
    NullMaskLength,
    /// A list's offsets are missing, decrease, or point past the inner
    /// values.
    BadOffsets,
    /// A structure's fields do not all have the entry count.
    FieldLength,
}

/// The number of entries of a checked column.
pub open spec fn spec_len(a: ArrayOrd) -> int {
    match a {
        ArrayOrd::Null { len } => len as int,
        ArrayOrd::Bool { values, .. } => values@.len() as int,
        ArrayOrd::Int8 { values, .. } => values@.len() as int,
        ArrayOrd::Int16 { values, .. } => values@.len() as int,
        ArrayOrd::Int32 { values, .. } => values@.len() as int,
        ArrayOrd::Int64 { values, .. } => values@.len() as int,
        ArrayOrd::UInt8 { values, .. } => values@.len() as int,
        ArrayOrd::UInt16 { values, .. } => values@.len() as int,
        ArrayOrd::UInt32 { values, .. } => values@.len() as int,
        ArrayOrd::UInt64 { values, .. } => values@.len() as int,
        ArrayOrd::Utf8 { values, .. } => values@.len() as int,
        ArrayOrd::Binary { values, .. } => values@.len() as int,
        ArrayOrd::List { offsets, .. } => offsets@.len() - 1,
        ArrayOrd::Struct { len, .. } => len as int,
    }
}

/// Whether a null mask fits the entry count.
pub open spec fn mask_wf(nulls: Option<Vec<bool>>, len: int) -> bool {
    match nulls {
        Some(m) => m@.len() == len,
        None => true,
    }
}

/// Whether the entry at an index is absent.
pub open spec fn is_null_at(nulls: Option<Vec<bool>>, i: int) -> bool {
    match nulls {
        Some(m) => m@[i],
        None => false,
    }
}

/// Whether a checked column's shape is consistent: masks match entry
/// counts, list offsets step up within the inner values, and a structure's
/// fields share its entry count.
pub open spec fn wf(a: ArrayOrd) -> bool
    decreases a,
{
    match a {
        ArrayOrd::Null { .. } => true,
        ArrayOrd::Bool { nulls, values } => mask_wf(nulls, values@.len() as int),
        ArrayOrd::Int8 { nulls, values } => mask_wf(nulls, values@.len() as int),
        ArrayOrd::Int16 { nulls, values } => mask_wf(nulls, values@.len() as int),
        ArrayOrd::Int32 { nulls, values } => mask_wf(nulls, values@.len() as int),
        ArrayOrd::Int64 { nulls, values } => mask_wf(nulls, values@.len() as int),
        ArrayOrd::UInt8 { nulls, values } => mask_wf(nulls, values@.len() as int),
        ArrayOrd::UInt16 { nulls, values } => mask_wf(nulls, values@.len() as int),
        ArrayOrd::UInt32 { nulls, values } => mask_wf(nulls, values@.len() as int),
        ArrayOrd::UInt64 { nulls, values } => mask_wf(nulls, values@.len() as int),
        ArrayOrd::Utf8 { nulls, values } => mask_wf(nulls, values@.len() as int),
        ArrayOrd::Binary { nulls, values } => mask_wf(nulls, values@.len() as int),
        ArrayOrd::List { nulls, offsets, values } => {
            &&& offsets@.len() >= 1
            &&& mask_wf(nulls, offsets@.len() - 1)
            &&& forall|i: int|
                0 <= i < offsets@.len() - 1 ==> #[trigger] offsets@[i] <= offsets@[i + 1]
            &&& offsets@.last() <= spec_len(*values)
            &&& wf(*values)
        },
        ArrayOrd::Struct { len, nulls, fields } => {
            &&& mask_wf(nulls, len as int)
            &&& forall|f: int|
                0 <= f < fields@.len() ==> spec_len(#[trigger] fields@[f]) == len as int
            &&& forall|f: int| 0 <= f < fields@.len() ==> wf(#[trigger] fields@[f])
        },
    }
}

/// Whether two checked columns have the same type, so that their entries
/// compare.
pub open spec fn same_type(a: ArrayOrd, b: ArrayOrd) -> bool
    decreases a,
{
    match (a, b) {
        (ArrayOrd::Null { .. }, ArrayOrd::Null { .. }) => true,
        (ArrayOrd::Bool { .. }, ArrayOrd::Bool { .. }) => true,
        (ArrayOrd::Int8 { .. }, ArrayOrd::Int8 { .. }) => true,
        (ArrayOrd::Int16 { .. }, ArrayOrd::Int16 { .. }) => true,
        (ArrayOrd::Int32 { .. }, ArrayOrd::Int32 { .. }) => true,
        (ArrayOrd::Int64 { .. }, ArrayOrd::Int64 { .. }) => true,
        (ArrayOrd::UInt8 { .. }, ArrayOrd::UInt8 { .. }) => true,
        (ArrayOrd::UInt16 { .. }, ArrayOrd::UInt16 { .. }) => true,
        (ArrayOrd::UInt32 { .. }, ArrayOrd::UInt32 { .. }) => true,
        (ArrayOrd::UInt64 { .. }, ArrayOrd::UInt64 { .. }) => true,
        (ArrayOrd::Utf8 { .. }, ArrayOrd::Utf8 { .. }) => true,
        (ArrayOrd::Binary { .. }, ArrayOrd::Binary { .. }) => true,
        (
            ArrayOrd::List { values: va, .. },
            ArrayOrd::List { values: vb, .. },
        ) => same_type(*va, *vb),
        (
            ArrayOrd::Struct { fields: fa, .. },
            ArrayOrd::Struct { fields: fb, .. },
        ) => fa@.len() == fb@.len() && (forall|f: int|
            0 <= f < fa@.len() ==> same_type(#[trigger] fa@[f], fb@[f])),
        _ => false,
    }
}

/// The mathematical value of one entry.
pub enum ColVal {
    /// An absent entry.
    Absent,
    /// A truth value.
    Truth(bool),
    /// A number.
    Number(int),
    /// Text.
    Text(Seq<char>),
    /// A byte string.
    Bytes(Seq<u8>),
    /// A list of values.
    ListV(Seq<ColVal>),
    /// A row of field values.
    Row(Seq<ColVal>),
}

/// The value of the entry at an index of a checked column.
pub open spec fn entry_val(a: ArrayOrd, i: int) -> ColVal
    decreases a,
    via entry_val_dec
{
    match a {
        ArrayOrd::Null { .. } => ColVal::Absent,
        ArrayOrd::Bool { nulls, values } => if is_null_at(nulls, i) {
            ColVal::Absent
        } else {
            ColVal::Truth(values@[i])
        },
        ArrayOrd::Int8 { nulls, values } => if is_null_at(nulls, i) {
            ColVal::Absent
        } else {
            ColVal::Number(values@[i] as int)
        },
        ArrayOrd::Int16 { nulls, values } => if is_null_at(nulls, i) {
            ColVal::Absent
        } else {
            ColVal::Number(values@[i] as int)
        },
        ArrayOrd::Int32 { nulls, values } => if is_null_at(nulls, i) {
            ColVal::Absent
        } else {
            ColVal::Number(values@[i] as int)
        },
        ArrayOrd::Int64 { nulls, values } => if is_null_at(nulls, i) {
            ColVal::Absent
        } else {
            ColVal::Number(values@[i] as int)
        },
        ArrayOrd::UInt8 { nulls, values } => if is_null_at(nulls, i) {
            ColVal::Absent
        } else {
            ColVal::Number(values@[i] as int)
        },
        ArrayOrd::UInt16 { nulls, values } => if is_null_at(nulls, i) {
            ColVal::Absent
        } else {
            ColVal::Number(values@[i] as int)
        },
        ArrayOrd::UInt32 { nulls, values } => if is_null_at(nulls, i) {
            ColVal::Absent
        } else {
            ColVal::Number(values@[i] as int)
        },
        ArrayOrd::UInt64 { nulls, values } => if is_null_at(nulls, i) {
            ColVal::Absent
        } else {
            ColVal::Number(values@[i] as int)
        },
        ArrayOrd::Utf8 { nulls, values } => if is_null_at(nulls, i) {
            ColVal::Absent
        } else {
            ColVal::Text(values@[i]@)
        },
        ArrayOrd::Binary { nulls, values } => if is_null_at(nulls, i) {
            ColVal::Absent
        } else {
            ColVal::Bytes(values@[i]@)
        },
        ArrayOrd::List { nulls, offsets, values } => if is_null_at(nulls, i) {
            ColVal::Absent
        } else {
            ColVal::ListV(
                Seq::new(
                    (offsets@[i + 1] - offsets@[i]) as nat,
                    |k: int| entry_val(*values, offsets@[i] + k),
                ),
            )
        },
        ArrayOrd::Struct { nulls, fields, .. } => if is_null_at(nulls, i) {
            ColVal::Absent
        } else {
            ColVal::Row(
                Seq::new(
                    fields@.len(),
                    |f: int|
                        if 0 <= f < fields@.len() {
                            entry_val(fields@[f], i)
                        } else {
                            ColVal::Absent
                        },
                ),
            )
        },
    }
}

/// The recursion into a structure's fields steps down the column tree.
#[via_fn]
proof fn entry_val_dec(a: ArrayOrd, i: int) {
    match a {
        ArrayOrd::Struct { len, nulls, fields } => {
            assert forall|f: int| 0 <= f < fields@.len() implies #[trigger] (decreases_to!(
                a => fields@[f]
            )) by {
                assert(decreases_to!(a => fields));
                assert(decreases_to!(fields => fields@[f]));
            }
        },
        _ => {},
    }
}

/// The order of two same-typed entry values: an absent entry sorts after a
/// present one, numbers and truth values and text and bytes compare by
/// value, and lists and rows compare element by element with the shorter
/// list first.
pub open spec fn val_cmp(a: ColVal, b: ColVal) -> core::cmp::Ordering
    decreases a, 0int, 0int,
{
    match (a, b) {
        (ColVal::Absent, ColVal::Absent) => core::cmp::Ordering::Equal,
        (ColVal::Absent, _) => core::cmp::Ordering::Greater,
        (_, ColVal::Absent) => core::cmp::Ordering::Less,
        (ColVal::Truth(x), ColVal::Truth(y)) => bool_cmp(x, y),
        (ColVal::Number(x), ColVal::Number(y)) => int_cmp(x, y),
        (ColVal::Text(x), ColVal::Text(y)) => text_cmp(x, y, 0),
        (ColVal::Bytes(x), ColVal::Bytes(y)) => bytes_cmp(x, y, 0),
        (ColVal::ListV(x), ColVal::ListV(y)) => vals_cmp(x, y, 0),
        (ColVal::Row(x), ColVal::Row(y)) => vals_cmp(x, y, 0),
        _ => core::cmp::Ordering::Equal,
    }
}

/// The lexicographic order of two value sequences, from an index on.
pub open spec fn vals_cmp(a: Seq<ColVal>, b: Seq<ColVal>, i: int) -> core::cmp::Ordering
    decreases a, 1int, a.len() - i,
{
    if i >= a.len() && i >= b.len() {
        core::cmp::Ordering::Equal
    } else if i >= a.len() {
        core::cmp::Ordering::Less
    } else if i >= b.len() {
        core::cmp::Ordering::Greater
    } else if i < 0 {
        core::cmp::Ordering::Equal
    } else {
        match val_cmp(a[i], b[i]) {
            core::cmp::Ordering::Equal => vals_cmp(a, b, i + 1),
            o => o,
        }
    }
}

/// The order of two truth values: false before true.
pub open spec fn bool_cmp(x: bool, y: bool) -> core::cmp::Ordering {
    if x == y {
        core::cmp::Ordering::Equal
    } else if !x {
        core::cmp::Ordering::Less
    } else {
        core::cmp::Ordering::Greater
    }
}

/// The order of two numbers.
pub open spec fn int_cmp(x: int, y: int) -> core::cmp::Ordering {
    if x < y {
        core::cmp::Ordering::Less
    } else if x > y {
        core::cmp::Ordering::Greater
    } else {
        core::cmp::Ordering::Equal
    }
}

/// The lexicographic order of two texts, from an index on.
pub open spec fn text_cmp(a: Seq<char>, b: Seq<char>, i: int) -> core::cmp::Ordering
    decreases a.len() - i,
{
    if i >= a.len() && i >= b.len() {
        core::cmp::Ordering::Equal
    } else if i >= a.len() {
        core::cmp::Ordering::Less
    } else if i >= b.len() {
        core::cmp::Ordering::Greater
    } else if i < 0 {
        core::cmp::Ordering::Equal
    } else if a[i] != b[i] {
        int_cmp(a[i] as int, b[i] as int)
    } else {
        text_cmp(a, b, i + 1)
    }
}

/// The lexicographic order of two byte strings, from an index on.
pub open spec fn bytes_cmp(a: Seq<u8>, b: Seq<u8>, i: int) -> core::cmp::Ordering
    decreases a.len() - i,
{
    if i >= a.len() && i >= b.len() {
        core::cmp::Ordering::Equal
    } else if i >= a.len() {
        core::cmp::Ordering::Less
    } else if i >= b.len() {
        core::cmp::Ordering::Greater
    } else if i < 0 {
        core::cmp::Ordering::Equal
    } else if a[i] != b[i] {
        int_cmp(a[i] as int, b[i] as int)
    } else {
        bytes_cmp(a, b, i + 1)
    }
}

/// Whether the entry at an index is absent, executed.
fn is_null(nulls: &Option<Vec<bool>>, i: usize) -> (r: bool)
    requires
        match *nulls {
            Some(m) => i < m@.len(),
            None => true,
        },
    ensures
        r == is_null_at(*nulls, i as int),
{
    match nulls {
        Some(m) => m[i],
        None => false,
    }
}

/// Skipping an equal prefix does not change a lexicographic text
/// comparison.
proof fn lemma_text_cmp_advance(a: Seq<char>, b: Seq<char>, m: int, n: int)
    requires
        0 <= m <= n,
        n <= a.len(),
        n <= b.len(),
        forall|j: int| m <= j < n ==> a[j] == b[j],
    ensures
        text_cmp(a, b, m) == text_cmp(a, b, n),
    decreases n - m,
{
    if m < n {
        assert(a[m] == b[m]);
        lemma_text_cmp_advance(a, b, m + 1, n);
    }
}

/// Skipping an equal prefix does not change a lexicographic byte
/// comparison.
proof fn lemma_bytes_cmp_advance(a: Seq<u8>, b: Seq<u8>, m: int, n: int)
    requires
        0 <= m <= n,
        n <= a.len(),
        n <= b.len(),
        forall|j: int| m <= j < n ==> a[j] == b[j],
    ensures
        bytes_cmp(a, b, m) == bytes_cmp(a, b, n),
    decreases n - m,
{
    if m < n {
        assert(a[m] == b[m]);
        lemma_bytes_cmp_advance(a, b, m + 1, n);
    }
}

/// Skipping an equal prefix does not change a lexicographic value
/// comparison.
proof fn lemma_vals_cmp_advance(a: Seq<ColVal>, b: Seq<ColVal>, m: int, n: int)
    requires
        0 <= m <= n,
        n <= a.len(),
        n <= b.len(),
        forall|j: int| m <= j < n ==> val_cmp(a[j], b[j]) == core::cmp::Ordering::Equal,
    ensures
        vals_cmp(a, b, m) == vals_cmp(a, b, n),
    decreases n - m,
{
    if m < n {
        assert(val_cmp(a[m], b[m]) == core::cmp::Ordering::Equal);
        lemma_vals_cmp_advance(a, b, m + 1, n);
    }
}

/// Non-decreasing offsets are ordered between any two positions.
proof fn lemma_offsets_mono(o: Seq<usize>, p: int, q: int)
    requires
        0 <= p <= q < o.len(),
        forall|i: int| 0 <= i < o.len() - 1 ==> #[trigger] o[i] <= o[i + 1],
    ensures
        o[p] <= o[q],
    decreases q - p,
{
    if p < q {
        lemma_offsets_mono(o, p + 1, q);
        assert(o[p] <= o[p + 1]);
    }
}

/// Compare two texts lexicographically by character.
fn cmp_str(a: &String, b: &String) -> (r: core::cmp::Ordering)
    ensures
        r == text_cmp(a@, b@, 0),
{
    let an = a.as_str().unicode_len();
    let bn = b.as_str().unicode_len();
    let mut i: usize = 0;
    while i < an && i < bn
        invariant
            an == a@.len(),
            bn == b@.len(),
            i <= an,
            i <= bn,
            forall|j: int| 0 <= j < i ==> a@[j] == b@[j],
        decreases an - i,
    {
        let ca = a.as_str().get_char(i);
        let cb = b.as_str().get_char(i);
        if ca != cb {
            proof {
                lemma_text_cmp_advance(a@, b@, 0, i as int);
            }
            if (ca as u32) < (cb as u32) {
                return core::cmp::Ordering::Less;
            } else {
                return core::cmp::Ordering::Greater;
            }
        }
        i = i + 1;
    }
    proof {
        lemma_text_cmp_advance(a@, b@, 0, i as int);
    }
    if an == bn {
        core::cmp::Ordering::Equal
    } else if an < bn {
        core::cmp::Ordering::Less
    } else {
        core::cmp::Ordering::Greater
    }
}

/// Compare two byte strings lexicographically.
fn cmp_bytes(a: &Vec<u8>, b: &Vec<u8>) -> (r: core::cmp::Ordering)
    ensures
        r == bytes_cmp(a@, b@, 0),
{
    let an = a.len();
    let bn = b.len();
    let mut i: usize = 0;
    while i < an && i < bn
        invariant
            an == a@.len(),
            bn == b@.len(),
            i <= an,
            i <= bn,
            forall|j: int| 0 <= j < i ==> a@[j] == b@[j],
        decreases an - i,
    {
        let ca = a[i];
        let cb = b[i];
        if ca != cb {
            proof {
                lemma_bytes_cmp_advance(a@, b@, 0, i as int);
            }
            if ca < cb {
                return core::cmp::Ordering::Less;
            } else {
                return core::cmp::Ordering::Greater;
            }
        }
        i = i + 1;
    }
    proof {
        lemma_bytes_cmp_advance(a@, b@, 0, i as int);
    }
    if an == bn {
        core::cmp::Ordering::Equal
    } else if an < bn {
        core::cmp::Ordering::Less
    } else {
        core::cmp::Ordering::Greater
    }
}

impl ArrayOrd {
    /// The number of entries.
    pub fn len(&self) -> (r: usize)
        requires
            wf(*self),
        ensures
            r == spec_len(*self),
    {
        match self {
            ArrayOrd::Null { len } => *len,
            ArrayOrd::Bool { values, .. } => values.len(),
            ArrayOrd::Int8 { values, .. } => values.len(),
            ArrayOrd::Int16 { values, .. } => values.len(),
            ArrayOrd::Int32 { values, .. } => values.len(),
            ArrayOrd::Int64 { values, .. } => values.len(),
            ArrayOrd::UInt8 { values, .. } => values.len(),
            ArrayOrd::UInt16 { values, .. } => values.len(),
            ArrayOrd::UInt32 { values, .. } => values.len(),
            ArrayOrd::UInt64 { values, .. } => values.len(),
            ArrayOrd::Utf8 { values, .. } => values.len(),
            ArrayOrd::Binary { values, .. } => values.len(),
            ArrayOrd::List { offsets, .. } => offsets.len() - 1,
            ArrayOrd::Struct { len, .. } => *len,
        }
    }

    /// The entry at a particular index in this column.
    pub fn at(&self, idx: usize) -> (r: ArrayIdx)
        ensures
            r.idx == idx,
            r.array == self,
    {
        ArrayIdx { idx, array: self }
    }
}

/// One entry of one checked column. Comparing two of them orders entire
/// rows across similarly typed columns.
#[derive(Clone, Copy, Debug)]
pub struct ArrayIdx<'a> {
    /// An index into the column.
    pub idx: usize,
    /// The column.
    pub array: &'a ArrayOrd,
}

/// Compare two numbers of any one width.
fn cmp_u64(a: u64, b: u64) -> (r: core::cmp::Ordering)
    ensures
        r == int_cmp(a as int, b as int),
{
    if a < b {
        core::cmp::Ordering::Less
    } else if a > b {
        core::cmp::Ordering::Greater
    } else {
        core::cmp::Ordering::Equal
    }
}

/// Compare two signed numbers of any one width.
fn cmp_i64(a: i64, b: i64) -> (r: core::cmp::Ordering)
    ensures
        r == int_cmp(a as int, b as int),
{
    if a < b {
        core::cmp::Ordering::Less
    } else if a > b {
        core::cmp::Ordering::Greater
    } else {
        core::cmp::Ordering::Equal
    }
}

impl<'a> ArrayIdx<'a> {
    /// Compare this entry with a same-typed one: absent entries sort last,
    /// values compare by value, lists element by element with the shorter
    /// prefix first, and structures field by field.
    #[verifier::rlimit(100)]
    pub fn cmp(&self, other: &ArrayIdx) -> (r: core::cmp::Ordering)
        requires
            wf(*self.array),
            wf(*other.array),
            same_type(*self.array, *other.array),
            self.idx < spec_len(*self.array),
            other.idx < spec_len(*other.array),
        ensures
            r == val_cmp(
                entry_val(*self.array, self.idx as int),
                entry_val(*other.array, other.idx as int),
            ),
        decreases *self.array,
    {
        let i = self.idx;
        let j = other.idx;
        match (self.array, other.array) {
            (ArrayOrd::Null { .. }, ArrayOrd::Null { .. }) => core::cmp::Ordering::Equal,
            (
                ArrayOrd::Bool { nulls: n1, values: v1 },
                ArrayOrd::Bool { nulls: n2, values: v2 },
            ) => {
                match (is_null(n1, i), is_null(n2, j)) {
                    (false, true) => core::cmp::Ordering::Less,
                    (true, true) => core::cmp::Ordering::Equal,
                    (true, false) => core::cmp::Ordering::Greater,
                    (false, false) => {
                        let a = v1[i];
                        let b = v2[j];
                        if a == b {
                            core::cmp::Ordering::Equal
                        } else if !a {
                            core::cmp::Ordering::Less
                        } else {
                            core::cmp::Ordering::Greater
                        }
                    },
                }
            },
            (
                ArrayOrd::Int8 { nulls: n1, values: v1 },
                ArrayOrd::Int8 { nulls: n2, values: v2 },
            ) => {
                match (is_null(n1, i), is_null(n2, j)) {
                    (false, true) => core::cmp::Ordering::Less,
                    (true, true) => core::cmp::Ordering::Equal,
                    (true, false) => core::cmp::Ordering::Greater,
                    (false, false) => cmp_i64(v1[i] as i64, v2[j] as i64),
                }
            },
            (
                ArrayOrd::Int16 { nulls: n1, values: v1 },
                ArrayOrd::Int16 { nulls: n2, values: v2 },
            ) => {
                match (is_null(n1, i), is_null(n2, j)) {
                    (false, true) => core::cmp::Ordering::Less,
                    (true, true) => core::cmp::Ordering::Equal,
                    (true, false) => core::cmp::Ordering::Greater,
                    (false, false) => cmp_i64(v1[i] as i64, v2[j] as i64),
                }
            },
            (
                ArrayOrd::Int32 { nulls: n1, values: v1 },
                ArrayOrd::Int32 { nulls: n2, values: v2 },
            ) => {
                match (is_null(n1, i), is_null(n2, j)) {
                    (false, true) => core::cmp::Ordering::Less,
                    (true, true) => core::cmp::Ordering::Equal,
                    (true, false) => core::cmp::Ordering::Greater,
                    (false, false) => cmp_i64(v1[i] as i64, v2[j] as i64),
                }
            },
            (
                ArrayOrd::Int64 { nulls: n1, values: v1 },
                ArrayOrd::Int64 { nulls: n2, values: v2 },
            ) => {
                match (is_null(n1, i), is_null(n2, j)) {
                    (false, true) => core::cmp::Ordering::Less,
                    (true, true) => core::cmp::Ordering::Equal,
                    (true, false) => core::cmp::Ordering::Greater,
                    (false, false) => cmp_i64(v1[i], v2[j]),
                }
            },
            (
                ArrayOrd::UInt8 { nulls: n1, values: v1 },
                ArrayOrd::UInt8 { nulls: n2, values: v2 },
            ) => {
                match (is_null(n1, i), is_null(n2, j)) {
                    (false, true) => core::cmp::Ordering::Less,
                    (true, true) => core::cmp::Ordering::Equal,
                    (true, false) => core::cmp::Ordering::Greater,
                    (false, false) => cmp_u64(v1[i] as u64, v2[j] as u64),
                }
            },
            (
                ArrayOrd::UInt16 { nulls: n1, values: v1 },
                ArrayOrd::UInt16 { nulls: n2, values: v2 },
            ) => {
                match (is_null(n1, i), is_null(n2, j)) {
                    (false, true) => core::cmp::Ordering::Less,
                    (true, true) => core::cmp::Ordering::Equal,
                    (true, false) => core::cmp::Ordering::Greater,
                    (false, false) => cmp_u64(v1[i] as u64, v2[j] as u64),
                }
            },
            (
                ArrayOrd::UInt32 { nulls: n1, values: v1 },
                ArrayOrd::UInt32 { nulls: n2, values: v2 },
            ) => {
                match (is_null(n1, i), is_null(n2, j)) {
                    (false, true) => core::cmp::Ordering::Less,
                    (true, true) => core::cmp::Ordering::Equal,
                    (true, false) => core::cmp::Ordering::Greater,
                    (false, false) => cmp_u64(v1[i] as u64, v2[j] as u64),
                }
            },
            (
                ArrayOrd::UInt64 { nulls: n1, values: v1 },
                ArrayOrd::UInt64 { nulls: n2, values: v2 },
            ) => {
                match (is_null(n1, i), is_null(n2, j)) {
                    (false, true) => core::cmp::Ordering::Less,
                    (true, true) => core::cmp::Ordering::Equal,
                    (true, false) => core::cmp::Ordering::Greater,
                    (false, false) => cmp_u64(v1[i], v2[j]),
                }
            },
            (
                ArrayOrd::Utf8 { nulls: n1, values: v1 },
                ArrayOrd::Utf8 { nulls: n2, values: v2 },
            ) => {
                match (is_null(n1, i), is_null(n2, j)) {
                    (false, true) => core::cmp::Ordering::Less,
                    (true, true) => core::cmp::Ordering::Equal,
                    (true, false) => core::cmp::Ordering::Greater,
                    (false, false) => cmp_str(&v1[i], &v2[j]),
                }
            },
            (
                ArrayOrd::Binary { nulls: n1, values: v1 },
                ArrayOrd::Binary { nulls: n2, values: v2 },
            ) => {
                match (is_null(n1, i), is_null(n2, j)) {
                    (false, true) => core::cmp::Ordering::Less,
                    (true, true) => core::cmp::Ordering::Equal,
                    (true, false) => core::cmp::Ordering::Greater,
                    (false, false) => cmp_bytes(&v1[i], &v2[j]),
                }
            },
            (
                ArrayOrd::List { nulls: n1, offsets: o1, values: v1 },
                ArrayOrd::List { nulls: n2, offsets: o2, values: v2 },
            ) => {
                match (is_null(n1, i), is_null(n2, j)) {
                    (false, true) => core::cmp::Ordering::Less,
                    (true, true) => core::cmp::Ordering::Equal,
                    (true, false) => core::cmp::Ordering::Greater,
                    (false, false) => {
                        proof {
                            assert(spec_len(*self.array) == o1@.len() - 1);
                            assert(spec_len(*other.array) == o2@.len() - 1);
                        }
                        let _bounded_len_a = o1.len();
                        let _bounded_len_b = o2.len();
                        let from_a = o1[i];
                        let to_a = o1[i + 1];
                        let from_b = o2[j];
                        let to_b = o2[j + 1];
                        proof {
                            lemma_offsets_mono(o1@, i as int, i as int + 1);
                            lemma_offsets_mono(o1@, i as int + 1, o1@.len() - 1);
                            lemma_offsets_mono(o2@, j as int, j as int + 1);
                            lemma_offsets_mono(o2@, j as int + 1, o2@.len() - 1);
                            assert(o1@.last() == o1@[o1@.len() - 1]);
                            assert(o2@.last() == o2@[o2@.len() - 1]);
                        }
                        let la = to_a - from_a;
                        let lb = to_b - from_b;
                        let ghost xs = Seq::new(
                            (o1@[i as int + 1] - o1@[i as int]) as nat,
                            |k: int| entry_val(**v1, o1@[i as int] + k),
                        );
                        let ghost ys = Seq::new(
                            (o2@[j as int + 1] - o2@[j as int]) as nat,
                            |k: int| entry_val(**v2, o2@[j as int] + k),
                        );
                        let mut k: usize = 0;
                        while k < la && k < lb
                            invariant
                                self.array == (ArrayOrd::List {
                                    nulls: *n1,
                                    offsets: *o1,
                                    values: *v1,
                                }),
                                other.array == (ArrayOrd::List {
                                    nulls: *n2,
                                    offsets: *o2,
                                    values: *v2,
                                }),
                                i == self.idx,
                                j == other.idx,
                                i + 1 < o1@.len(),
                                j + 1 < o2@.len(),
                                !is_null_at(*n1, i as int),
                                !is_null_at(*n2, j as int),
                                wf(**v1),
                                wf(**v2),
                                same_type(**v1, **v2),
                                from_a == o1@[i as int],
                                from_b == o2@[j as int],
                                la == xs.len(),
                                lb == ys.len(),
                                to_a == o1@[i as int + 1],
                                to_b == o2@[j as int + 1],
                                from_a + la == to_a,
                                from_b + lb == to_b,
                                from_a + la <= spec_len(**v1),
                                from_b + lb <= spec_len(**v2),
                                xs == Seq::new(
                                    la as nat,
                                    |k: int| entry_val(**v1, from_a + k),
                                ),
                                ys == Seq::new(
                                    lb as nat,
                                    |k: int| entry_val(**v2, from_b + k),
                                ),
                                k <= la,
                                k <= lb,
                                forall|x: int|
                                    0 <= x < k ==> val_cmp(xs[x], ys[x])
                                        == core::cmp::Ordering::Equal,
                            decreases la - k,
                        {
                            let ea = ArrayIdx { idx: from_a + k, array: &**v1 };
                            let eb = ArrayIdx { idx: from_b + k, array: &**v2 };
                            proof {
                                assert(decreases_to!(*self.array => **v1));
                            }
                            let c = ea.cmp(&eb);
                            match c {
                                core::cmp::Ordering::Equal => {
                                    k = k + 1;
                                },
                                _ => {
                                    proof {
                                        lemma_vals_cmp_advance(xs, ys, 0, k as int);
                                        assert(xs[k as int] == entry_val(**v1, from_a + k));
                                        assert(ys[k as int] == entry_val(**v2, from_b + k));
                                        assert(vals_cmp(xs, ys, k as int) == c);
                                        assert(xs =~= Seq::new(
                                            (o1@[i as int + 1] - o1@[i as int]) as nat,
                                            |x: int| entry_val(**v1, o1@[i as int] + x),
                                        ));
                                        assert(ys =~= Seq::new(
                                            (o2@[j as int + 1] - o2@[j as int]) as nat,
                                            |x: int| entry_val(**v2, o2@[j as int] + x),
                                        ));
                                        assert(entry_val(*self.array, i as int) is ListV);
                                        assert(entry_val(*self.array, i as int)->ListV_0 =~= xs);
                                        assert(entry_val(*other.array, j as int) is ListV);
                                        assert(entry_val(*other.array, j as int)->ListV_0 =~= ys);
                                        assert(entry_val(*self.array, i as int)
                                            == ColVal::ListV(xs));
                                        assert(entry_val(*other.array, j as int)
                                            == ColVal::ListV(ys));
                                        assert(val_cmp(ColVal::ListV(xs), ColVal::ListV(ys))
                                            == vals_cmp(xs, ys, 0));
                                        assert(vals_cmp(xs, ys, 0) == c);
                                    }
                                    return c;
                                },
                            }
                        }
                        proof {
                            lemma_vals_cmp_advance(xs, ys, 0, k as int);
                            assert(xs =~= Seq::new(
                                (o1@[i as int + 1] - o1@[i as int]) as nat,
                                |x: int| entry_val(**v1, o1@[i as int] + x),
                            ));
                            assert(ys =~= Seq::new(
                                (o2@[j as int + 1] - o2@[j as int]) as nat,
                                |x: int| entry_val(**v2, o2@[j as int] + x),
                            ));
                            assert(entry_val(*self.array, i as int) is ListV);
                            assert(entry_val(*self.array, i as int)->ListV_0 =~= xs);
                            assert(entry_val(*other.array, j as int) is ListV);
                            assert(entry_val(*other.array, j as int)->ListV_0 =~= ys);
                            assert(entry_val(*self.array, i as int) == ColVal::ListV(xs));
                            assert(entry_val(*other.array, j as int) == ColVal::ListV(ys));
                            assert(val_cmp(ColVal::ListV(xs), ColVal::ListV(ys)) == vals_cmp(
                                xs,
                                ys,
                                0,
                            ));
                        }
                        if la == lb {
                            core::cmp::Ordering::Equal
                        } else if la < lb {
                            core::cmp::Ordering::Less
                        } else {
                            core::cmp::Ordering::Greater
                        }
                    },
                }
            },
            (
                ArrayOrd::Struct { len: l1, nulls: n1, fields: f1 },
                ArrayOrd::Struct { len: l2, nulls: n2, fields: f2 },
            ) => {
                match (is_null(n1, i), is_null(n2, j)) {
                    (false, true) => core::cmp::Ordering::Less,
                    (true, true) => core::cmp::Ordering::Equal,
                    (true, false) => core::cmp::Ordering::Greater,
                    (false, false) => {
                        let nf = f1.len();
                        let ghost xs = Seq::new(
                            f1@.len(),
                            |f: int|
                                if 0 <= f < f1@.len() {
                                    entry_val(f1@[f], i as int)
                                } else {
                                    ColVal::Absent
                                },
                        );
                        let ghost ys = Seq::new(
                            f2@.len(),
                            |f: int|
                                if 0 <= f < f2@.len() {
                                    entry_val(f2@[f], j as int)
                                } else {
                                    ColVal::Absent
                                },
                        );
                        let mut f: usize = 0;
                        while f < nf
                            invariant
                                wf(*self.array),
                                wf(*other.array),
                                self.array == (ArrayOrd::Struct {
                                    len: *l1,
                                    nulls: *n1,
                                    fields: *f1,
                                }),
                                other.array == (ArrayOrd::Struct {
                                    len: *l2,
                                    nulls: *n2,
                                    fields: *f2,
                                }),
                                i == self.idx,
                                j == other.idx,
                                i < *l1,
                                j < *l2,
                                !is_null_at(*n1, i as int),
                                !is_null_at(*n2, j as int),
                                nf == f1@.len(),
                                f1@.len() == f2@.len(),
                                forall|x: int| 0 <= x < f1@.len() ==> same_type(#[trigger] f1@[x], f2@[x]),
                                forall|x: int| 0 <= x < f1@.len() ==> wf(#[trigger] f1@[x]),
                                forall|x: int| 0 <= x < f2@.len() ==> wf(#[trigger] f2@[x]),
                                forall|x: int| 0 <= x < f1@.len() ==> spec_len(#[trigger] f1@[x]) == *l1,
                                forall|x: int| 0 <= x < f2@.len() ==> spec_len(#[trigger] f2@[x]) == *l2,
                                xs.len() == f1@.len(),
                                ys.len() == f2@.len(),
                                forall|x: int| 0 <= x < f1@.len() ==> xs[x] == entry_val(f1@[x], i as int),
                                forall|x: int| 0 <= x < f2@.len() ==> ys[x] == entry_val(f2@[x], j as int),
                                f <= nf,
                                forall|x: int|
                                    0 <= x < f ==> val_cmp(xs[x], ys[x])
                                        == core::cmp::Ordering::Equal,
                            decreases nf - f,
                        {
                            let ea = ArrayIdx { idx: i, array: &f1[f] };
                            let eb = ArrayIdx { idx: j, array: &f2[f] };
                            proof {
                                assert(decreases_to!(*self.array => f1@[f as int]));
                            }
                            let c = ea.cmp(&eb);
                            match c {
                                core::cmp::Ordering::Equal => {
                                    f = f + 1;
                                },
                                _ => {
                                    proof {
                                        lemma_vals_cmp_advance(xs, ys, 0, f as int);
                                        assert(xs[f as int] == entry_val(f1@[f as int], i as int));
                                        assert(ys[f as int] == entry_val(f2@[f as int], j as int));
                                        assert(vals_cmp(xs, ys, f as int) == c);
                                        assert(entry_val(*self.array, i as int) is Row);
                                        assert(entry_val(*self.array, i as int)->Row_0 =~= xs);
                                        assert(entry_val(*other.array, j as int) is Row);
                                        assert(entry_val(*other.array, j as int)->Row_0 =~= ys);
                                        assert(entry_val(*self.array, i as int) == ColVal::Row(xs));
                                        assert(entry_val(*other.array, j as int) == ColVal::Row(ys));
                                        assert(val_cmp(ColVal::Row(xs), ColVal::Row(ys))
                                            == vals_cmp(xs, ys, 0));
                                        assert(vals_cmp(xs, ys, 0) == c);
                                    }
                                    return c;
                                },
                            }
                        }
                        proof {
                            lemma_vals_cmp_advance(xs, ys, 0, f as int);
                            assert(entry_val(*self.array, i as int) is Row);
                            assert(entry_val(*self.array, i as int)->Row_0 =~= xs);
                            assert(entry_val(*other.array, j as int) is Row);
                            assert(entry_val(*other.array, j as int)->Row_0 =~= ys);
                            assert(entry_val(*self.array, i as int) == ColVal::Row(xs));
                            assert(entry_val(*other.array, j as int) == ColVal::Row(ys));
                            assert(val_cmp(ColVal::Row(xs), ColVal::Row(ys)) == vals_cmp(
                                xs,
                                ys,
                                0,
                            ));
                        }
                        core::cmp::Ordering::Equal
                    },
                }
            },
            _ => {
                proof {
                    assert(false);
                }
                core::cmp::Ordering::Equal
            },
        }
    }

    /// Compare two entries, never failing on same-typed columns.
    pub fn partial_cmp(&self, other: &ArrayIdx) -> (r: Option<core::cmp::Ordering>)
        requires
            wf(*self.array),
            wf(*other.array),
            same_type(*self.array, *other.array),
            self.idx < spec_len(*self.array),
            other.idx < spec_len(*other.array),
        ensures
            r == Some(
                val_cmp(
                    entry_val(*self.array, self.idx as int),
                    entry_val(*other.array, other.idx as int),
                ),
            ),
    {
        Some(self.cmp(other))
    }

    /// Whether two entries compare equal.
    pub fn eq(&self, other: &ArrayIdx) -> (r: bool)
        requires
            wf(*self.array),
            wf(*other.array),
            same_type(*self.array, *other.array),
            self.idx < spec_len(*self.array),
            other.idx < spec_len(*other.array),
        ensures
            r == (val_cmp(
                entry_val(*self.array, self.idx as int),
                entry_val(*other.array, other.idx as int),
            ) == core::cmp::Ordering::Equal),
    {
        match self.cmp(other) {
            core::cmp::Ordering::Equal => true,
            _ => false,
        }
    }
}

/// The number of entries of an unchecked column, read the same way.
pub open spec fn data_len(c: ColumnData) -> int {
    match c {
        ColumnData::Null { len } => len as int,
        ColumnData::Bool { values, .. } => values@.len() as int,
        ColumnData::Int8 { values, .. } => values@.len() as int,
        ColumnData::Int16 { values, .. } => values@.len() as int,
        ColumnData::Int32 { values, .. } => values@.len() as int,
        ColumnData::Int64 { values, .. } => values@.len() as int,
        ColumnData::UInt8 { values, .. } => values@.len() as int,
        ColumnData::UInt16 { values, .. } => values@.len() as int,
        ColumnData::UInt32 { values, .. } => values@.len() as int,
        ColumnData::UInt64 { values, .. } => values@.len() as int,
        ColumnData::Utf8 { values, .. } => values@.len() as int,
        ColumnData::Binary { values, .. } => values@.len() as int,
        ColumnData::List { offsets, .. } => offsets@.len() - 1,
        ColumnData::Struct { len, .. } => len as int,
    }
}

/// Whether an unchecked column's shape is consistent: the same conditions a
/// checked column upholds.
pub open spec fn data_wf(c: ColumnData) -> bool
    decreases c,
{
    match c {
        ColumnData::Null { .. } => true,
        ColumnData::Bool { nulls, values } => mask_wf(nulls, values@.len() as int),
        ColumnData::Int8 { nulls, values } => mask_wf(nulls, values@.len() as int),
        ColumnData::Int16 { nulls, values } => mask_wf(nulls, values@.len() as int),
        ColumnData::Int32 { nulls, values } => mask_wf(nulls, values@.len() as int),
        ColumnData::Int64 { nulls, values } => mask_wf(nulls, values@.len() as int),
        ColumnData::UInt8 { nulls, values } => mask_wf(nulls, values@.len() as int),
        ColumnData::UInt16 { nulls, values } => mask_wf(nulls, values@.len() as int),
        ColumnData::UInt32 { nulls, values } => mask_wf(nulls, values@.len() as int),
        ColumnData::UInt64 { nulls, values } => mask_wf(nulls, values@.len() as int),
        ColumnData::Utf8 { nulls, values } => mask_wf(nulls, values@.len() as int),
        ColumnData::Binary { nulls, values } => mask_wf(nulls, values@.len() as int),
        ColumnData::List { nulls, offsets, values } => {
            &&& offsets@.len() >= 1
            &&& mask_wf(nulls, offsets@.len() - 1)
            &&& forall|i: int|
                0 <= i < offsets@.len() - 1 ==> #[trigger] offsets@[i] <= offsets@[i + 1]
            &&& offsets@.last() <= data_len(*values)
            &&& data_wf(*values)
        },
        ColumnData::Struct { len, nulls, fields } => {
            &&& mask_wf(nulls, len as int)
            &&& forall|f: int|
                0 <= f < fields@.len() ==> data_len(#[trigger] fields@[f]) == len as int
            &&& forall|f: int| 0 <= f < fields@.len() ==> data_wf(#[trigger] fields@[f])
        },
    }
}

/// Whether two null masks read the same.
pub open spec fn mask_eq(a: Option<Vec<bool>>, b: Option<Vec<bool>>) -> bool {
    match (a, b) {
        (None, None) => true,
        (Some(x), Some(y)) => x@ == y@,
        _ => false,
    }
}

/// Whether a checked column carries the same data as an unchecked one.
pub open spec fn mirrors(a: ArrayOrd, c: ColumnData) -> bool
    decreases c,
{
    match (a, c) {
        (ArrayOrd::Null { len: l1 }, ColumnData::Null { len: l2 }) => l1 == l2,
        (
            ArrayOrd::Bool { nulls: n1, values: v1 },
            ColumnData::Bool { nulls: n2, values: v2 },
        ) => mask_eq(n1, n2) && v1@ == v2@,
        (
            ArrayOrd::Int8 { nulls: n1, values: v1 },
            ColumnData::Int8 { nulls: n2, values: v2 },
        ) => mask_eq(n1, n2) && v1@ == v2@,
        (
            ArrayOrd::Int16 { nulls: n1, values: v1 },
            ColumnData::Int16 { nulls: n2, values: v2 },
        ) => mask_eq(n1, n2) && v1@ == v2@,
        (
            ArrayOrd::Int32 { nulls: n1, values: v1 },
            ColumnData::Int32 { nulls: n2, values: v2 },
        ) => mask_eq(n1, n2) && v1@ == v2@,
        (
            ArrayOrd::Int64 { nulls: n1, values: v1 },
            ColumnData::Int64 { nulls: n2, values: v2 },
        ) => mask_eq(n1, n2) && v1@ == v2@,
        (
            ArrayOrd::UInt8 { nulls: n1, values: v1 },
            ColumnData::UInt8 { nulls: n2, values: v2 },
        ) => mask_eq(n1, n2) && v1@ == v2@,
        (
            ArrayOrd::UInt16 { nulls: n1, values: v1 },
            ColumnData::UInt16 { nulls: n2, values: v2 },
        ) => mask_eq(n1, n2) && v1@ == v2@,
        (
            ArrayOrd::UInt32 { nulls: n1, values: v1 },
            ColumnData::UInt32 { nulls: n2, values: v2 },
        ) => mask_eq(n1, n2) && v1@ == v2@,
        (
            ArrayOrd::UInt64 { nulls: n1, values: v1 },
            ColumnData::UInt64 { nulls: n2, values: v2 },
        ) => mask_eq(n1, n2) && v1@ == v2@,
        (
            ArrayOrd::Utf8 { nulls: n1, values: v1 },
            ColumnData::Utf8 { nulls: n2, values: v2 },
        ) => mask_eq(n1, n2) && v1@.len() == v2@.len() && (forall|i: int|
            0 <= i < v1@.len() ==> (#[trigger] v1@[i])@ == v2@[i]@),
        (
            ArrayOrd::Binary { nulls: n1, values: v1 },
            ColumnData::Binary { nulls: n2, values: v2 },
        ) => mask_eq(n1, n2) && v1@.len() == v2@.len() && (forall|i: int|
            0 <= i < v1@.len() ==> (#[trigger] v1@[i])@ == v2@[i]@),
        (
            ArrayOrd::List { nulls: n1, offsets: o1, values: v1 },
            ColumnData::List { nulls: n2, offsets: o2, values: v2 },
        ) => mask_eq(n1, n2) && o1@ == o2@ && mirrors(*v1, *v2),
        (
            ArrayOrd::Struct { len: l1, nulls: n1, fields: f1 },
            ColumnData::Struct { len: l2, nulls: n2, fields: f2 },
        ) => l1 == l2 && mask_eq(n1, n2) && f1@.len() == f2@.len() && (forall|f: int|
            0 <= f < f2@.len() ==> mirrors(f1@[f], #[trigger] f2@[f])),
        _ => false,
    }
}

/// Mirrored columns have the same entry count.
proof fn lemma_mirrors_len(a: ArrayOrd, c: ColumnData)
    requires
        mirrors(a, c),
    ensures
        spec_len(a) == data_len(c),
{
}

/// Copy a vector of plain values.
fn copy_vec<T: Copy>(v: &Vec<T>) -> (r: Vec<T>)
    ensures
        r@ == v@,
{
    let mut r: Vec<T> = Vec::new();
    let mut i: usize = 0;
    while i < v.len()
        invariant
            i <= v@.len(),
            r@ =~= v@.take(i as int),
        decreases v@.len() - i,
    {
        r.push(v[i]);
        i = i + 1;
        proof {
            assert(r@ =~= v@.take(i as int));
        }
    }
    proof {
        assert(v@.take(v@.len() as int) =~= v@);
    }
    r
}

/// Copy a vector of texts.
fn copy_strings(v: &Vec<String>) -> (r: Vec<String>)
    ensures
        r@.len() == v@.len(),
        forall|i: int| 0 <= i < v@.len() ==> (#[trigger] r@[i])@ == v@[i]@,
{
    let mut r: Vec<String> = Vec::new();
    let mut i: usize = 0;
    while i < v.len()
        invariant
            i <= v@.len(),
            r@.len() == i,
            forall|j: int| 0 <= j < i ==> (#[trigger] r@[j])@ == v@[j]@,
        decreases v@.len() - i,
    {
        r.push(v[i].clone());
        i = i + 1;
    }
    r
}

/// Copy a vector of byte strings.
fn copy_byte_rows(v: &Vec<Vec<u8>>) -> (r: Vec<Vec<u8>>)
    ensures
        r@.len() == v@.len(),
        forall|i: int| 0 <= i < v@.len() ==> (#[trigger] r@[i])@ == v@[i]@,
{
    let mut r: Vec<Vec<u8>> = Vec::new();
    let mut i: usize = 0;
    while i < v.len()
        invariant
            i <= v@.len(),
            r@.len() == i,
            forall|j: int| 0 <= j < i ==> (#[trigger] r@[j])@ == v@[j]@,
        decreases v@.len() - i,
    {
        r.push(copy_vec(&v[i]));
        i = i + 1;
    }
    r
}

/// Copy a null mask.
fn copy_mask(m: &Option<Vec<bool>>) -> (r: Option<Vec<bool>>)
    ensures
        mask_eq(r, *m),
        r is Some <==> *m is Some,
{
    match m {
        None => None,
        Some(v) => Some(copy_vec(v)),
    }
}

/// Check a null mask against an entry count.
fn check_mask(m: &Option<Vec<bool>>, len: usize) -> (ok: bool)
    ensures
        ok == mask_wf(*m, len as int),
{
    match m {
        None => true,
        Some(v) => v.len() == len,
    }
}

/// A consistent structure column has consistent fields of its own entry
/// count.
proof fn lemma_struct_field_wf(c: ColumnData, f: int)
    requires
        c is Struct,
        0 <= f < c->Struct_fields@.len(),
        data_wf(c),
    ensures
        data_wf(c->Struct_fields@[f]),
        data_len(c->Struct_fields@[f]) == c->Struct_len as int,
{
}

impl ArrayOrd {
    /// Check the shape of a dynamically typed column and wrap it for
    /// comparison: accepted exactly when the masks, offsets and field
    /// lengths are consistent, with the data carried over unchanged.
    #[verifier::rlimit(100)]
    pub fn new(array: &ColumnData) -> (r: Result<ArrayOrd, ColumnError>)
        ensures
            r matches Ok(a) ==> wf(a) && mirrors(a, *array),
            r is Ok <==> data_wf(*array),
        decreases *array,
    {
        match array {
            ColumnData::Null { len } => Ok(ArrayOrd::Null { len: *len }),
            ColumnData::Bool { nulls, values } => {
                if !check_mask(nulls, values.len()) {
                    return Err(ColumnError::NullMaskLength);
                }
                Ok(ArrayOrd::Bool { nulls: copy_mask(nulls), values: copy_vec(values) })
            },
            ColumnData::Int8 { nulls, values } => {
                if !check_mask(nulls, values.len()) {
                    return Err(ColumnError::NullMaskLength);
                }
                Ok(ArrayOrd::Int8 { nulls: copy_mask(nulls), values: copy_vec(values) })
            },
            ColumnData::Int16 { nulls, values } => {
                if !check_mask(nulls, values.len()) {
                    return Err(ColumnError::NullMaskLength);
                }
                Ok(ArrayOrd::Int16 { nulls: copy_mask(nulls), values: copy_vec(values) })
            },
            ColumnData::Int32 { nulls, values } => {
                if !check_mask(nulls, values.len()) {
                    return Err(ColumnError::NullMaskLength);
                }
                Ok(ArrayOrd::Int32 { nulls: copy_mask(nulls), values: copy_vec(values) })
            },
            ColumnData::Int64 { nulls, values } => {
                if !check_mask(nulls, values.len()) {
                    return Err(ColumnError::NullMaskLength);
                }
                Ok(ArrayOrd::Int64 { nulls: copy_mask(nulls), values: copy_vec(values) })
            },
            ColumnData::UInt8 { nulls, values } => {
                if !check_mask(nulls, values.len()) {
                    return Err(ColumnError::NullMaskLength);
                }
                Ok(ArrayOrd::UInt8 { nulls: copy_mask(nulls), values: copy_vec(values) })
            },
            ColumnData::UInt16 { nulls, values } => {
                if !check_mask(nulls, values.len()) {
                    return Err(ColumnError::NullMaskLength);
                }
                Ok(ArrayOrd::UInt16 { nulls: copy_mask(nulls), values: copy_vec(values) })
            },
            ColumnData::UInt32 { nulls, values } => {
                if !check_mask(nulls, values.len()) {
                    return Err(ColumnError::NullMaskLength);
                }
                Ok(ArrayOrd::UInt32 { nulls: copy_mask(nulls), values: copy_vec(values) })
            },
            ColumnData::UInt64 { nulls, values } => {
                if !check_mask(nulls, values.len()) {
                    return Err(ColumnError::NullMaskLength);
                }
                Ok(ArrayOrd::UInt64 { nulls: copy_mask(nulls), values: copy_vec(values) })
            },
            ColumnData::Utf8 { nulls, values } => {
                if !check_mask(nulls, values.len()) {
                    return Err(ColumnError::NullMaskLength);
                }
                Ok(ArrayOrd::Utf8 { nulls: copy_mask(nulls), values: copy_strings(values) })
            },
            ColumnData::Binary { nulls, values } => {
                if !check_mask(nulls, values.len()) {
                    return Err(ColumnError::NullMaskLength);
                }
                Ok(ArrayOrd::Binary { nulls: copy_mask(nulls), values: copy_byte_rows(values) })
            },
            ColumnData::List { nulls, offsets, values } => {
                if offsets.len() == 0 {
                    return Err(ColumnError::BadOffsets);
                }
                if !check_mask(nulls, offsets.len() - 1) {
                    return Err(ColumnError::NullMaskLength);
                }
                let inner = match Self::new(&**values) {
                    Ok(a) => a,
                    Err(e) => {
                        return Err(e);
                    },
                };
                let mut i: usize = 0;
                while i < offsets.len() - 1
                    invariant
                        offsets@.len() >= 1,
                        i <= offsets@.len() - 1,
                        forall|j: int| 0 <= j < i ==> #[trigger] offsets@[j] <= offsets@[j + 1],
                        *array == (ColumnData::List {
                            nulls: *nulls,
                            offsets: *offsets,
                            values: *values,
                        }),
                        data_wf(**values),
                        mask_wf(*nulls, offsets@.len() - 1),
                    decreases offsets@.len() - 1 - i,
                {
                    if offsets[i] > offsets[i + 1] {
                        proof {
                            if data_wf(*array) {
                                assert(offsets@[i as int] <= offsets@[i as int + 1]);
                                assert(false);
                            }
                        }
                        return Err(ColumnError::BadOffsets);
                    }
                    i = i + 1;
                }
                proof {
                    lemma_mirrors_len(inner, **values);
                }
                if offsets[offsets.len() - 1] > inner.len() {
                    return Err(ColumnError::BadOffsets);
                }
                proof {
                    assert(offsets@.last() == offsets@[offsets@.len() - 1]);
                    assert(data_wf(*array));
                }
                let built = ArrayOrd::List {
                    nulls: copy_mask(nulls),
                    offsets: copy_vec(offsets),
                    values: Box::new(inner),
                };
                proof {
                    assert(wf(built));
                    assert(mirrors(built, *array));
                }
                Ok(built)
            },
            ColumnData::Struct { len, nulls, fields } => {
                if !check_mask(nulls, *len) {
                    return Err(ColumnError::NullMaskLength);
                }
                let mut built: Vec<ArrayOrd> = Vec::new();
                let mut f: usize = 0;
                while f < fields.len()
                    invariant
                        *array == (ColumnData::Struct {
                            len: *len,
                            nulls: *nulls,
                            fields: *fields,
                        }),
                        mask_wf(*nulls, *len as int),
                        f <= fields@.len(),
                        built@.len() == f,
                        forall|x: int| 0 <= x < f ==> wf(#[trigger] built@[x]),
                        forall|x: int| 0 <= x < f ==> mirrors(#[trigger] built@[x], fields@[x]),
                        forall|x: int| 0 <= x < f ==> data_wf(#[trigger] fields@[x]),
                        forall|x: int|
                            0 <= x < f ==> spec_len(#[trigger] built@[x]) == *len as int,
                    decreases fields@.len() - f,
                {
                    proof {
                        let fs = (*array)->Struct_fields;
                        assert(fs == *fields);
                        assert(decreases_to!(*array => fs));
                        assert(decreases_to!(fs => fs@));
                        assert(decreases_to!(fs@ => fs@[f as int]));
                        assert(fs@[f as int] == fields@[f as int]);
                        assert(decreases_to!(*array => fields@[f as int]));
                    }
                    let a = match Self::new(&fields[f]) {
                        Ok(a) => a,
                        Err(e) => {
                            proof {
                                if data_wf(*array) {
                                    lemma_struct_field_wf(*array, f as int);
                                    assert(data_wf(fields@[f as int]));
                                    assert(false);
                                }
                            }
                            return Err(e);
                        },
                    };
                    if a.len() != *len {
                        proof {
                            lemma_mirrors_len(a, fields@[f as int]);
                            assert(data_len(fields@[f as int]) != *len as int);
                            if data_wf(*array) {
                                lemma_struct_field_wf(*array, f as int);
                                assert(data_len(fields@[f as int]) == *len as int);
                                assert(false);
                            }
                        }
                        return Err(ColumnError::FieldLength);
                    }
                    proof {
                        lemma_mirrors_len(a, fields@[f as int]);
                    }
                    built.push(a);
                    f = f + 1;
                }
                proof {
                    assert forall|x: int| 0 <= x < fields@.len() implies data_len(
                        #[trigger] fields@[x],
                    ) == *len as int by {
                        lemma_mirrors_len(built@[x], fields@[x]);
                    }
                    assert(data_wf(*array));
                }
                let result = ArrayOrd::Struct { len: *len, nulls: copy_mask(nulls), fields: built };
                proof {
                    assert(wf(result));
                    assert(mirrors(result, *array));
                }
                Ok(result)
            },
        }
    }
}

} // verus!
