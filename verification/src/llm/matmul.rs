//! How a matrix product is carried out.
use vstd::hash_map::StringHashMap;
use vstd::prelude::*;

use crate::compute::{kind_of, QuantKind};
use crate::gguf::ggml::GgmlDType;
use crate::llm::pool::{div_ceil, div_up};
use crate::llm::tensor::TensorEntry;
use crate::text::{concat2, decimal, push_decimal};

verus! {

/// A dot product of a weight row with an activation.
#[derive(Debug, Clone, Copy, PartialEq, Eq, Structural)]
pub enum DotKernel {
    Q2_0,
    Q1_0,
    Q8_0,
    Q4K,
    Q4_0,
    Q4_1,
    Q5_0,
    Q5_1,
    Q6K,
}

/// How the rows of a product are computed: on the pool against a quantised activation, row by row
/// against a quantised or a plain one, or densely after expanding all weights.
#[derive(Debug, Clone, Copy, PartialEq, Eq, Structural)]
pub enum MatmulPath {
    Pool(DotKernel),
    RowsQuantised(DotKernel),
    Rows(DotKernel),
    Dense,
}

/// The path of an element type.
pub open spec fn path_of(d: GgmlDType) -> MatmulPath {
    match d {
        GgmlDType::Q2_0 => MatmulPath::Pool(DotKernel::Q2_0),
        GgmlDType::Q1_0 | GgmlDType::Q1_0_G128 => MatmulPath::Pool(DotKernel::Q1_0),
        GgmlDType::Q8_0 => MatmulPath::Pool(DotKernel::Q8_0),
        GgmlDType::Q4_0 => MatmulPath::RowsQuantised(DotKernel::Q4_0),
        GgmlDType::Q4_K => MatmulPath::Rows(DotKernel::Q4K),
        GgmlDType::Q4_1 => MatmulPath::Rows(DotKernel::Q4_1),
        GgmlDType::Q5_0 => MatmulPath::Rows(DotKernel::Q5_0),
        GgmlDType::Q5_1 => MatmulPath::Rows(DotKernel::Q5_1),
        GgmlDType::Q6_K => MatmulPath::Rows(DotKernel::Q6K),
        _ => MatmulPath::Dense,
    }
}

/// The path of an element type.
pub fn matmul_path(dtype: GgmlDType) -> (r: MatmulPath)
    ensures
        r == path_of(dtype),
{
    match dtype {
        GgmlDType::Q2_0 => MatmulPath::Pool(DotKernel::Q2_0),
        GgmlDType::Q1_0 | GgmlDType::Q1_0_G128 => MatmulPath::Pool(DotKernel::Q1_0),
        GgmlDType::Q8_0 => MatmulPath::Pool(DotKernel::Q8_0),
        GgmlDType::Q4_0 => MatmulPath::RowsQuantised(DotKernel::Q4_0),
        GgmlDType::Q4_K => MatmulPath::Rows(DotKernel::Q4K),
        GgmlDType::Q4_1 => MatmulPath::Rows(DotKernel::Q4_1),
        GgmlDType::Q5_0 => MatmulPath::Rows(DotKernel::Q5_0),
        GgmlDType::Q5_1 => MatmulPath::Rows(DotKernel::Q5_1),
        GgmlDType::Q6_K => MatmulPath::Rows(DotKernel::Q6K),
        _ => MatmulPath::Dense,
    }
}

/// What the device is asked for first, where it takes part in a product.
#[derive(Debug, Clone, Copy, PartialEq, Eq, Structural)]
pub enum DevicePath {
    Fused(QuantKind),
    Half,
    Single,
    Skip,
}

/// What the device is asked for: a fused product where it can expand the format, a half-precision
/// or single-precision one for types without a device format, and else nothing.
pub open spec fn device_path_of(
    d: GgmlDType,
    on_device: bool,
    can_expand: bool,
    has_half: bool,
) -> DevicePath {
    if !on_device {
        DevicePath::Skip
    } else if kind_of(d) is Some {
        if can_expand {
            DevicePath::Fused(kind_of(d)->0)
        } else {
            DevicePath::Skip
        }
    } else if d is F16 && has_half {
        DevicePath::Half
    } else if d is F32 {
        DevicePath::Single
    } else {
        DevicePath::Skip
    }
}

/// What the device is asked for.  `on_device` says that the layer is the device's and the weight
/// was uploaded, `can_expand` that it expands the weight's format, `has_half` that it multiplies
/// in half precision.
pub fn device_path(dtype: GgmlDType, on_device: bool, can_expand: bool, has_half: bool) -> (r:
    DevicePath)
    ensures
        r == device_path_of(dtype, on_device, can_expand, has_half),
{
    if !on_device {
        return DevicePath::Skip;
    }
    match QuantKind::from_gguf_dtype(dtype) {
        Some(kind) => if can_expand {
            DevicePath::Fused(kind)
        } else {
            DevicePath::Skip
        },
        None => match dtype {
            GgmlDType::F16 => if has_half {
                DevicePath::Half
            } else {
                DevicePath::Skip
            },
            GgmlDType::F32 => DevicePath::Single,
            _ => DevicePath::Skip,
        },
    }
}

/// A product that can be carried out.
#[derive(Debug, Clone, Copy, PartialEq, Eq, Structural)]
pub struct MatmulPlan {
    pub n_rows: usize,
    pub n_cols: usize,
    pub row_bytes: usize,
    pub path: MatmulPath,
}

pub open spec fn not_found_text(name: Seq<char>) -> Seq<char> {
    "Tensor not found: "@ + name
}

pub open spec fn mismatch_text(name: Seq<char>, cols: usize, x_len: usize) -> Seq<char> {
    "Matmul dim mismatch: "@ + name + " cols="@ + decimal(cols as nat) + " x.len="@ + decimal(
        x_len as nat,
    )
}

/// Whether a product of a stored weight with an activation of `x_len` elements can be carried
/// out, and how; or why not.
pub open spec fn plan_of(
    tensors: Map<Seq<char>, TensorEntry>,
    name: Seq<char>,
    x_len: usize,
) -> Result<MatmulPlan, Seq<char>> {
    if !tensors.contains_key(name) {
        Err(not_found_text(name))
    } else {
        let t = tensors[name];
        if t.cols() == 0 || x_len != t.cols() {
            Err(mismatch_text(name, t.cols(), x_len))
        } else {
            Ok(
                MatmulPlan {
                    n_rows: t.rows(),
                    n_cols: t.cols(),
                    row_bytes: t.row_size() as usize,
                    path: path_of(t.dtype),
                },
            )
        }
    }
}

fn tensor_not_found(name: &str) -> (r: String)
    ensures
        r@ == not_found_text(name@),
{
    concat2("Tensor not found: ", name)
}

/// Every tensor's rows can be addressed.
pub open spec fn rows_addressable(tensors: Map<Seq<char>, TensorEntry>) -> bool {
    forall|k: Seq<char>| #[trigger]
        tensors.contains_key(k) ==> tensors[k].row_size() <= usize::MAX
}

/// Plans the product of a stored weight with an activation of `x_len` elements.
pub fn plan_matmul(tensors: &StringHashMap<TensorEntry>, name: &str, x_len: usize) -> (r: Result<
    MatmulPlan,
    String,
>)
    requires
        rows_addressable(tensors@),
    ensures
        match r {
            Ok(p) => plan_of(tensors@, name@, x_len) == Ok::<MatmulPlan, Seq<char>>(p),
            Err(e) => plan_of(tensors@, name@, x_len) == Err::<MatmulPlan, Seq<char>>(e@),
        },
{
    let entry = match tensors.get(name) {
        Some(t) => t,
        None => return Err(tensor_not_found(name)),
    };
    let n_cols: usize = entry.n_cols();
    if n_cols == 0 || x_len != n_cols {
        let mut out = concat2("Matmul dim mismatch: ", name);
        out.append(" cols=");
        push_decimal(&mut out, n_cols as u64);
        out.append(" x.len=");
        push_decimal(&mut out, x_len as u64);
        return Err(out);
    }
    Ok(
        MatmulPlan {
            n_rows: entry.n_rows(),
            n_cols,
            row_bytes: entry.dtype.byte_size(n_cols),
            path: matmul_path(entry.dtype),
        },
    )
}

/// How products that share an activation are carried out: on the pool one after the other, or as
/// separate products.
#[derive(Debug, Clone, Copy, PartialEq, Eq, Structural)]
pub enum FusedPlan {
    Pool { rows_a: usize, rows_b: usize, rows_c: usize, n_cols: usize, row_bytes: usize },
    Separate,
}

pub open spec fn is_binary(d: GgmlDType) -> bool {
    d is Q1_0 || d is Q1_0_G128
}

fn binary_format(d: GgmlDType) -> (r: bool)
    ensures
        r == is_binary(d),
{
    matches!(d, GgmlDType::Q1_0_G128 | GgmlDType::Q1_0)
}

pub open spec fn fused2_mismatch(
    a: Seq<char>,
    cols_a: usize,
    b: Seq<char>,
    cols_b: usize,
    x_len: usize,
) -> Seq<char> {
    "Matmul fused2 dim mismatch: "@ + a + " cols="@ + decimal(cols_a as nat) + " "@ + b + " cols="@
        + decimal(cols_b as nat) + " x.len="@ + decimal(x_len as nat)
}

/// Two products with one activation: on the pool where both weights are binary in groups of 128,
/// separate elsewhere.  The third row count is zero.
pub open spec fn fused2_of(
    tensors: Map<Seq<char>, TensorEntry>,
    a: Seq<char>,
    b: Seq<char>,
    x_len: usize,
) -> Result<FusedPlan, Seq<char>> {
    if !tensors.contains_key(a) {
        Err(not_found_text(a))
    } else if !tensors.contains_key(b) {
        Err(not_found_text(b))
    } else {
        let (ta, tb) = (tensors[a], tensors[b]);
        if ta.cols() != tb.cols() || ta.cols() == 0 || x_len != ta.cols() {
            Err(fused2_mismatch(a, ta.cols(), b, tb.cols(), x_len))
        } else if !(ta.dtype is Q1_0_G128 && tb.dtype is Q1_0_G128) {
            Ok(FusedPlan::Separate)
        } else {
            Ok(
                FusedPlan::Pool {
                    rows_a: ta.rows(),
                    rows_b: tb.rows(),
                    rows_c: 0,
                    n_cols: ta.cols(),
                    row_bytes: ta.row_size() as usize,
                },
            )
        }
    }
}

/// Plans two products with one activation of `x_len` elements.
pub fn plan_fused2(tensors: &StringHashMap<TensorEntry>, a: &str, b: &str, x_len: usize) -> (r:
    Result<FusedPlan, String>)
    requires
        rows_addressable(tensors@),
    ensures
        match r {
            Ok(p) => fused2_of(tensors@, a@, b@, x_len) == Ok::<FusedPlan, Seq<char>>(p),
            Err(e) => fused2_of(tensors@, a@, b@, x_len) == Err::<FusedPlan, Seq<char>>(e@),
        },
{
    let ta = match tensors.get(a) {
        Some(t) => t,
        None => return Err(tensor_not_found(a)),
    };
    let tb = match tensors.get(b) {
        Some(t) => t,
        None => return Err(tensor_not_found(b)),
    };
    let n_cols: usize = ta.n_cols();
    if n_cols != tb.n_cols() || n_cols == 0 || x_len != n_cols {
        let mut out = concat2("Matmul fused2 dim mismatch: ", a);
        out.append(" cols=");
        push_decimal(&mut out, n_cols as u64);
        out.append(" ");
        out.append(b);
        out.append(" cols=");
        push_decimal(&mut out, tb.n_cols() as u64);
        out.append(" x.len=");
        push_decimal(&mut out, x_len as u64);
        return Err(out);
    }
    if !matches!(ta.dtype, GgmlDType::Q1_0_G128) || !matches!(tb.dtype, GgmlDType::Q1_0_G128) {
        return Ok(FusedPlan::Separate);
    }
    Ok(
        FusedPlan::Pool {
            rows_a: ta.n_rows(),
            rows_b: tb.n_rows(),
            rows_c: 0,
            n_cols,
            row_bytes: ta.dtype.byte_size(n_cols),
        },
    )
}

pub open spec fn qkv_mismatch(q: usize, k: usize, v: usize, x_len: usize) -> Seq<char> {
    "QKV fused dim mismatch: cols "@ + decimal(q as nat) + " "@ + decimal(k as nat) + " "@
        + decimal(v as nat) + " x.len="@ + decimal(x_len as nat)
}

/// Query, key and value products with one activation.
pub open spec fn fused_qkv_of(
    tensors: Map<Seq<char>, TensorEntry>,
    q: Seq<char>,
    k: Seq<char>,
    v: Seq<char>,
    x_len: usize,
) -> Result<FusedPlan, Seq<char>> {
    if !tensors.contains_key(q) {
        Err(not_found_text(q))
    } else if !tensors.contains_key(k) {
        Err(not_found_text(k))
    } else if !tensors.contains_key(v) {
        Err(not_found_text(v))
    } else {
        let (tq, tk, tv) = (tensors[q], tensors[k], tensors[v]);
        if tq.cols() != tk.cols() || tq.cols() != tv.cols() || tq.cols() == 0 || x_len
            != tq.cols() {
            Err(qkv_mismatch(tq.cols(), tk.cols(), tv.cols(), x_len))
        } else if !is_binary(tq.dtype) {
            Ok(FusedPlan::Separate)
        } else if !is_binary(tk.dtype) || !is_binary(tv.dtype) {
            Err("QKV fused dtype mismatch"@)
        } else {
            Ok(
                FusedPlan::Pool {
                    rows_a: tq.rows(),
                    rows_b: tk.rows(),
                    rows_c: tv.rows(),
                    n_cols: tq.cols(),
                    row_bytes: tq.row_size() as usize,
                },
            )
        }
    }
}

/// Plans query, key and value products with one activation of `x_len` elements.
pub fn plan_fused_qkv(
    tensors: &StringHashMap<TensorEntry>,
    q: &str,
    k: &str,
    v: &str,
    x_len: usize,
) -> (r: Result<FusedPlan, String>)
    requires
        rows_addressable(tensors@),
    ensures
        match r {
            Ok(p) => fused_qkv_of(tensors@, q@, k@, v@, x_len) == Ok::<FusedPlan, Seq<char>>(p),
            Err(e) => fused_qkv_of(tensors@, q@, k@, v@, x_len) == Err::<FusedPlan, Seq<char>>(e@),
        },
{
    let tq = match tensors.get(q) {
        Some(t) => t,
        None => return Err(tensor_not_found(q)),
    };
    let tk = match tensors.get(k) {
        Some(t) => t,
        None => return Err(tensor_not_found(k)),
    };
    let tv = match tensors.get(v) {
        Some(t) => t,
        None => return Err(tensor_not_found(v)),
    };
    let n_cols: usize = tq.n_cols();
    if n_cols != tk.n_cols() || n_cols != tv.n_cols() || n_cols == 0 || x_len != n_cols {
        let mut out = "QKV fused dim mismatch: cols ".to_owned();
        push_decimal(&mut out, n_cols as u64);
        out.append(" ");
        push_decimal(&mut out, tk.n_cols() as u64);
        out.append(" ");
        push_decimal(&mut out, tv.n_cols() as u64);
        out.append(" x.len=");
        push_decimal(&mut out, x_len as u64);
        return Err(out);
    }
    if !binary_format(tq.dtype) {
        return Ok(FusedPlan::Separate);
    }
    if !binary_format(tk.dtype) || !binary_format(tv.dtype) {
        return Err("QKV fused dtype mismatch".to_owned());
    }
    Ok(
        FusedPlan::Pool {
            rows_a: tq.n_rows(),
            rows_b: tk.n_rows(),
            rows_c: tv.n_rows(),
            n_cols,
            row_bytes: tq.dtype.byte_size(n_cols),
        },
    )
}

/// How a product with several activations is carried out: on the pool, with each activation
/// quantised to `q8_size` bytes, or token by token.
#[derive(Debug, Clone, Copy, PartialEq, Eq, Structural)]
pub enum BatchPlan {
    Pool { kernel: DotKernel, n_rows: usize, n_cols: usize, row_bytes: usize, q8_size: usize },
    EachToken { n_rows: usize, n_cols: usize },
}

pub open spec fn batch_mismatch(name: Seq<char>, cols: usize, expected: usize) -> Seq<char> {
    "Matmul_batch dim mismatch: "@ + name + " cols="@ + decimal(cols as nat) + " expected_cols="@
        + decimal(expected as nat)
}

/// A product with several activations of `n_cols` elements each.
pub open spec fn batch_of(
    tensors: Map<Seq<char>, TensorEntry>,
    name: Seq<char>,
    n_cols: usize,
) -> Result<BatchPlan, Seq<char>> {
    if !tensors.contains_key(name) {
        Err(not_found_text(name))
    } else {
        let t = tensors[name];
        if t.cols() == 0 || n_cols != t.cols() {
            Err(batch_mismatch(name, t.cols(), n_cols))
        } else if t.dtype is Q2_0 || is_binary(t.dtype) {
            Ok(
                BatchPlan::Pool {
                    kernel: if t.dtype is Q2_0 {
                        DotKernel::Q2_0
                    } else {
                        DotKernel::Q1_0
                    },
                    n_rows: t.rows(),
                    n_cols: t.cols(),
                    row_bytes: t.row_size() as usize,
                    q8_size: (div_up(t.cols() as int, 32) * 34) as usize,
                },
            )
        } else {
            Ok(BatchPlan::EachToken { n_rows: t.rows(), n_cols: t.cols() })
        }
    }
}

/// Plans a product with several activations of `n_cols` elements each.
pub fn plan_batch(tensors: &StringHashMap<TensorEntry>, name: &str, n_cols: usize) -> (r: Result<
    BatchPlan,
    String,
>)
    requires
        rows_addressable(tensors@),
        div_up(n_cols as int, 32) * 34 <= usize::MAX,
    ensures
        match r {
            Ok(p) => batch_of(tensors@, name@, n_cols) == Ok::<BatchPlan, Seq<char>>(p),
            Err(e) => batch_of(tensors@, name@, n_cols) == Err::<BatchPlan, Seq<char>>(e@),
        },
{
    let t = match tensors.get(name) {
        Some(t) => t,
        None => return Err(tensor_not_found(name)),
    };
    let cols: usize = t.n_cols();
    if cols == 0 || n_cols != cols {
        let mut out = concat2("Matmul_batch dim mismatch: ", name);
        out.append(" cols=");
        push_decimal(&mut out, cols as u64);
        out.append(" expected_cols=");
        push_decimal(&mut out, n_cols as u64);
        return Err(out);
    }
    let n_rows: usize = t.n_rows();
    let ternary = matches!(t.dtype, GgmlDType::Q2_0);
    if ternary || binary_format(t.dtype) {
        let q8_size: usize = div_ceil(cols, 32) * 34;
        let row_bytes: usize = t.dtype.byte_size(cols);
        let kernel = if ternary { DotKernel::Q2_0 } else { DotKernel::Q1_0 };
        Ok(BatchPlan::Pool { kernel, n_rows, n_cols: cols, row_bytes, q8_size })
    } else {
        Ok(BatchPlan::EachToken { n_rows, n_cols: cols })
    }
}

/// A fused product and separate ones agree on which weights fit: where a fused plan is found,
/// each of its weights has a plan of its own, with the same rows and columns.
pub proof fn law_fused_and_separate_agree(
    tensors: Map<Seq<char>, TensorEntry>,
    a: Seq<char>,
    b: Seq<char>,
    x_len: usize,
)
    requires
        fused2_of(tensors, a, b, x_len) is Ok,
    ensures
        plan_of(tensors, a, x_len) is Ok,
        plan_of(tensors, b, x_len) is Ok,
        fused2_of(tensors, a, b, x_len)->Ok_0 matches FusedPlan::Pool {
            rows_a,
            rows_b,
            rows_c,
            n_cols,
            row_bytes,
        } ==> {
            &&& rows_a == plan_of(tensors, a, x_len)->Ok_0.n_rows
            &&& rows_b == plan_of(tensors, b, x_len)->Ok_0.n_rows
            &&& n_cols == plan_of(tensors, a, x_len)->Ok_0.n_cols
            &&& row_bytes == plan_of(tensors, b, x_len)->Ok_0.row_bytes
        },
{
}

/// Fused query, key and value products and separate ones agree in the same way.
pub proof fn law_fused_qkv_and_separate_agree(
    tensors: Map<Seq<char>, TensorEntry>,
    q: Seq<char>,
    k: Seq<char>,
    v: Seq<char>,
    x_len: usize,
)
    requires
        fused_qkv_of(tensors, q, k, v, x_len) is Ok,
    ensures
        plan_of(tensors, q, x_len) is Ok,
        plan_of(tensors, k, x_len) is Ok,
        plan_of(tensors, v, x_len) is Ok,
        fused_qkv_of(tensors, q, k, v, x_len)->Ok_0 matches FusedPlan::Pool {
            rows_a,
            rows_b,
            rows_c,
            n_cols,
            row_bytes,
        } ==> {
            &&& rows_a == plan_of(tensors, q, x_len)->Ok_0.n_rows
            &&& rows_b == plan_of(tensors, k, x_len)->Ok_0.n_rows
            &&& rows_c == plan_of(tensors, v, x_len)->Ok_0.n_rows
            &&& n_cols == plan_of(tensors, q, x_len)->Ok_0.n_cols
            &&& row_bytes == plan_of(tensors, v, x_len)->Ok_0.row_bytes
        },
{
}

/// A kernel is made for the rows of a format.
pub open spec fn kernel_reads(k: DotKernel, d: GgmlDType) -> bool {
    match k {
        DotKernel::Q2_0 => d is Q2_0,
        DotKernel::Q1_0 => d is Q1_0 || d is Q1_0_G128,
        DotKernel::Q8_0 => d is Q8_0,
        DotKernel::Q4K => d is Q4_K,
        DotKernel::Q4_0 => d is Q4_0,
        DotKernel::Q4_1 => d is Q4_1,
        DotKernel::Q5_0 => d is Q5_0,
        DotKernel::Q5_1 => d is Q5_1,
        DotKernel::Q6K => d is Q6_K,
    }
}

/// Every product is carried out by a kernel that reads its format, and weights are expanded only where
/// no kernel does.  Kernels on the pool and on quantised activations are those that take such.
pub proof fn law_kernels_read_their_formats(d: GgmlDType, k: DotKernel)
    ensures
        match path_of(d) {
            MatmulPath::Pool(j) => kernel_reads(j, d) && (j is Q2_0 || j is Q1_0 || j is Q8_0),
            MatmulPath::RowsQuantised(j) => kernel_reads(j, d) && j is Q4_0,
            MatmulPath::Rows(j) => kernel_reads(j, d),
            MatmulPath::Dense => !kernel_reads(k, d),
        },
{
}

/// A product is planned for a weight that is there and as wide as the activation is long, with the rows
/// and columns of its shape; what is refused is named.
pub proof fn law_products_have_the_weights_shape(
    tensors: Map<Seq<char>, TensorEntry>,
    name: Seq<char>,
    x_len: usize,
)
    ensures
        plan_of(tensors, name, x_len) matches Ok(p) ==> {
            let t = tensors[name];
            &&& tensors.contains_key(name)
            &&& t.shape@.len() > 0 && p.n_cols == t.shape@[0] as usize && p.n_cols == x_len && x_len
                > 0
            &&& p.n_rows == if t.shape@.len() > 1 {
                t.shape@[1] as usize
            } else {
                1
            }
            &&& p.path == path_of(t.dtype)
        },
        plan_of(tensors, name, x_len) is Err <==> !tensors.contains_key(name) || x_len == 0
            || tensors[name].shape@.len() == 0 || tensors[name].shape@[0] as usize != x_len,
{
}

/// What a batch is planned with: the shape of the weight and, on the pool, a kernel that reads its
/// format.
pub proof fn law_batches_have_the_weights_shape(
    tensors: Map<Seq<char>, TensorEntry>,
    name: Seq<char>,
    n_cols: usize,
)
    ensures
        match batch_of(tensors, name, n_cols) {
            Ok(BatchPlan::Pool { kernel, n_rows, n_cols: c, row_bytes, q8_size }) => {
                let t = tensors[name];
                kernel_reads(kernel, t.dtype) && n_rows == t.rows() && c == t.cols() && c == n_cols
            },
            Ok(BatchPlan::EachToken { n_rows, n_cols: c }) => {
                let t = tensors[name];
                n_rows == t.rows() && c == t.cols() && c == n_cols && !(t.dtype is Q2_0)
                    && !is_binary(t.dtype)
            },
            Err(_) => !tensors.contains_key(name) || tensors[name].cols() != n_cols || n_cols == 0,
        },
{
}

} // verus!
