//! Tensor element types and their block layout.
use vstd::prelude::*;

verus! {

/// Element type of a tensor.
#[allow(non_camel_case_types)]
#[derive(Debug, Clone, Copy, PartialEq, Eq, Structural)]
pub enum GgmlDType {
    F32,
    F16,
    Q4_0,
    Q4_1,
    Q5_0,
    Q5_1,
    Q8_0,
    Q8_1,
    Q2_K,
    Q3_K,
    Q4_K,
    Q5_K,
    Q6_K,
    Q8_K,
    IQ2_XXS,
    IQ2_XS,
    IQ3_XXS,
    IQ1_S,
    IQ4_NL,
    IQ3_S,
    IQ2_S,
    IQ4_XS,
    I8,
    I16,
    I32,
    I64,
    F64,
    IQ1_M,
    BF16,
    Q4_0_4_4,
    Q4_0_4_8,
    Q4_0_8_8,
    TQ1_0,
    TQ2_0,
    IQ4_NL_4x4,
    IQ4_NL_4x8,
    IQ4_NL_8x8,
    Q1_0,
    Q2_0,
    Q1_0_G128,
}

/// The element type with the given numeric id.  Id 39 is an older spelling of 43.
pub open spec fn dtype_of_id(id: u32) -> Option<GgmlDType> {
    match id {
        0u32 => Some(GgmlDType::F32),
        1u32 => Some(GgmlDType::F16),
        2u32 => Some(GgmlDType::Q4_0),
        3u32 => Some(GgmlDType::Q4_1),
        6u32 => Some(GgmlDType::Q5_0),
        7u32 => Some(GgmlDType::Q5_1),
        8u32 => Some(GgmlDType::Q8_0),
        9u32 => Some(GgmlDType::Q8_1),
        10u32 => Some(GgmlDType::Q2_K),
        11u32 => Some(GgmlDType::Q3_K),
        12u32 => Some(GgmlDType::Q4_K),
        13u32 => Some(GgmlDType::Q5_K),
        14u32 => Some(GgmlDType::Q6_K),
        15u32 => Some(GgmlDType::Q8_K),
        16u32 => Some(GgmlDType::IQ2_XXS),
        17u32 => Some(GgmlDType::IQ2_XS),
        18u32 => Some(GgmlDType::IQ3_XXS),
        19u32 => Some(GgmlDType::IQ1_S),
        20u32 => Some(GgmlDType::IQ4_NL),
        21u32 => Some(GgmlDType::IQ3_S),
        22u32 => Some(GgmlDType::IQ2_S),
        23u32 => Some(GgmlDType::IQ4_XS),
        24u32 => Some(GgmlDType::I8),
        25u32 => Some(GgmlDType::I16),
        26u32 => Some(GgmlDType::I32),
        27u32 => Some(GgmlDType::I64),
        28u32 => Some(GgmlDType::F64),
        29u32 => Some(GgmlDType::IQ1_M),
        30u32 => Some(GgmlDType::BF16),
        31u32 => Some(GgmlDType::Q4_0_4_4),
        32u32 => Some(GgmlDType::Q4_0_4_8),
        33u32 => Some(GgmlDType::Q4_0_8_8),
        34u32 => Some(GgmlDType::TQ1_0),
        35u32 => Some(GgmlDType::TQ2_0),
        36u32 => Some(GgmlDType::IQ4_NL_4x4),
        37u32 => Some(GgmlDType::IQ4_NL_4x8),
        38u32 => Some(GgmlDType::IQ4_NL_8x8),
        39u32 | 43u32 => Some(GgmlDType::Q1_0_G128),
        41u32 => Some(GgmlDType::Q1_0),
        42u32 => Some(GgmlDType::Q2_0),
        _ => None,
    }
}

/// Number of elements that share one block.
pub open spec fn block_size_of(d: GgmlDType) -> nat {
    match d {
        GgmlDType::F32 | GgmlDType::F16 | GgmlDType::I8 | GgmlDType::I16 | GgmlDType::I32
        | GgmlDType::I64 | GgmlDType::F64 | GgmlDType::BF16 => 1,
        GgmlDType::Q4_0 | GgmlDType::Q4_1 | GgmlDType::Q5_0 | GgmlDType::Q5_1
        | GgmlDType::Q8_0 | GgmlDType::Q8_1 | GgmlDType::IQ4_NL | GgmlDType::Q4_0_4_4
        | GgmlDType::Q4_0_4_8 | GgmlDType::Q4_0_8_8 | GgmlDType::TQ1_0 | GgmlDType::TQ2_0
        | GgmlDType::IQ4_NL_4x4 | GgmlDType::IQ4_NL_4x8 | GgmlDType::IQ4_NL_8x8 => 32,
        GgmlDType::Q1_0 | GgmlDType::Q2_0 | GgmlDType::Q1_0_G128 => 128,
        GgmlDType::Q2_K | GgmlDType::Q3_K | GgmlDType::Q4_K | GgmlDType::Q5_K
        | GgmlDType::Q6_K | GgmlDType::Q8_K | GgmlDType::IQ2_XXS | GgmlDType::IQ2_XS
        | GgmlDType::IQ3_XXS | GgmlDType::IQ1_S | GgmlDType::IQ3_S | GgmlDType::IQ2_S
        | GgmlDType::IQ4_XS | GgmlDType::IQ1_M => 256,
    }
}

/// Bytes that one block takes.
pub open spec fn block_bytes_of(d: GgmlDType) -> nat {
    match d {
        GgmlDType::I8 => 1,
        GgmlDType::F16 | GgmlDType::I16 | GgmlDType::BF16 => 2,
        GgmlDType::F32 | GgmlDType::I32 => 4,
        GgmlDType::I64 | GgmlDType::F64 => 8,
        GgmlDType::Q4_0 | GgmlDType::Q4_0_4_4 | GgmlDType::Q4_0_4_8 | GgmlDType::Q4_0_8_8
        | GgmlDType::Q1_0 | GgmlDType::Q1_0_G128 => 18,
        GgmlDType::Q4_1 => 20,
        GgmlDType::Q5_0 => 22,
        GgmlDType::Q5_1 => 24,
        GgmlDType::Q8_0 | GgmlDType::TQ1_0 | GgmlDType::TQ2_0 | GgmlDType::Q2_0 => 34,
        GgmlDType::Q8_1 => 40,
        GgmlDType::IQ1_S => 50,
        GgmlDType::IQ1_M => 54,
        GgmlDType::IQ2_XXS => 66,
        GgmlDType::IQ2_XS => 74,
        GgmlDType::IQ2_S => 82,
        GgmlDType::Q2_K | GgmlDType::IQ4_NL | GgmlDType::IQ4_NL_4x4
        | GgmlDType::IQ4_NL_4x8 | GgmlDType::IQ4_NL_8x8 => 84,
        GgmlDType::IQ3_XXS => 98,
        GgmlDType::Q3_K | GgmlDType::IQ3_S => 110,
        GgmlDType::Q4_K => 144,
        GgmlDType::Q5_K => 176,
        GgmlDType::Q6_K => 210,
        GgmlDType::Q8_K => 272,
        GgmlDType::IQ4_XS => 290,
    }
}

/// Number of blocks that hold `n` elements: `n / block_size`, rounded up.
pub open spec fn blocks_of(d: GgmlDType, n: nat) -> nat {
    (n + block_size_of(d) - 1) as nat / block_size_of(d)
}

/// Bytes that `n` elements take.
pub open spec fn byte_size_of(d: GgmlDType, n: nat) -> nat {
    blocks_of(d, n) * block_bytes_of(d)
}

/// Types that store each element on its own.
pub open spec fn is_plain(d: GgmlDType) -> bool {
    block_size_of(d) == 1
}

/// The printed name.
pub open spec fn name_of(d: GgmlDType) -> Seq<char> {
    match d {
        GgmlDType::F32 => "F32"@,
        GgmlDType::F16 => "F16"@,
        GgmlDType::Q4_0 => "Q4_0"@,
        GgmlDType::Q4_1 => "Q4_1"@,
        GgmlDType::Q5_0 => "Q5_0"@,
        GgmlDType::Q5_1 => "Q5_1"@,
        GgmlDType::Q8_0 => "Q8_0"@,
        GgmlDType::Q8_1 => "Q8_1"@,
        GgmlDType::Q2_K => "Q2_K"@,
        GgmlDType::Q3_K => "Q3_K"@,
        GgmlDType::Q4_K => "Q4_K"@,
        GgmlDType::Q5_K => "Q5_K"@,
        GgmlDType::Q6_K => "Q6_K"@,
        GgmlDType::Q8_K => "Q8_K"@,
        GgmlDType::IQ2_XXS => "IQ2_XXS"@,
        GgmlDType::IQ2_XS => "IQ2_XS"@,
        GgmlDType::IQ3_XXS => "IQ3_XXS"@,
        GgmlDType::IQ1_S => "IQ1_S"@,
        GgmlDType::IQ4_NL => "IQ4_NL"@,
        GgmlDType::IQ3_S => "IQ3_S"@,
        GgmlDType::IQ2_S => "IQ2_S"@,
        GgmlDType::IQ4_XS => "IQ4_XS"@,
        GgmlDType::I8 => "I8"@,
        GgmlDType::I16 => "I16"@,
        GgmlDType::I32 => "I32"@,
        GgmlDType::I64 => "I64"@,
        GgmlDType::F64 => "F64"@,
        GgmlDType::IQ1_M => "IQ1_M"@,
        GgmlDType::BF16 => "BF16"@,
        GgmlDType::Q4_0_4_4 => "Q4_0_4_4"@,
        GgmlDType::Q4_0_4_8 => "Q4_0_4_8"@,
        GgmlDType::Q4_0_8_8 => "Q4_0_8_8"@,
        GgmlDType::TQ1_0 => "TQ1_0"@,
        GgmlDType::TQ2_0 => "TQ2_0"@,
        GgmlDType::IQ4_NL_4x4 => "IQ4_NL_4x4"@,
        GgmlDType::IQ4_NL_4x8 => "IQ4_NL_4x8"@,
        GgmlDType::IQ4_NL_8x8 => "IQ4_NL_8x8"@,
        GgmlDType::Q1_0 => "Q1_0"@,
        GgmlDType::Q2_0 => "Q2_0"@,
        GgmlDType::Q1_0_G128 => "Q1_0_G128"@,
    }
}

impl GgmlDType {
    /// The type with the given id, if there is one.
    pub fn from_id(id: u32) -> (r: Option<Self>)
        ensures
            r == dtype_of_id(id),
    {
        match id {
            0 => Some(GgmlDType::F32),
            1 => Some(GgmlDType::F16),
            2 => Some(GgmlDType::Q4_0),
            3 => Some(GgmlDType::Q4_1),
            6 => Some(GgmlDType::Q5_0),
            7 => Some(GgmlDType::Q5_1),
            8 => Some(GgmlDType::Q8_0),
            9 => Some(GgmlDType::Q8_1),
            10 => Some(GgmlDType::Q2_K),
            11 => Some(GgmlDType::Q3_K),
            12 => Some(GgmlDType::Q4_K),
            13 => Some(GgmlDType::Q5_K),
            14 => Some(GgmlDType::Q6_K),
            15 => Some(GgmlDType::Q8_K),
            16 => Some(GgmlDType::IQ2_XXS),
            17 => Some(GgmlDType::IQ2_XS),
            18 => Some(GgmlDType::IQ3_XXS),
            19 => Some(GgmlDType::IQ1_S),
            20 => Some(GgmlDType::IQ4_NL),
            21 => Some(GgmlDType::IQ3_S),
            22 => Some(GgmlDType::IQ2_S),
            23 => Some(GgmlDType::IQ4_XS),
            24 => Some(GgmlDType::I8),
            25 => Some(GgmlDType::I16),
            26 => Some(GgmlDType::I32),
            27 => Some(GgmlDType::I64),
            28 => Some(GgmlDType::F64),
            29 => Some(GgmlDType::IQ1_M),
            30 => Some(GgmlDType::BF16),
            31 => Some(GgmlDType::Q4_0_4_4),
            32 => Some(GgmlDType::Q4_0_4_8),
            33 => Some(GgmlDType::Q4_0_8_8),
            34 => Some(GgmlDType::TQ1_0),
            35 => Some(GgmlDType::TQ2_0),
            36 => Some(GgmlDType::IQ4_NL_4x4),
            37 => Some(GgmlDType::IQ4_NL_4x8),
            38 => Some(GgmlDType::IQ4_NL_8x8),
            39 | 43 => Some(GgmlDType::Q1_0_G128),
            41 => Some(GgmlDType::Q1_0),
            42 => Some(GgmlDType::Q2_0),
            _ => None,
        }
    }

    /// Elements per block.
    pub fn block_size(&self) -> (r: usize)
        ensures
            r == block_size_of(*self),
    {
        match self {
            GgmlDType::F32 | GgmlDType::F16 | GgmlDType::I8 | GgmlDType::I16
            | GgmlDType::I32 | GgmlDType::I64 | GgmlDType::F64 | GgmlDType::BF16 => 1,
            GgmlDType::Q4_0 | GgmlDType::Q4_1 | GgmlDType::Q5_0 | GgmlDType::Q5_1
            | GgmlDType::Q8_0 | GgmlDType::Q8_1 | GgmlDType::IQ4_NL | GgmlDType::Q4_0_4_4
            | GgmlDType::Q4_0_4_8 | GgmlDType::Q4_0_8_8 | GgmlDType::TQ1_0
            | GgmlDType::TQ2_0 | GgmlDType::IQ4_NL_4x4 | GgmlDType::IQ4_NL_4x8
            | GgmlDType::IQ4_NL_8x8 => 32,
            GgmlDType::Q1_0 | GgmlDType::Q2_0 | GgmlDType::Q1_0_G128 => 128,
            GgmlDType::Q2_K | GgmlDType::Q3_K | GgmlDType::Q4_K | GgmlDType::Q5_K
            | GgmlDType::Q6_K | GgmlDType::Q8_K | GgmlDType::IQ2_XXS | GgmlDType::IQ2_XS
            | GgmlDType::IQ3_XXS | GgmlDType::IQ1_S | GgmlDType::IQ3_S | GgmlDType::IQ2_S
            | GgmlDType::IQ4_XS | GgmlDType::IQ1_M => 256,
        }
    }

    /// Bytes per block.
    pub fn block_bytes(&self) -> (r: usize)
        ensures
            r == block_bytes_of(*self),
    {
        match self {
            GgmlDType::I8 => 1,
            GgmlDType::F16 | GgmlDType::I16 | GgmlDType::BF16 => 2,
            GgmlDType::F32 | GgmlDType::I32 => 4,
            GgmlDType::I64 | GgmlDType::F64 => 8,
            GgmlDType::Q4_0 | GgmlDType::Q4_0_4_4 | GgmlDType::Q4_0_4_8
            | GgmlDType::Q4_0_8_8 | GgmlDType::Q1_0 | GgmlDType::Q1_0_G128 => 18,
            GgmlDType::Q4_1 => 20,
            GgmlDType::Q5_0 => 22,
            GgmlDType::Q5_1 => 24,
            GgmlDType::Q8_0 | GgmlDType::TQ1_0 | GgmlDType::TQ2_0 | GgmlDType::Q2_0 => 34,
            GgmlDType::Q8_1 => 40,
            GgmlDType::IQ1_S => 50,
            GgmlDType::IQ1_M => 54,
            GgmlDType::IQ2_XXS => 66,
            GgmlDType::IQ2_XS => 74,
            GgmlDType::IQ2_S => 82,
            GgmlDType::Q2_K | GgmlDType::IQ4_NL | GgmlDType::IQ4_NL_4x4
            | GgmlDType::IQ4_NL_4x8 | GgmlDType::IQ4_NL_8x8 => 84,
            GgmlDType::IQ3_XXS => 98,
            GgmlDType::Q3_K | GgmlDType::IQ3_S => 110,
            GgmlDType::Q4_K => 144,
            GgmlDType::Q5_K => 176,
            GgmlDType::Q6_K => 210,
            GgmlDType::Q8_K => 272,
            GgmlDType::IQ4_XS => 290,
        }
    }

    /// Bytes that `n` elements take, or `None` where the count does not fit in `usize`.
    pub fn checked_byte_size(&self, n: usize) -> (r: Option<usize>)
        ensures
            match r {
                Some(b) => b == byte_size_of(*self, n as nat),
                None => byte_size_of(*self, n as nat) > usize::MAX,
            },
    {
        let size: usize = self.block_size();
        let extra: usize = if n % size == 0 { 0 } else { 1 };
        let blocks: usize = n / size + extra;
        proof {
            lemma_div_round_up(n as int, size as int);
        }
        blocks.checked_mul(self.block_bytes())
    }

    /// Bytes that `n` elements take.
    pub fn byte_size(&self, n: usize) -> (r: usize)
        requires
            byte_size_of(*self, n as nat) <= usize::MAX,
        ensures
            r == byte_size_of(*self, n as nat),
    {
        self.checked_byte_size(n).unwrap()
    }

    pub fn name(&self) -> (r: &'static str)
        ensures
            r@ == name_of(*self),
    {
        match self {
            GgmlDType::F32 => "F32",
            GgmlDType::F16 => "F16",
            GgmlDType::Q4_0 => "Q4_0",
            GgmlDType::Q4_1 => "Q4_1",
            GgmlDType::Q5_0 => "Q5_0",
            GgmlDType::Q5_1 => "Q5_1",
            GgmlDType::Q8_0 => "Q8_0",
            GgmlDType::Q8_1 => "Q8_1",
            GgmlDType::Q2_K => "Q2_K",
            GgmlDType::Q3_K => "Q3_K",
            GgmlDType::Q4_K => "Q4_K",
            GgmlDType::Q5_K => "Q5_K",
            GgmlDType::Q6_K => "Q6_K",
            GgmlDType::Q8_K => "Q8_K",
            GgmlDType::IQ2_XXS => "IQ2_XXS",
            GgmlDType::IQ2_XS => "IQ2_XS",
            GgmlDType::IQ3_XXS => "IQ3_XXS",
            GgmlDType::IQ1_S => "IQ1_S",
            GgmlDType::IQ4_NL => "IQ4_NL",
            GgmlDType::IQ3_S => "IQ3_S",
            GgmlDType::IQ2_S => "IQ2_S",
            GgmlDType::IQ4_XS => "IQ4_XS",
            GgmlDType::I8 => "I8",
            GgmlDType::I16 => "I16",
            GgmlDType::I32 => "I32",
            GgmlDType::I64 => "I64",
            GgmlDType::F64 => "F64",
            GgmlDType::IQ1_M => "IQ1_M",
            GgmlDType::BF16 => "BF16",
            GgmlDType::Q4_0_4_4 => "Q4_0_4_4",
            GgmlDType::Q4_0_4_8 => "Q4_0_4_8",
            GgmlDType::Q4_0_8_8 => "Q4_0_8_8",
            GgmlDType::TQ1_0 => "TQ1_0",
            GgmlDType::TQ2_0 => "TQ2_0",
            GgmlDType::IQ4_NL_4x4 => "IQ4_NL_4x4",
            GgmlDType::IQ4_NL_4x8 => "IQ4_NL_4x8",
            GgmlDType::IQ4_NL_8x8 => "IQ4_NL_8x8",
            GgmlDType::Q1_0 => "Q1_0",
            GgmlDType::Q2_0 => "Q2_0",
            GgmlDType::Q1_0_G128 => "Q1_0_G128",
        }
    }

    /// Whether elements are stored in blocks with shared scales.
    pub fn is_quantized(&self) -> (r: bool)
        ensures
            r == !is_plain(*self),
    {
        !matches!(
            self,
            GgmlDType::F32 | GgmlDType::F16 | GgmlDType::BF16 | GgmlDType::F64 | GgmlDType::I8
                | GgmlDType::I16 | GgmlDType::I32 | GgmlDType::I64
        )
    }

    /// Whether the type is one of the binary and ternary formats.
    pub fn is_q1(&self) -> (r: bool)
        ensures
            r == (*self is Q1_0 || *self is Q1_0_G128 || *self is Q2_0),
    {
        matches!(self, GgmlDType::Q1_0 | GgmlDType::Q1_0_G128 | GgmlDType::Q2_0)
    }
}

/// Rounding up a quotient adds one exactly where the division leaves a remainder.
pub proof fn lemma_div_round_up(n: int, size: int)
    requires
        0 <= n,
        0 < size,
    ensures
        (n + size - 1) / size == n / size + if n % size == 0 { 0int } else { 1 },
        n / size <= n,
        n % size != 0 ==> n / size < n,
{
    assert((n + size - 1) / size == n / size + if n % size == 0 { 0int } else { 1 }
        && n / size <= n && (n % size != 0 ==> n / size < n)) by (nonlinear_arith)
        requires
            0 <= n,
            0 < size,
    {
        let q = n / size;
        let m = n % size;
        assert(n == q * size + m && 0 <= m < size);
        if m == 0 {
            assert((n + size - 1) / size == q);
        } else {
            assert((n + size - 1) / size == q + 1);
        }
    }
}

/// Two ids name the same type only where they are equal, or are 39 and 43.
pub proof fn law_ids_are_distinct(a: u32, b: u32)
    requires
        dtype_of_id(a) is Some,
        dtype_of_id(a) == dtype_of_id(b),
    ensures
        a == b || (a == 39 && b == 43) || (a == 43 && b == 39),
{
}

/// Every type has an id.
pub proof fn law_every_type_has_an_id(d: GgmlDType)
    ensures
        exists|id: u32| #[trigger] dtype_of_id(id) == Some(d),
{
    let id: u32 = match d {
        GgmlDType::F32 => 0,
        GgmlDType::F16 => 1,
        GgmlDType::Q4_0 => 2,
        GgmlDType::Q4_1 => 3,
        GgmlDType::Q5_0 => 6,
        GgmlDType::Q5_1 => 7,
        GgmlDType::Q8_0 => 8,
        GgmlDType::Q8_1 => 9,
        GgmlDType::Q2_K => 10,
        GgmlDType::Q3_K => 11,
        GgmlDType::Q4_K => 12,
        GgmlDType::Q5_K => 13,
        GgmlDType::Q6_K => 14,
        GgmlDType::Q8_K => 15,
        GgmlDType::IQ2_XXS => 16,
        GgmlDType::IQ2_XS => 17,
        GgmlDType::IQ3_XXS => 18,
        GgmlDType::IQ1_S => 19,
        GgmlDType::IQ4_NL => 20,
        GgmlDType::IQ3_S => 21,
        GgmlDType::IQ2_S => 22,
        GgmlDType::IQ4_XS => 23,
        GgmlDType::I8 => 24,
        GgmlDType::I16 => 25,
        GgmlDType::I32 => 26,
        GgmlDType::I64 => 27,
        GgmlDType::F64 => 28,
        GgmlDType::IQ1_M => 29,
        GgmlDType::BF16 => 30,
        GgmlDType::Q4_0_4_4 => 31,
        GgmlDType::Q4_0_4_8 => 32,
        GgmlDType::Q4_0_8_8 => 33,
        GgmlDType::TQ1_0 => 34,
        GgmlDType::TQ2_0 => 35,
        GgmlDType::IQ4_NL_4x4 => 36,
        GgmlDType::IQ4_NL_4x8 => 37,
        GgmlDType::IQ4_NL_8x8 => 38,
        GgmlDType::Q1_0 => 41,
        GgmlDType::Q2_0 => 42,
        GgmlDType::Q1_0_G128 => 43,
    };
    assert(dtype_of_id(id) == Some(d));
}

/// The blocks of a tensor hold all its elements, and one block fewer would not.
pub proof fn law_blocks_are_tight(d: GgmlDType, n: nat)
    ensures
        blocks_of(d, n) * block_size_of(d) >= n,
        n > 0 ==> (blocks_of(d, n) - 1) * block_size_of(d) < n,
        byte_size_of(d, 0) == 0,
{
    let size = block_size_of(d) as int;
    let b = blocks_of(d, n) as int;
    assert(b * size >= n && (n > 0 ==> (b - 1) * size < n)) by (nonlinear_arith)
        requires
            0 < size,
            0 <= n,
            b == (n + size - 1) / size,
    {
    }
    assert((size - 1) / size == 0) by (nonlinear_arith)
        requires
            0 < size,
    {
    }
}

/// Whole blocks add up: the bytes of two runs of elements, the first of whole blocks, are the
/// bytes of both together.
pub proof fn law_whole_blocks_add_up(d: GgmlDType, m: nat, n: nat)
    requires
        m % block_size_of(d) == 0,
    ensures
        byte_size_of(d, m + n) == byte_size_of(d, m) + byte_size_of(d, n),
{
    let size = block_size_of(d) as int;
    let k = m as int / size;
    assert(m as int == k * size) by (nonlinear_arith)
        requires
            m as int % size == 0,
            0 < size,
            k == m as int / size,
    {
    }
    assert((m + n + size - 1) / size == k + (n + size - 1) / size && (m + size - 1) / size == k)
        by (nonlinear_arith)
        requires
            m as int == k * size,
            0 < size,
            0 <= n,
    {
    }
    vstd::arithmetic::mul::lemma_mul_is_distributive_add_other_way(
        block_bytes_of(d) as int,
        blocks_of(d, m) as int,
        blocks_of(d, n) as int,
    );
}

} // verus!
