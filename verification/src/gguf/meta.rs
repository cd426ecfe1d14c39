//! Metadata values.
use vstd::prelude::*;

verus! {

/// A metadata value.  Floating-point values are held as their IEEE-754 bit patterns.
#[derive(Debug)]
pub enum MetaValue {
    U8(u8),
    I8(i8),
    U16(u16),
    I16(i16),
    U32(u32),
    I32(i32),
    F32(u32),
    Bool(bool),
    String(String),
    Array(u32, Vec<MetaValue>),
    U64(u64),
    I64(i64),
    F64(u64),
}

/// What a metadata value stands for.
pub enum MetaModel {
    U8(u8),
    I8(i8),
    U16(u16),
    I16(i16),
    U32(u32),
    I32(i32),
    F32(u32),
    Bool(bool),
    Text(Seq<char>),
    Array(u32, Seq<MetaModel>),
    U64(u64),
    I64(i64),
    F64(u64),
}

impl View for MetaValue {
    type V = MetaModel;

    open spec fn view(&self) -> MetaModel {
        model_of(*self)
    }
}

/// The model of a value.
pub open spec fn model_of(v: MetaValue) -> MetaModel
    decreases v,
{
    match v {
        MetaValue::U8(x) => MetaModel::U8(x),
        MetaValue::I8(x) => MetaModel::I8(x),
        MetaValue::U16(x) => MetaModel::U16(x),
        MetaValue::I16(x) => MetaModel::I16(x),
        MetaValue::U32(x) => MetaModel::U32(x),
        MetaValue::I32(x) => MetaModel::I32(x),
        MetaValue::F32(x) => MetaModel::F32(x),
        MetaValue::Bool(x) => MetaModel::Bool(x),
        MetaValue::String(x) => MetaModel::Text(x@),
        MetaValue::Array(t, items) => MetaModel::Array(
            t,
            Seq::new(
                items@.len(),
                |i: int|
                    if 0 <= i < items@.len() {
                        model_of(items@[i])
                    } else {
                        arbitrary()
                    },
            ),
        ),
        MetaValue::U64(x) => MetaModel::U64(x),
        MetaValue::I64(x) => MetaModel::I64(x),
        MetaValue::F64(x) => MetaModel::F64(x),
    }
}

/// The models of a run of values.
pub open spec fn models_of(items: Seq<MetaValue>) -> Seq<MetaModel> {
    items.map_values(|v: MetaValue| v@)
}

/// An array's model lists the models of its items.
pub proof fn lemma_array_model(t: u32, items: Vec<MetaValue>)
    ensures
        MetaValue::Array(t, items)@ == MetaModel::Array(t, models_of(items@)),
{
    let m = MetaValue::Array(t, items)@;
    assert(m->Array_1 =~= models_of(items@));
}

impl MetaModel {
    pub open spec fn text(self) -> Option<Seq<char>> {
        match self {
            MetaModel::Text(s) => Some(s),
            _ => None,
        }
    }

    pub open spec fn word(self) -> Option<u32> {
        match self {
            MetaModel::U32(x) => Some(x),
            _ => None,
        }
    }

    pub open spec fn float_bits(self) -> Option<u32> {
        match self {
            MetaModel::F32(x) => Some(x),
            _ => None,
        }
    }

    pub open spec fn long(self) -> Option<u64> {
        match self {
            MetaModel::U64(x) => Some(x),
            _ => None,
        }
    }

    pub open spec fn truth(self) -> Option<bool> {
        match self {
            MetaModel::Bool(x) => Some(x),
            _ => None,
        }
    }

    pub open spec fn items(self) -> Option<Seq<MetaModel>> {
        match self {
            MetaModel::Array(_, s) => Some(s),
            _ => None,
        }
    }
}

impl MetaValue {
    pub fn as_str(&self) -> (r: Option<&str>)
        ensures
            match r {
                Some(s) => self@.text() == Some(s@),
                None => self@.text() is None,
            },
    {
        match self {
            MetaValue::String(s) => Some(s.as_str()),
            _ => None,
        }
    }

    pub fn as_u32(&self) -> (r: Option<u32>)
        ensures
            r == self@.word(),
    {
        match self {
            MetaValue::U32(x) => Some(*x),
            _ => None,
        }
    }

    /// The bit pattern of a single-precision value.
    pub fn as_f32_bits(&self) -> (r: Option<u32>)
        ensures
            r == self@.float_bits(),
    {
        match self {
            MetaValue::F32(x) => Some(*x),
            _ => None,
        }
    }

    pub fn as_u64(&self) -> (r: Option<u64>)
        ensures
            r == self@.long(),
    {
        match self {
            MetaValue::U64(x) => Some(*x),
            _ => None,
        }
    }

    pub fn as_bool(&self) -> (r: Option<bool>)
        ensures
            r == self@.truth(),
    {
        match self {
            MetaValue::Bool(x) => Some(*x),
            _ => None,
        }
    }

    pub fn as_array(&self) -> (r: Option<&[MetaValue]>)
        ensures
            match r {
                Some(s) => self@.items() == Some(models_of(s@)),
                None => self@.items() is None,
            },
    {
        match self {
            MetaValue::Array(t, items) => {
                proof {
                    lemma_array_model(*t, *items);
                }
                Some(items.as_slice())
            },
            _ => None,
        }
    }
}

} // verus!
