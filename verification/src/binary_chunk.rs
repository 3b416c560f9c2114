//! The decoded form of a chunk: a header, and a tree of function prototypes.

use vstd::prelude::*;

verus! {

/// The mathematical values of the elements of `v`, in order.
pub open spec fn views<T: View>(v: Seq<T>) -> Seq<T::V> {
    Seq::new(v.len(), |i: int| v[i]@)
}

/// Where a closure finds one captured variable in the enclosing frame.
#[derive(Clone, Copy, Debug, PartialEq, Eq, Structural)]
pub struct UpValue {
    pub instack: u8,
    pub idx: u8,
}

/// The scope of one local variable, for debugging.
#[derive(Debug, PartialEq, Eq)]
pub struct LocVar {
    pub var_name: String,
    pub start_pc: u32,
    pub end_pc: u32,
}

/// Mathematical value of a [`LocVar`].
pub struct LocVarView {
    pub var_name: Seq<char>,
    pub start_pc: u32,
    pub end_pc: u32,
}

impl View for LocVar {
    type V = LocVarView;

    open spec fn view(&self) -> LocVarView {
        LocVarView { var_name: self.var_name@, start_pc: self.start_pc, end_pc: self.end_pc }
    }
}

/// The payload of a constant.
#[derive(Debug, PartialEq, Eq)]
pub enum ConstantValue {
    Nil,
    Boolean(bool),
    Integer(i64),
    /// An IEEE-754 double, held as its 64-bit pattern.
    Number(u64),
    Str(String),
}

/// Mathematical value of a [`ConstantValue`].
pub enum ConstantValueView {
    Nil,
    Boolean(bool),
    Integer(i64),
    Number(u64),
    Str(Seq<char>),
}

impl View for ConstantValue {
    type V = ConstantValueView;

    open spec fn view(&self) -> ConstantValueView {
        match self {
            ConstantValue::Nil => ConstantValueView::Nil,
            ConstantValue::Boolean(b) => ConstantValueView::Boolean(*b),
            ConstantValue::Integer(i) => ConstantValueView::Integer(*i),
            ConstantValue::Number(n) => ConstantValueView::Number(*n),
            ConstantValue::Str(s) => ConstantValueView::Str(s@),
        }
    }
}

/// One entry of a constant pool: the tag read from the stream and the value
/// decoded under it.
#[derive(Debug, PartialEq, Eq)]
pub struct Constant {
    pub tag: u8,
    pub value: ConstantValue,
}

/// Mathematical value of a [`Constant`].
pub struct ConstantView {
    pub tag: u8,
    pub value: ConstantValueView,
}

impl View for Constant {
    type V = ConstantView;

    open spec fn view(&self) -> ConstantView {
        ConstantView { tag: self.tag, value: self.value@ }
    }
}

/// The fixed prefix of a chunk.
#[derive(Clone, Copy, Debug, PartialEq, Eq)]
pub struct Header {
    pub signature: [u8; 4],
    pub version: u8,
    pub format: u8,
    pub luac_data: [u8; 6],
    pub c_int_size: u8,
    pub size_t_size: u8,
    pub instruction_size: u8,
    pub lua_integer_size: u8,
    pub lua_number_size: u8,
    pub luac_int: i64,
    /// The sentinel double, held as its 64-bit pattern.
    pub luac_num: u64,
}

impl Header {
    /// The header that every chunk for this decoder carries: the signature
    /// `\x1bLua`, version 5.3, the official format, the transport canary, the
    /// five widths, and the two sentinels 0x5678 and 370.5.
    pub open spec fn expected() -> Header {
        Header {
            signature: [0x1bu8, 0x4cu8, 0x75u8, 0x61u8],
            version: 0x53,
            format: 0,
            luac_data: [0x19u8, 0x93u8, 0x0du8, 0x0au8, 0x1au8, 0x0au8],
            c_int_size: 4,
            size_t_size: 8,
            instruction_size: 4,
            lua_integer_size: 8,
            lua_number_size: 8,
            luac_int: 0x5678,
            luac_num: 0x4077_2800_0000_0000,
        }
    }
}

/// One compiled function, with the functions nested in it.
#[derive(Debug, PartialEq, Eq)]
pub struct Prototype {
    pub source: String,
    pub line_defined: u32,
    pub last_line_defined: u32,
    pub num_params: u8,
    pub is_vararg: u8,
    pub max_stack_size: u8,
    pub code: Vec<u32>,
    pub constants: Vec<Constant>,
    pub up_values: Vec<UpValue>,
    pub protos: Vec<Prototype>,
    pub line_info: Vec<u32>,
    pub loc_vars: Vec<LocVar>,
    pub up_value_names: Vec<String>,
}

/// Mathematical value of a [`Prototype`]: the same tree over sequences.
pub struct PrototypeView {
    pub source: Seq<char>,
    pub line_defined: u32,
    pub last_line_defined: u32,
    pub num_params: u8,
    pub is_vararg: u8,
    pub max_stack_size: u8,
    pub code: Seq<u32>,
    pub constants: Seq<ConstantView>,
    pub up_values: Seq<UpValue>,
    pub protos: Seq<PrototypeView>,
    pub line_info: Seq<u32>,
    pub loc_vars: Seq<LocVarView>,
    pub up_value_names: Seq<Seq<char>>,
}

/// The mathematical value of `p`, nested functions included.
pub open spec fn proto_view(p: Prototype) -> PrototypeView
    decreases p,
{
    PrototypeView {
        source: p.source@,
        line_defined: p.line_defined,
        last_line_defined: p.last_line_defined,
        num_params: p.num_params,
        is_vararg: p.is_vararg,
        max_stack_size: p.max_stack_size,
        code: p.code@,
        constants: views(p.constants@),
        up_values: p.up_values@,
        protos: Seq::new(
            p.protos@.len(),
            |i: int|
                if 0 <= i < p.protos@.len() {
                    proto_view(p.protos@[i])
                } else {
                    arbitrary()
                },
        ),
        line_info: p.line_info@,
        loc_vars: views(p.loc_vars@),
        up_value_names: views(p.up_value_names@),
    }
}

impl View for Prototype {
    type V = PrototypeView;

    open spec fn view(&self) -> PrototypeView {
        proto_view(*self)
    }
}

impl PrototypeView {
    /// The function without a name, parameters, code or anything else.
    pub open spec fn empty() -> PrototypeView {
        PrototypeView {
            source: Seq::empty(),
            line_defined: 0,
            last_line_defined: 0,
            num_params: 0,
            is_vararg: 0,
            max_stack_size: 0,
            code: Seq::empty(),
            constants: Seq::empty(),
            up_values: Seq::empty(),
            protos: Seq::empty(),
            line_info: Seq::empty(),
            loc_vars: Seq::empty(),
            up_value_names: Seq::empty(),
        }
    }
}

impl Prototype {
    /// The empty function.
    pub fn new() -> (p: Prototype)
        ensures
            p@ == PrototypeView::empty(),
    {
        let p = Prototype {
            source: String::new(),
            line_defined: 0,
            last_line_defined: 0,
            num_params: 0,
            is_vararg: 0,
            max_stack_size: 0,
            code: Vec::new(),
            constants: Vec::new(),
            up_values: Vec::new(),
            protos: Vec::new(),
            line_info: Vec::new(),
            loc_vars: Vec::new(),
            up_value_names: Vec::new(),
        };
        proof {
            assert(p@.constants =~= Seq::empty());
            assert(p@.protos =~= Seq::empty());
            assert(p@.loc_vars =~= Seq::empty());
            assert(p@.up_value_names =~= Seq::empty());
        }
        p
    }
}

/// The nested functions of a prototype are viewed like any other list.
pub proof fn lemma_view_protos(p: Prototype)
    ensures
        p@.protos == views(p.protos@),
{
    let inner = p.protos@;
    assert(p@.protos =~= views(inner));
}

/// A decoded chunk.
#[derive(Debug, PartialEq, Eq)]
pub struct BinaryChunk {
    pub header: Header,
    pub size_up_values: u8,
    pub main_func: Prototype,
}

/// Mathematical value of a [`BinaryChunk`].
pub struct BinaryChunkView {
    pub header: Header,
    pub size_up_values: u8,
    pub main_func: PrototypeView,
}

impl View for BinaryChunk {
    type V = BinaryChunkView;

    open spec fn view(&self) -> BinaryChunkView {
        BinaryChunkView {
            header: self.header,
            size_up_values: self.size_up_values,
            main_func: self.main_func@,
        }
    }
}

impl BinaryChunk {
    /// The chunk with the expected header and the empty function as its main
    /// function.
    pub fn new() -> (c: BinaryChunk)
        ensures
            c@ == (BinaryChunkView {
                header: Header::expected(),
                size_up_values: 0,
                main_func: PrototypeView::empty(),
            }),
    {
        BinaryChunk {
            header: Header {
                signature: [0x1b, 0x4c, 0x75, 0x61],
                version: 0x53,
                format: 0,
                luac_data: [0x19, 0x93, 0x0d, 0x0a, 0x1a, 0x0a],
                c_int_size: 4,
                size_t_size: 8,
                instruction_size: 4,
                lua_integer_size: 8,
                lua_number_size: 8,
                luac_int: 0x5678,
                luac_num: 0x4077_2800_0000_0000,
            },
            size_up_values: 0,
            main_func: Prototype::new(),
        }
    }
}

} // verus!
