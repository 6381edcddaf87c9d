//! The code-object side of the interpreter: instructions, labels, constants,
//! and the read-only code object a frame executes.

use vstd::prelude::*;

verus! {

/// A symbolic jump target, resolved to an instruction index through the code
/// object's label map.
#[derive(Clone, Copy, PartialEq, Eq, Structural, Debug)]
pub struct Label(pub usize);

/// Which variant of the scope a name operation addresses.
#[derive(Clone, Copy, PartialEq, Eq, Structural, Debug)]
pub enum NameScope {
    Local,
    NonLocal,
    Global,
}

/// An encoded constant, materialized into a runtime value by `Vm::unwrap_constant`.
#[derive(Debug)]
pub enum Constant {
    Integer { value: i64 },
    Boolean { value: bool },
    Str { value: String },
    Tuple { elements: Vec<Constant> },
    NoneConst,
}

#[derive(Clone, Copy, PartialEq, Eq, Structural, Debug)]
pub enum BinaryOperator {
    Power,
    Multiply,
    MatrixMultiply,
    Divide,
    FloorDivide,
    Modulo,
    Add,
    Subtract,
    Subscript,
    Lshift,
    Rshift,
    And,
    Xor,
    Or,
}

#[derive(Clone, Copy, PartialEq, Eq, Structural, Debug)]
pub enum UnaryOperator {
    Not,
    Invert,
    Minus,
    Plus,
}

#[derive(Clone, Copy, PartialEq, Eq, Structural, Debug)]
pub enum ComparisonOperator {
    Greater,
    GreaterOrEqual,
    Less,
    LessOrEqual,
    Equal,
    NotEqual,
    In,
    NotIn,
    Is,
    IsNot,
}

/// How the arguments of a `CallFunction` are laid out on the stack.
#[derive(Clone, Copy, PartialEq, Eq, Structural, Debug)]
pub enum CallType {
    Positional(usize),
    Keyword(usize),
    Ex(bool),
}

#[derive(Clone, Copy, PartialEq, Eq, Structural, Debug)]
pub enum ConversionFlag {
    Str,
    Repr,
    Ascii,
}

/// Which optional operands a `MakeFunction` pops besides the qualified name
/// and the code object.
#[derive(Clone, Copy, PartialEq, Eq, Structural, Debug)]
pub struct FunctionOpArg {
    pub has_defaults: bool,
    pub has_kw_only_defaults: bool,
    pub has_annotations: bool,
}

/// A source position `(row, column)` attached to each instruction.
#[derive(Clone, Copy, PartialEq, Eq, Structural, Debug)]
pub struct Location {
    pub row: usize,
    pub column: usize,
}

impl Location {
    pub fn row(&self) -> (r: usize)
        ensures
            r == self.row,
    {
        self.row
    }
}

#[derive(Debug)]
pub enum Instruction {
    Import { name: Option<String>, symbols: Vec<String>, level: usize },
    ImportStar,
    ImportFrom { name: String },
    LoadName { name: String, scope: NameScope },
    StoreName { name: String, scope: NameScope },
    DeleteName { name: String },
    StoreSubscript,
    DeleteSubscript,
    StoreAttr { name: String },
    DeleteAttr { name: String },
    LoadAttr { name: String },
    LoadConst { value: Constant },
    UnaryOperation { op: UnaryOperator },
    BinaryOperation { op: BinaryOperator, inplace: bool },
    CompareOperation { op: ComparisonOperator },
    Pop,
    Rotate { amount: usize },
    Duplicate,
    GetIter,
    Pass,
    Continue,
    Break,
    Jump { target: Label },
    JumpIfTrue { target: Label },
    JumpIfFalse { target: Label },
    JumpIfTrueOrPop { target: Label },
    JumpIfFalseOrPop { target: Label },
    MakeFunction { flags: FunctionOpArg },
    CallFunction { typ: CallType },
    ForIter { target: Label },
    ReturnValue,
    YieldValue,
    YieldFrom,
    SetupLoop { start: Label, end: Label },
    SetupExcept { handler: Label },
    SetupWith { end: Label },
    CleanupWith { end: Label },
    PopBlock,
    Raise { argc: usize },
    BuildString { size: usize },
    BuildTuple { size: usize, unpack: bool },
    BuildList { size: usize, unpack: bool },
    BuildSet { size: usize, unpack: bool },
    BuildMap { size: usize, unpack: bool },
    BuildSlice { size: usize },
    ListAppend { i: usize },
    SetAdd { i: usize },
    MapAdd { i: usize },
    PrintExpr,
    LoadBuildClass,
    UnpackSequence { size: usize },
    UnpackEx { before: usize, after: usize },
    Unpack,
    FormatValue { conversion: Option<ConversionFlag>, spec: String },
    PopException,
    Reverse { amount: usize },
}

/// The read-only input a frame executes: an instruction sequence, a label map,
/// one source location per instruction, and naming metadata for tracebacks.
#[derive(Debug)]
pub struct CodeObject {
    pub instructions: Vec<Instruction>,
    pub label_map: Vec<(Label, usize)>,
    pub locations: Vec<Location>,
    pub obj_name: String,
    pub source_path: String,
}

/// The instruction index a label resolves to, if the label is known.
pub open spec fn spec_label_target(map: Seq<(Label, usize)>, label: Label) -> Option<usize>
    decreases map.len(),
{
    if map.len() == 0 {
        Option::None
    } else if map[0].0 == label {
        Option::Some(map[0].1)
    } else {
        spec_label_target(map.skip(1), label)
    }
}

impl CodeObject {
    pub open spec fn spec_target(&self, label: Label) -> Option<usize> {
        spec_label_target(self.label_map@, label)
    }

    /// Resolve a label to an instruction index.
    pub fn label_target(&self, label: Label) -> (r: Option<usize>)
        ensures
            r == self.spec_target(label),
    {
        let mut i: usize = 0;
        proof {
            assert(self.label_map@.skip(0) =~= self.label_map@);
        }
        while i < self.label_map.len()
            invariant
                i <= self.label_map.len(),
                spec_label_target(self.label_map@, label) == spec_label_target(
                    self.label_map@.skip(i as int),
                    label,
                ),
            decreases self.label_map.len() - i,
        {
            let (l, t) = self.label_map[i];
            if l == label {
                assert(self.label_map@.skip(i as int)[0] == self.label_map@[i as int]);
                return Option::Some(t);
            }
            assert(self.label_map@.skip(i as int).skip(1) =~= self.label_map@.skip(i + 1));
            i = i + 1;
        }
        assert(self.label_map@.skip(i as int).len() == 0);
        Option::None
    }
}

} // verus!
