use vstd::prelude::*;

verus! {

/// Instruction codes of the stack machine that a code generator would target.
#[derive(PartialEq, Eq, Structural, Clone, Copy, Debug, Hash)]
pub enum Opcode {
    Push,
    Pop,
    Ldv,
    Stv,
    Print,
    Println,
    Readln,
    Add,
    Sub,
    Mul,
    Div,
    Halt,
    Call,
    Func,
    Ret,
    SetValue,
}

#[derive(Clone, Debug)]
pub enum Instruction {
    Op(Opcode),
    OpWithArg(Opcode, String),
    Data(String),
}

/// The byte that encodes each opcode.
pub open spec fn opcode_byte(op: Opcode) -> u8 {
    match op {
        Opcode::Push => 0x01,
        Opcode::Pop => 0x02,
        Opcode::Ldv => 0x03,
        Opcode::Stv => 0x04,
        Opcode::Print => 0x05,
        Opcode::Println => 0x06,
        Opcode::Add => 0x07,
        Opcode::Sub => 0x08,
        Opcode::Mul => 0x09,
        Opcode::Div => 0x0A,
        Opcode::Halt => 0x0B,
        Opcode::Call => 0x0C,
        Opcode::Func => 0x0D,
        Opcode::Ret => 0x0E,
        Opcode::Readln => 0xA0,
        Opcode::SetValue => 0x0F,
    }
}

impl Opcode {
    pub fn byte(&self) -> (r: u8)
        ensures
            r == opcode_byte(*self),
    {
        match self {
            Opcode::Push => 0x01,
            Opcode::Pop => 0x02,
            Opcode::Ldv => 0x03,
            Opcode::Stv => 0x04,
            Opcode::Print => 0x05,
            Opcode::Println => 0x06,
            Opcode::Add => 0x07,
            Opcode::Sub => 0x08,
            Opcode::Mul => 0x09,
            Opcode::Div => 0x0A,
            Opcode::Halt => 0x0B,
            Opcode::Call => 0x0C,
            Opcode::Func => 0x0D,
            Opcode::Ret => 0x0E,
            Opcode::Readln => 0xA0,
            Opcode::SetValue => 0x0F,
        }
    }
}

/// Every opcode once, in the order of the map's entries.
pub open spec fn opcode_order() -> Seq<Opcode> {
    seq![
        Opcode::Push,
        Opcode::Pop,
        Opcode::Ldv,
        Opcode::Stv,
        Opcode::Print,
        Opcode::Println,
        Opcode::Add,
        Opcode::Sub,
        Opcode::Mul,
        Opcode::Div,
        Opcode::Halt,
        Opcode::Call,
        Opcode::Func,
        Opcode::Ret,
        Opcode::Readln,
        Opcode::SetValue,
    ]
}

/// Every opcode once, paired with its byte.
pub fn opcode_char_map() -> (r: Vec<(Opcode, u8)>)
    ensures
        r@.len() == opcode_order().len(),
        forall|i: int|
            0 <= i < r@.len() ==> #[trigger] r@[i] == (opcode_order()[i], opcode_byte(opcode_order()[i])),
{
    let ops = vec![
        Opcode::Push,
        Opcode::Pop,
        Opcode::Ldv,
        Opcode::Stv,
        Opcode::Print,
        Opcode::Println,
        Opcode::Add,
        Opcode::Sub,
        Opcode::Mul,
        Opcode::Div,
        Opcode::Halt,
        Opcode::Call,
        Opcode::Func,
        Opcode::Ret,
        Opcode::Readln,
        Opcode::SetValue,
    ];
    assert(ops@ =~= opcode_order());
    let mut r: Vec<(Opcode, u8)> = Vec::new();
    let mut i: usize = 0;
    while i < ops.len()
        invariant
            i <= ops@.len(),
            ops@ == opcode_order(),
            r@.len() == i,
            forall|k: int| 0 <= k < i ==> #[trigger] r@[k] == (ops@[k], opcode_byte(ops@[k])),
        decreases ops@.len() - i,
    {
        let op = ops[i];
        r.push((op, op.byte()));
        i = i + 1;
    }
    r
}

} // verus!
