//! The bytecode: opcodes, instructions, runtime values, chunks and the function
//! table.
//!
//! A number is held by the bit pattern of its IEEE-754 double (see `number`).

use crate::number::{is_whole, is_zero, whole, whole_text, whole_to_string, zero};
use vstd::prelude::*;

verus! {

/// The operation of an instruction.
#[derive(Debug, Clone, Copy, PartialEq, Eq, Structural)]
pub enum OpCode {
    // Stack operations
    Push,
    Pop,
    Dup,
    // Arithmetic operations
    Add,
    Subtract,
    Multiply,
    Divide,
    Modulo,
    Power,
    Negate,
    // Comparison operations
    Equal,
    NotEqual,
    Greater,
    GreaterEqual,
    Less,
    LessEqual,
    // Logical operations
    And,
    Or,
    Not,
    // Variable operations
    GetLocal,
    SetLocal,
    GetGlobal,
    SetGlobal,
    // Control flow
    Jump,
    JumpIfFalse,
    JumpIfTrue,
    Call,
    Return,
    // Array operations
    MakeArray,
    GetIndex,
    SetIndex,
    // Database operations
    DbUse,
    DbSkip,
    DbGoTop,
    DbGoBottom,
    DbSeek,
    DbReplace,
    // Module operations
    Import,
    CallModule,
    // Output
    Print,
    // Special
    Halt,
}

/// An instruction: an opcode and, for some opcodes, an operand (a constant
/// index, a jump target, a slot index, an arity or an array size).
#[derive(Debug, Clone, Copy, PartialEq, Eq, Structural)]
pub struct Instruction {
    pub opcode: OpCode,
    pub operand: Option<usize>,
}

impl Instruction {
    /// The instruction with the given opcode and operand.
    pub fn new(opcode: OpCode, operand: Option<usize>) -> (r: Instruction)
        ensures
            r == (Instruction { opcode, operand }),
    {
        Instruction { opcode, operand }
    }
}

/// A runtime value.
#[derive(Debug)]
pub enum Value {
    Number(u64),
    String(String),
    Boolean(bool),
    Nil,
    Array(Vec<Value>),
    Function { name: String, arity: usize, address: usize },
    ModuleFunction { module: String, function: String },
}

/// What a runtime value is.
pub enum ValueView {
    Number(u64),
    String(Seq<char>),
    Boolean(bool),
    Nil,
    Array(Seq<ValueView>),
    Function { name: Seq<char>, arity: usize, address: usize },
    ModuleFunction { module: Seq<char>, function: Seq<char> },
}

/// The models of a list of values.
pub open spec fn values_model(items: &Vec<Value>) -> Seq<ValueView>
    decreases items,
{
    Seq::new(
        items.len() as nat,
        |i: int|
            if 0 <= i < items.len() {
                items[i].model()
            } else {
                ValueView::Nil
            },
    )
}

/// Whether a value counts as true: `Nil` is false, a boolean is itself, a
/// number is true unless it is zero, a string or an array is true unless it is
/// empty, a function is true.
pub open spec fn truthy(v: ValueView) -> bool {
    match v {
        ValueView::Nil => false,
        ValueView::Boolean(b) => b,
        ValueView::Number(bits) => !zero(bits),
        ValueView::String(s) => s.len() > 0,
        ValueView::Array(items) => items.len() > 0,
        ValueView::Function { .. } => true,
        ValueView::ModuleFunction { .. } => true,
    }
}

/// The numbers in a value that are not whole, in the order in which the value
/// is written out.
pub open spec fn fractions_of(v: ValueView) -> Seq<u64>
    decreases v, 0nat,
{
    match v {
        ValueView::Number(bits) => if whole(bits) {
            Seq::empty()
        } else {
            seq![bits]
        },
        ValueView::Array(items) => fractions_in(items, items.len()),
        _ => Seq::empty(),
    }
}

/// The numbers in the first `n` of `items` that are not whole.
pub open spec fn fractions_in(items: Seq<ValueView>, n: nat) -> Seq<u64>
    decreases items, n,
{
    if n == 0 || n > items.len() {
        Seq::empty()
    } else {
        fractions_in(items, (n - 1) as nat) + fractions_of(items[n - 1])
    }
}

/// The text at index `i` of `texts`, or the empty text where there is none.
pub open spec fn text_at(texts: Seq<Seq<char>>, i: int) -> Seq<char> {
    if 0 <= i < texts.len() {
        texts[i]
    } else {
        Seq::empty()
    }
}

/// A value written out. A whole number is written in decimal without a point;
/// any other number takes its text from `texts`, the first of them the text at
/// index `from`. A string is itself; booleans are `TRUE` and `FALSE`; `Nil` is
/// `NIL`; an array is its elements between braces, separated by `, `.
pub open spec fn rendered(v: ValueView, texts: Seq<Seq<char>>, from: int) -> Seq<char>
    decreases v, 0nat,
{
    match v {
        ValueView::Number(bits) => if whole(bits) {
            whole_text(bits)
        } else {
            text_at(texts, from)
        },
        ValueView::String(s) => s,
        ValueView::Boolean(b) => if b {
            "TRUE"@
        } else {
            "FALSE"@
        },
        ValueView::Nil => "NIL"@,
        ValueView::Array(items) => "{"@ + rendered_items(items, items.len(), texts, from) + "}"@,
        ValueView::Function { name, arity, address } => "<function "@ + name + "("@
            + crate::text::decimal_digits(arity as nat) + ")>"@,
        ValueView::ModuleFunction { module, function } => "<module function "@ + module + "."@
            + function + ">"@,
    }
}

/// The first `n` of `items` written out, separated by `, `.
pub open spec fn rendered_items(
    items: Seq<ValueView>,
    n: nat,
    texts: Seq<Seq<char>>,
    from: int,
) -> Seq<char>
    decreases items, n,
{
    if n == 0 || n > items.len() {
        Seq::empty()
    } else if n == 1 {
        rendered(items[0], texts, from)
    } else {
        rendered_items(items, (n - 1) as nat, texts, from) + ", "@ + rendered(
            items[n - 1],
            texts,
            from + fractions_in(items, (n - 1) as nat).len(),
        )
    }
}

/// Whether two values are equal: values of different kinds never are; numbers
/// are compared as numbers, everything else part by part.
pub open spec fn equal_values(a: ValueView, b: ValueView) -> bool
    decreases a, 0nat,
{
    match (a, b) {
        (ValueView::Number(x), ValueView::Number(y)) => crate::number::same_number(x, y),
        (ValueView::String(x), ValueView::String(y)) => x == y,
        (ValueView::Boolean(x), ValueView::Boolean(y)) => x == y,
        (ValueView::Nil, ValueView::Nil) => true,
        (ValueView::Array(x), ValueView::Array(y)) => x.len() == y.len() && equal_items(
            x,
            y,
            x.len(),
        ),
        (
            ValueView::Function { name: n1, arity: a1, address: d1 },
            ValueView::Function { name: n2, arity: a2, address: d2 },
        ) => n1 == n2 && a1 == a2 && d1 == d2,
        (
            ValueView::ModuleFunction { module: m1, function: f1 },
            ValueView::ModuleFunction { module: m2, function: f2 },
        ) => m1 == m2 && f1 == f2,
        _ => false,
    }
}

/// Whether the first `n` values of `x` equal those of `y`, one by one.
pub open spec fn equal_items(x: Seq<ValueView>, y: Seq<ValueView>, n: nat) -> bool
    decreases x, n,
{
    if n == 0 {
        true
    } else if n > x.len() || n > y.len() {
        false
    } else {
        equal_items(x, y, (n - 1) as nat) && equal_values(x[n - 1], y[n - 1])
    }
}

impl Value {
    /// What this value is.
    pub open spec fn model(&self) -> ValueView
        decreases self,
    {
        match self {
            Value::Number(bits) => ValueView::Number(*bits),
            Value::String(s) => ValueView::String(s@),
            Value::Boolean(b) => ValueView::Boolean(*b),
            Value::Nil => ValueView::Nil,
            Value::Array(items) => ValueView::Array(values_model(items)),
            Value::Function { name, arity, address } => ValueView::Function {
                name: name@,
                arity: *arity,
                address: *address,
            },
            Value::ModuleFunction { module, function } => ValueView::ModuleFunction {
                module: module@,
                function: function@,
            },
        }
    }

    /// Whether the value counts as true.
    pub fn is_truthy(&self) -> (r: bool)
        ensures
            r == truthy(self@),
    {
        match self {
            Value::Nil => false,
            Value::Boolean(b) => *b,
            Value::Number(bits) => !is_zero(*bits),
            Value::String(s) => s.as_str().unicode_len() > 0,
            Value::Array(items) => items.len() > 0,
            Value::Function { .. } => true,
            Value::ModuleFunction { .. } => true,
        }
    }

    /// A copy of the value.
    #[verifier::loop_isolation(false)]
    pub fn duplicate(&self) -> (r: Value)
        ensures
            r@ == self@,
        decreases self,
    {
        match self {
            Value::Number(bits) => Value::Number(*bits),
            Value::String(s) => Value::String(s.clone()),
            Value::Boolean(b) => Value::Boolean(*b),
            Value::Nil => Value::Nil,
            Value::Array(items) => {
                let mut copy: Vec<Value> = Vec::new();
                let mut i: usize = 0;
                while i < items.len()
                    invariant
                        i <= items.len(),
                        copy.len() == i,
                        forall|j: int| 0 <= j < i ==> copy[j]@ == items[j]@,
                    decreases items.len() - i,
                {
                    copy.push(items[i].duplicate());
                    i = i + 1;
                }
                assert(values_model(&copy) =~= values_model(items));
                Value::Array(copy)
            },
            Value::Function { name, arity, address } => Value::Function {
                name: name.clone(),
                arity: *arity,
                address: *address,
            },
            Value::ModuleFunction { module, function } => Value::ModuleFunction {
                module: module.clone(),
                function: function.clone(),
            },
        }
    }

    /// The numbers in the value that are not whole, in the order in which the
    /// value is written out. Their texts are what `to_string` takes.
    pub fn fractions(&self) -> (r: Vec<u64>)
        ensures
            r@ == fractions_of(self@),
    {
        let mut out: Vec<u64> = Vec::new();
        self.collect_fractions(&mut out);
        assert(Seq::<u64>::empty() + fractions_of(self@) =~= fractions_of(self@));
        out
    }

    #[verifier::loop_isolation(false)]
    fn collect_fractions(&self, out: &mut Vec<u64>)
        ensures
            final(out)@ == old(out)@ + fractions_of(self@),
        decreases self,
    {
        match self {
            Value::Number(bits) => {
                if !is_whole(*bits) {
                    out.push(*bits);
                    assert(old(out)@.push(*bits) =~= old(out)@ + seq![*bits]);
                } else {
                    assert(old(out)@ + Seq::<u64>::empty() =~= old(out)@);
                }
            },
            Value::Array(items) => {
                let mut i: usize = 0;
                assert(old(out)@ + Seq::<u64>::empty() =~= old(out)@);
                while i < items.len()
                    invariant
                        i <= items.len(),
                        out@ == old(out)@ + fractions_in(values_model(items), i as nat),
                    decreases items.len() - i,
                {
                    let ghost before = out@;
                    items[i].collect_fractions(out);
                    proof {
                        let m = values_model(items);
                        assert(m[i as int] == items[i as int]@);
                        assert(out@ =~= old(out)@ + (fractions_in(m, i as nat) + fractions_of(
                            m[i as int],
                        )));
                    }
                    i = i + 1;
                }
            },
            _ => {
                assert(old(out)@ + Seq::<u64>::empty() =~= old(out)@);
            },
        }
    }

    /// The value written out; `texts` holds the texts of the numbers that are not
    /// whole, in the order of `fractions`.
    pub fn to_string(&self, texts: &Vec<String>) -> (r: String)
        ensures
            r@ == rendered(self@, texts_model(texts@), 0),
    {
        let mut out = String::new();
        let used = self.render(texts, 0, &mut out);
        assert(Seq::<char>::empty() + rendered(self@, texts_model(texts@), 0) =~= rendered(
            self@,
            texts_model(texts@),
            0,
        ));
        out
    }

    /// Appends the value written out, and gives the index of the next text.
    #[verifier::loop_isolation(false)]
    fn render(&self, texts: &Vec<String>, from: usize, out: &mut String) -> (next: usize)
        ensures
            final(out)@ == old(out)@ + rendered(self@, texts_model(texts@), from as int),
            next == capped_index(from as int + fractions_of(self@).len()),
        decreases self,
    {
        let ghost t = texts_model(texts@);
        match self {
            Value::Number(bits) => {
                if is_whole(*bits) {
                    out.append(whole_to_string(*bits).as_str());
                    from
                } else {
                    if from < texts.len() {
                        out.append(texts[from].as_str());
                        assert(t[from as int] == texts@[from as int]@);
                    } else {
                        assert(old(out)@ + Seq::<char>::empty() =~= old(out)@);
                    }
                    if from < usize::MAX {
                        from + 1
                    } else {
                        from
                    }
                }
            },
            Value::String(s) => {
                out.append(s.as_str());
                from
            },
            Value::Boolean(b) => {
                if *b {
                    out.append("TRUE");
                } else {
                    out.append("FALSE");
                }
                from
            },
            Value::Nil => {
                out.append("NIL");
                from
            },
            Value::Array(items) => {
                let ghost m = values_model(items);
                out.append("{");
                let mut i: usize = 0;
                let mut at: usize = from;
                assert(out@ =~= old(out)@ + "{"@ + rendered_items(m, 0, t, from as int));
                while i < items.len()
                    invariant
                        i <= items.len(),
                        m == values_model(items),
                        t == texts_model(texts@),
                        out@ == old(out)@ + "{"@ + rendered_items(m, i as nat, t, from as int),
                        at == capped_index(from as int + fractions_in(m, i as nat).len()),
                    decreases items.len() - i,
                {
                    if i > 0 {
                        out.append(", ");
                    }
                    let ghost before = out@;
                    let next = items[i].render(texts, at, out);
                    proof {
                        assert(m[i as int] == items[i as int]@);
                        assert(t.len() == texts.len());
                        lemma_rendered_saturates(
                            m[i as int],
                            t,
                            from as int + fractions_in(m, i as nat).len(),
                        );
                        if i == 0 {
                            assert(out@ =~= old(out)@ + "{"@ + rendered(
                                m[0],
                                t,
                                from as int,
                            ));
                        } else {
                            assert(out@ =~= old(out)@ + "{"@ + (rendered_items(
                                m,
                                i as nat,
                                t,
                                from as int,
                            ) + ", "@ + rendered(
                                m[i as int],
                                t,
                                from as int + fractions_in(m, i as nat).len(),
                            )));
                        }
                    }
                    at = next;
                    i = i + 1;
                }
                out.append("}");
                assert(out@ =~= old(out)@ + ("{"@ + rendered_items(
                    m,
                    items.len() as nat,
                    t,
                    from as int,
                ) + "}"@));
                at
            },
            Value::Function { name, arity, address } => {
                out.append("<function ");
                out.append(name.as_str());
                out.append("(");
                crate::text::push_decimal(out, *arity as u64);
                out.append(")>");
                assert(out@ =~= old(out)@ + ("<function "@ + name@ + "("@
                    + crate::text::decimal_digits(*arity as nat) + ")>"@));
                from
            },
            Value::ModuleFunction { module, function } => {
                out.append("<module function ");
                out.append(module.as_str());
                out.append(".");
                out.append(function.as_str());
                out.append(">");
                assert(out@ =~= old(out)@ + ("<module function "@ + module@ + "."@ + function@
                    + ">"@));
                from
            },
        }
    }

    /// Whether two values are equal.
    #[verifier::loop_isolation(false)]
    pub fn equals(&self, other: &Value) -> (r: bool)
        ensures
            r == equal_values(self@, other@),
        decreases self,
    {
        match (self, other) {
            (Value::Number(x), Value::Number(y)) => {
                let r = crate::number::equal(*x, *y);
                assert(r == equal_values(self@, other@));
                r
            },
            (Value::String(x), Value::String(y)) => {
                let r = *x == *y;
                assert(r == equal_values(self@, other@));
                r
            },
            (Value::Boolean(x), Value::Boolean(y)) => *x == *y,
            (Value::Nil, Value::Nil) => true,
            (Value::Array(x), Value::Array(y)) => {
                if x.len() != y.len() {
                    return false;
                }
                let ghost mx = values_model(x);
                let ghost my = values_model(y);
                let mut i: usize = 0;
                while i < x.len()
                    invariant
                        i <= x.len(),
                        x.len() == y.len(),
                        mx == values_model(x),
                        my == values_model(y),
                        equal_items(mx, my, i as nat),
                    decreases x.len() - i,
                {
                    assert(mx[i as int] == x[i as int]@);
                    assert(my[i as int] == y[i as int]@);
                    if !x[i].equals(&y[i]) {
                        proof {
                            lemma_unequal_item(mx, my, (i + 1) as nat, mx.len());
                        }
                        return false;
                    }
                    i = i + 1;
                }
                assert(self@ == ValueView::Array(mx));
                assert(other@ == ValueView::Array(my));
                assert(equal_values(self@, other@));
                true
            },
            (
                Value::Function { name: n1, arity: a1, address: d1 },
                Value::Function { name: n2, arity: a2, address: d2 },
            ) => {
                let r = *n1 == *n2 && *a1 == *a2 && *d1 == *d2;
                assert(r == equal_values(self@, other@));
                r
            },
            (
                Value::ModuleFunction { module: m1, function: f1 },
                Value::ModuleFunction { module: m2, function: f2 },
            ) => {
                let r = *m1 == *m2 && *f1 == *f2;
                assert(r == equal_values(self@, other@));
                r
            },
            _ => {
                assert(!equal_values(self@, other@));
                false
            },
        }
    }
}

/// An index that stays within the machine's range.
pub open spec fn capped_index(i: int) -> usize {
    if i > usize::MAX {
        usize::MAX
    } else {
        i as usize
    }
}

/// The views of a list of texts.
pub open spec fn texts_model(texts: Seq<String>) -> Seq<Seq<char>> {
    Seq::new(texts.len(), |i: int| texts[i]@)
}

/// Beyond the last text every number that is not whole is written as the empty
/// text, wherever the count starts.
pub proof fn lemma_rendered_saturates(v: ValueView, texts: Seq<Seq<char>>, from: int)
    requires
        from >= 0,
        texts.len() <= usize::MAX,
    ensures
        rendered(v, texts, capped_index(from) as int) == rendered(v, texts, from),
{
    if from > usize::MAX {
        lemma_rendered_past_end(v, texts, usize::MAX as int);
        lemma_rendered_past_end(v, texts, from);
    }
}

/// Where the count starts at or beyond the last text, a value is written as it is
/// without any texts.
pub proof fn lemma_rendered_past_end(v: ValueView, texts: Seq<Seq<char>>, from: int)
    requires
        from >= texts.len(),
    ensures
        rendered(v, texts, from) == rendered(v, Seq::empty(), 0),
    decreases v, 0nat,
{
    match v {
        ValueView::Array(items) => {
            lemma_rendered_items_past_end(items, items.len(), texts, from);
        },
        _ => {},
    }
}

proof fn lemma_rendered_items_past_end(
    items: Seq<ValueView>,
    n: nat,
    texts: Seq<Seq<char>>,
    from: int,
)
    requires
        from >= texts.len(),
    ensures
        rendered_items(items, n, texts, from) == rendered_items(items, n, Seq::empty(), 0),
    decreases items, n,
{
    if n == 0 || n > items.len() {
    } else if n == 1 {
        lemma_rendered_past_end(items[0], texts, from);
    } else {
        lemma_rendered_items_past_end(items, (n - 1) as nat, texts, from);
        lemma_rendered_past_end(
            items[n - 1],
            texts,
            from + fractions_in(items, (n - 1) as nat).len(),
        );
        lemma_rendered_past_end(
            items[n - 1],
            Seq::empty(),
            0int + fractions_in(items, (n - 1) as nat).len(),
        );
    }
}

proof fn lemma_unequal_item(x: Seq<ValueView>, y: Seq<ValueView>, k: nat, n: nat)
    requires
        1 <= k <= n,
        !equal_values(x[k - 1], y[k - 1]),
    ensures
        !equal_items(x, y, n),
    decreases n,
{
    if n > k {
        lemma_unequal_item(x, y, k, (n - 1) as nat);
    }
}

impl View for Value {
    type V = ValueView;

    open spec fn view(&self) -> ValueView {
        self.model()
    }
}

impl Clone for Value {
    fn clone(&self) -> (r: Value)
        ensures
            r@ == self@,
    {
        self.duplicate()
    }
}

/// A compiled unit: instructions and the pool of constants that they index.
#[derive(Debug)]
pub struct Chunk {
    pub code: Vec<Instruction>,
    pub constants: Vec<Value>,
}

/// What a chunk is.
pub struct ChunkView {
    pub code: Seq<Instruction>,
    pub constants: Seq<ValueView>,
}

impl View for Chunk {
    type V = ChunkView;

    open spec fn view(&self) -> ChunkView {
        ChunkView { code: self.code@, constants: values_model(&self.constants) }
    }
}

impl Chunk {
    /// The chunk without instructions or constants.
    pub fn new() -> (r: Chunk)
        ensures
            r@.code == Seq::<Instruction>::empty(),
            r@.constants == Seq::<ValueView>::empty(),
    {
        let r = Chunk { code: Vec::new(), constants: Vec::new() };
        assert(r@.constants =~= Seq::<ValueView>::empty());
        r
    }

    /// Appends an instruction.
    pub fn write(&mut self, opcode: OpCode, operand: Option<usize>)
        ensures
            final(self)@.code == old(self)@.code.push(Instruction { opcode, operand }),
            final(self)@.constants == old(self)@.constants,
    {
        self.code.push(Instruction::new(opcode, operand));
    }

    /// Appends a constant and gives its index.
    pub fn add_constant(&mut self, value: Value) -> (r: usize)
        ensures
            final(self)@.code == old(self)@.code,
            final(self)@.constants == old(self)@.constants.push(value@),
            r == old(self)@.constants.len(),
    {
        self.constants.push(value);
        assert(self@.constants =~= old(self)@.constants.push(value@));
        self.constants.len() - 1
    }
}

/// The function table: names and the addresses where their code starts. A
/// name that is entered again takes the new address.
#[derive(Debug)]
pub struct FunctionTable {
    entries: Vec<(String, usize)>,
}

/// The address that the first `n` entries give to `name`: that of the last entry
/// with this name.
pub open spec fn lookup(entries: Seq<(Seq<char>, usize)>, n: nat, name: Seq<char>) -> Option<
    usize,
>
    decreases n,
{
    if n == 0 || n > entries.len() {
        None
    } else if entries[n - 1].0 == name {
        Some(entries[n - 1].1)
    } else {
        lookup(entries, (n - 1) as nat, name)
    }
}

impl FunctionTable {
    /// The entries in the order in which they were made.
    pub closed spec fn entries(&self) -> Seq<(Seq<char>, usize)> {
        Seq::new(self.entries.len() as nat, |i: int| (self.entries[i].0@, self.entries[i].1))
    }

    /// The address of `name`, if the table has it.
    pub open spec fn address_of(&self, name: Seq<char>) -> Option<usize> {
        lookup(self.entries(), self.entries().len(), name)
    }

    /// The empty table.
    pub fn new() -> (r: FunctionTable)
        ensures
            r.entries() == Seq::<(Seq<char>, usize)>::empty(),
    {
        let r = FunctionTable { entries: Vec::new() };
        assert(r.entries() =~= Seq::<(Seq<char>, usize)>::empty());
        r
    }

    /// Enters `name` with `address`.
    pub fn insert(&mut self, name: String, address: usize)
        ensures
            final(self).entries() == old(self).entries().push((name@, address)),
    {
        self.entries.push((name, address));
        assert(self.entries() =~= old(self).entries().push((name@, address)));
    }

    /// The address of `name`, if the table has it.
    pub fn get(&self, name: &str) -> (r: Option<usize>)
        ensures
            r == self.address_of(name@),
    {
        let mut i: usize = self.entries.len();
        while i > 0
            invariant
                i <= self.entries.len(),
                self.address_of(name@) == lookup(self.entries(), i as nat, name@),
            decreases i,
        {
            if crate::text::same_text(self.entries[i - 1].0.as_str(), name) {
                return Some(self.entries[i - 1].1);
            }
            i = i - 1;
        }
        None
    }

    /// Whether the table has `name`.
    pub fn contains_key(&self, name: &str) -> (r: bool)
        ensures
            r == self.address_of(name@) is Some,
    {
        self.get(name).is_some()
    }

    /// The number of entries.
    pub fn len(&self) -> (r: usize)
        ensures
            r == self.entries().len(),
    {
        self.entries.len()
    }

    /// The name and address of the entry at `index`.
    pub fn entry(&self, index: usize) -> (r: (&String, usize))
        requires
            index < self.entries().len(),
        ensures
            r.0@ == self.entries()[index as int].0,
            r.1 == self.entries()[index as int].1,
    {
        (&self.entries[index].0, self.entries[index].1)
    }
}


/// The name of an opcode in a listing. The name of an opcode that is listed
/// with its operand is filled with spaces to 15 characters.
pub open spec fn mnemonic(opcode: OpCode) -> Seq<char> {
    match opcode {
        OpCode::Push => "PUSH"@,
        OpCode::Pop => "POP"@,
        OpCode::Dup => "DUP"@,
        OpCode::Add => "ADD"@,
        OpCode::Subtract => "SUBTRACT"@,
        OpCode::Multiply => "MULTIPLY"@,
        OpCode::Divide => "DIVIDE"@,
        OpCode::Modulo => "MODULO"@,
        OpCode::Power => "POWER"@,
        OpCode::Negate => "NEGATE"@,
        OpCode::Equal => "EQUAL"@,
        OpCode::NotEqual => "NOT_EQUAL"@,
        OpCode::Greater => "GREATER"@,
        OpCode::GreaterEqual => "GREATER_EQUAL"@,
        OpCode::Less => "LESS"@,
        OpCode::LessEqual => "LESS_EQUAL"@,
        OpCode::And => "AND"@,
        OpCode::Or => "OR"@,
        OpCode::Not => "NOT"@,
        OpCode::GetLocal => "GET_LOCAL      "@,
        OpCode::SetLocal => "SET_LOCAL      "@,
        OpCode::GetGlobal => "GET_GLOBAL     "@,
        OpCode::SetGlobal => "SET_GLOBAL     "@,
        OpCode::Jump => "JUMP           "@,
        OpCode::JumpIfFalse => "JUMP_IF_FALSE  "@,
        OpCode::JumpIfTrue => "JUMP_IF_TRUE   "@,
        OpCode::Call => "CALL           "@,
        OpCode::Return => "RETURN"@,
        OpCode::MakeArray => "MAKE_ARRAY     "@,
        OpCode::GetIndex => "GET_INDEX"@,
        OpCode::SetIndex => "SET_INDEX"@,
        OpCode::DbUse => "DB_USE"@,
        OpCode::DbSkip => "DB_SKIP"@,
        OpCode::DbGoTop => "DB_GO_TOP"@,
        OpCode::DbGoBottom => "DB_GO_BOTTOM"@,
        OpCode::DbSeek => "DB_SEEK"@,
        OpCode::DbReplace => "DB_REPLACE"@,
        OpCode::Import => "IMPORT         "@,
        OpCode::CallModule => "CALL_MODULE    "@,
        OpCode::Print => "PRINT"@,
        OpCode::Halt => "HALT"@,
    }
}

/// The name of an opcode in a listing.
pub fn opcode_name(opcode: OpCode) -> (r: &'static str)
    ensures
        r@ == mnemonic(opcode),
{
    match opcode {
        OpCode::Push => "PUSH",
        OpCode::Pop => "POP",
        OpCode::Dup => "DUP",
        OpCode::Add => "ADD",
        OpCode::Subtract => "SUBTRACT",
        OpCode::Multiply => "MULTIPLY",
        OpCode::Divide => "DIVIDE",
        OpCode::Modulo => "MODULO",
        OpCode::Power => "POWER",
        OpCode::Negate => "NEGATE",
        OpCode::Equal => "EQUAL",
        OpCode::NotEqual => "NOT_EQUAL",
        OpCode::Greater => "GREATER",
        OpCode::GreaterEqual => "GREATER_EQUAL",
        OpCode::Less => "LESS",
        OpCode::LessEqual => "LESS_EQUAL",
        OpCode::And => "AND",
        OpCode::Or => "OR",
        OpCode::Not => "NOT",
        OpCode::GetLocal => "GET_LOCAL      ",
        OpCode::SetLocal => "SET_LOCAL      ",
        OpCode::GetGlobal => "GET_GLOBAL     ",
        OpCode::SetGlobal => "SET_GLOBAL     ",
        OpCode::Jump => "JUMP           ",
        OpCode::JumpIfFalse => "JUMP_IF_FALSE  ",
        OpCode::JumpIfTrue => "JUMP_IF_TRUE   ",
        OpCode::Call => "CALL           ",
        OpCode::Return => "RETURN",
        OpCode::MakeArray => "MAKE_ARRAY     ",
        OpCode::GetIndex => "GET_INDEX",
        OpCode::SetIndex => "SET_INDEX",
        OpCode::DbUse => "DB_USE",
        OpCode::DbSkip => "DB_SKIP",
        OpCode::DbGoTop => "DB_GO_TOP",
        OpCode::DbGoBottom => "DB_GO_BOTTOM",
        OpCode::DbSeek => "DB_SEEK",
        OpCode::DbReplace => "DB_REPLACE",
        OpCode::Import => "IMPORT         ",
        OpCode::CallModule => "CALL_MODULE    ",
        OpCode::Print => "PRINT",
        OpCode::Halt => "HALT",
    }
}

/// Whether an opcode is listed with its operand.
pub open spec fn lists_operand(opcode: OpCode) -> bool {
    match opcode {
        OpCode::GetLocal | OpCode::SetLocal | OpCode::GetGlobal | OpCode::SetGlobal | OpCode::Jump | OpCode::JumpIfFalse | OpCode::JumpIfTrue | OpCode::Call | OpCode::MakeArray | OpCode::Import | OpCode::CallModule => true,
        _ => false,
    }
}

/// Whether an opcode is listed with its operand.
pub fn has_listed_operand(opcode: OpCode) -> (r: bool)
    ensures
        r == lists_operand(opcode),
{
    match opcode {
        OpCode::GetLocal | OpCode::SetLocal | OpCode::GetGlobal | OpCode::SetGlobal | OpCode::Jump | OpCode::JumpIfFalse | OpCode::JumpIfTrue | OpCode::Call | OpCode::MakeArray | OpCode::Import | OpCode::CallModule => true,
        _ => false,
    }
}

/// An address in a listing: in decimal, with zeros in front up to four digits.
pub open spec fn address_text(n: nat) -> Seq<char> {
    let digits = crate::text::decimal_digits(n);
    if digits.len() < 4 {
        crate::text::repeated("0"@, (4 - digits.len()) as nat) + digits
    } else {
        digits
    }
}

/// The line of a listing for the instruction at `offset`: the address; the name
/// of the opcode; the operand where the opcode is listed with it (0 where it
/// has none); for a `Push`, the index of the constant and, where the chunk has
/// it, the constant between quotes.
pub open spec fn listing_line(
    chunk: ChunkView,
    offset: int,
    texts: Seq<Seq<char>>,
) -> Seq<char> {
    let instruction = chunk.code[offset];
    let head = address_text(offset as nat) + " "@;
    let body = if instruction.opcode == OpCode::Push {
        match instruction.operand {
            None => "PUSH"@,
            Some(index) => "PUSH           "@ + crate::text::decimal_digits(index as nat) + (if index
                < chunk.constants.len() {
                " '"@ + rendered(
                    chunk.constants[index as int],
                    texts,
                    fractions_in(chunk.constants, index as nat).len() as int,
                ) + "'"@
            } else {
                Seq::empty()
            }),
        }
    } else if lists_operand(instruction.opcode) {
        mnemonic(instruction.opcode) + crate::text::decimal_digits(
            match instruction.operand {
                Some(n) => n as nat,
                None => 0,
            },
        )
    } else {
        mnemonic(instruction.opcode)
    };
    head + body + "\n"@
}

/// The lines of a listing for the first `n` instructions.
pub open spec fn listing_lines(chunk: ChunkView, n: nat, texts: Seq<Seq<char>>) -> Seq<char>
    decreases n,
{
    if n == 0 || n > chunk.code.len() {
        Seq::empty()
    } else {
        listing_lines(chunk, (n - 1) as nat, texts) + listing_line(chunk, n - 1, texts)
    }
}

/// The listing of a chunk under the title `name`.
pub open spec fn listing(chunk: ChunkView, name: Seq<char>, texts: Seq<Seq<char>>) -> Seq<char> {
    "== "@ + name + " ==\n"@ + listing_lines(chunk, chunk.code.len(), texts)
}

impl Chunk {
    /// The numbers in the constants that are not whole, in the order of the
    /// pool. Their texts are what `disassemble` takes.
    pub fn fractions(&self) -> (r: Vec<u64>)
        ensures
            r@ == fractions_in(self@.constants, self@.constants.len()),
    {
        let mut out: Vec<u64> = Vec::new();
        let mut i: usize = 0;
        while i < self.constants.len()
            invariant
                i <= self.constants.len(),
                out@ == fractions_in(self@.constants, i as nat),
            decreases self.constants.len() - i,
        {
            let mut more = self.constants[i].fractions();
            assert(self@.constants[i as int] == self.constants[i as int]@);
            out.append(&mut more);
            i = i + 1;
        }
        out
    }

    /// Appends the address of a line of the listing.
    fn list_address(offset: usize, out: &mut String)
        ensures
            final(out)@ == old(out)@ + (address_text(offset as nat) + " "@),
    {
        let mut digits = String::new();
        crate::text::push_decimal(&mut digits, offset as u64);
        assert(digits@ =~= crate::text::decimal_digits(offset as nat));
        let width = digits.as_str().unicode_len();
        if width < 4 {
            let zeros = crate::text::repeat("0", 4 - width);
            out.append(zeros.as_str());
        }
        out.append(digits.as_str());
        out.append(" ");
        assert(out@ =~= old(out)@ + (address_text(offset as nat) + " "@));
    }

    /// Appends the constant of a `Push` to a line of the listing.
    fn list_constant(&self, index: usize, texts: &Vec<String>, starts: &Vec<usize>, out: &mut String)
        requires
            index < self.constants.len(),
            starts.len() == self.constants.len(),
            starts[index as int] == capped_index(
                fractions_in(self@.constants, index as nat).len() as int,
            ),
        ensures
            final(out)@ == old(out)@ + (" '"@ + rendered(
                self@.constants[index as int],
                texts_model(texts@),
                fractions_in(self@.constants, index as nat).len() as int,
            ) + "'"@),
    {
        let ghost t = texts_model(texts@);
        out.append(" '");
        assert(self@.constants[index as int] == self.constants[index as int]@);
        self.constants[index].render(texts, starts[index], out);
        proof {
            assert(t.len() == texts.len());
            lemma_rendered_saturates(
                self@.constants[index as int],
                t,
                fractions_in(self@.constants, index as nat).len() as int,
            );
        }
        out.append("'");
        assert(out@ =~= old(out)@ + (" '"@ + rendered(
            self@.constants[index as int],
            t,
            fractions_in(self@.constants, index as nat).len() as int,
        ) + "'"@));
    }

    /// Appends the line of the listing for the instruction at `offset`.
    fn list_instruction(
        &self,
        offset: usize,
        texts: &Vec<String>,
        starts: &Vec<usize>,
        out: &mut String,
    )
        requires
            offset < self.code.len(),
            starts.len() == self.constants.len(),
            forall|j: int|
                0 <= j < starts.len() ==> (#[trigger] starts[j]) == capped_index(
                    fractions_in(self@.constants, j as nat).len() as int,
                ),
        ensures
            final(out)@ == old(out)@ + listing_line(self@, offset as int, texts_model(texts@)),
    {
        let ghost t = texts_model(texts@);
        let instruction = self.code[offset];
        Self::list_address(offset, out);
        let ghost headed = out@;
        if instruction.opcode == OpCode::Push {
            match instruction.operand {
                None => {
                    out.append("PUSH");
                },
                Some(index) => {
                    out.append("PUSH           ");
                    crate::text::push_decimal(out, index as u64);
                    if index < self.constants.len() {
                        self.list_constant(index, texts, starts, out);
                    }
                },
            }
        } else if has_listed_operand(instruction.opcode) {
            out.append(opcode_name(instruction.opcode));
            let shown: usize = match instruction.operand {
                Some(n) => n,
                None => 0,
            };
            crate::text::push_decimal(out, shown as u64);
        } else {
            out.append(opcode_name(instruction.opcode));
        }
        out.append("\n");
        assert(out@ =~= old(out)@ + listing_line(self@, offset as int, t));
    }

    /// The listing of the chunk under the title `name`: one line for each
    /// instruction. `texts` holds the texts of the numbers that are not whole,
    /// in the order of `fractions`.
    pub fn disassemble(&self, name: &str, texts: &Vec<String>) -> (r: String)
        ensures
            r@ == listing(self@, name@, texts_model(texts@)),
    {
        let ghost t = texts_model(texts@);
        let mut starts: Vec<usize> = Vec::new();
        let mut seen: usize = 0;
        let mut k: usize = 0;
        while k < self.constants.len()
            invariant
                k <= self.constants.len(),
                starts.len() == k,
                t == texts_model(texts@),
                seen == capped_index(fractions_in(self@.constants, k as nat).len() as int),
                forall|j: int|
                    0 <= j < k ==> (#[trigger] starts[j]) == capped_index(
                        fractions_in(self@.constants, j as nat).len() as int,
                    ),
            decreases self.constants.len() - k,
        {
            starts.push(seen);
            let count = self.constants[k].fractions().len();
            assert(self@.constants[k as int] == self.constants[k as int]@);
            seen = if count > usize::MAX - seen {
                usize::MAX
            } else {
                seen + count
            };
            k = k + 1;
        }
        let mut out = "== ".to_owned();
        out.append(name);
        out.append(" ==\n");
        let mut offset: usize = 0;
        assert(out@ =~= "== "@ + name@ + " ==\n"@ + listing_lines(self@, 0, t));
        while offset < self.code.len()
            invariant
                offset <= self.code.len(),
                t == texts_model(texts@),
                starts.len() == self.constants.len(),
                forall|j: int|
                    0 <= j < starts.len() ==> (#[trigger] starts[j]) == capped_index(
                        fractions_in(self@.constants, j as nat).len() as int,
                    ),
                out@ == "== "@ + name@ + " ==\n"@ + listing_lines(self@, offset as nat, t),
            decreases self.code.len() - offset,
        {
            let ghost before = out@;
            self.list_instruction(offset, texts, &starts, &mut out);
            assert(out@ =~= "== "@ + name@ + " ==\n"@ + (listing_lines(self@, offset as nat, t)
                + listing_line(self@, offset as int, t)));
            offset = offset + 1;
        }
        out
    }
}

} // verus!
