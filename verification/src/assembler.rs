//! The assembler: from statements to machine words.
//!
//! Constants are collected first, and every name that stands for one is
//! replaced by the operand that its value reads as. Then each instruction
//! gets its position, counted in machine instructions, and each label the
//! position of the instruction after it. At last the names that are left are
//! resolved as labels, and every statement is lowered and packed into words.

use vstd::prelude::*;
use vstd::arithmetic::power2::lemma2_to64;
use vstd::relations::injective_on;
use vstd::set_lib::{lemma_int_range, lemma_len_subset, lemma_map_size, set_int_range};
use vstd::string::*;
use vstd::utf8::encode_utf8;
use crate::bytecode::{
    encode_instruction, encode_word, lemma_decode_encode, listing, render, Instruction,
};
use crate::instruction::{
    convert_each, convert_operand, lemma_immediate_truncated, lemma_lower_well_formed,
    lemma_mnemonic_supported, low_bits, lower_single, OperandType,
};
use crate::grammar::{operand, program, AsmObjectView, OperandView};
use crate::instruction::{
    lower, make_insns, mnemonic, name_to_op, warning_of, InvalidOperands, PseudoInstruction,
    Warning,
};
use crate::parser::{
    object_views, operand_views, parse_asm, parse_operand, AsmObject, Operand, SyntaxError,
};

verus! {

/// The highest position that an instruction or a label can have: positions
/// are carried in operands, which hold signed 32-bit numbers.
pub const MAX_POSITION: u32 = 0x7fff_ffff;

/// Why a text could not be assembled.
#[derive(Debug, Clone)]
pub enum AsmError {
    /// The text does not follow the grammar.
    Syntax(SyntaxError),
    /// A statement begins with a name that is no mnemonic.
    UnknownMnemonic(String),
    /// The operands of a mnemonic are too few, too many or of the wrong kind.
    OperandShape(InvalidOperands),
    /// A name is neither a constant nor a label.
    UnresolvedSymbol(String),
    /// The value of a constant leads back to a constant already met.
    CyclicConstant(String),
    /// The value of a constant does not read as an operand.
    InvalidLiteral(String),
    /// The text holds more instructions than positions can count.
    ProgramTooLarge,
}

/// What stands for an error in contracts: the strings by their characters.
pub enum AsmErrorView {
    Syntax(int),
    UnknownMnemonic(Seq<char>),
    OperandShape(PseudoInstruction, Seq<char>),
    UnresolvedSymbol(Seq<char>),
    CyclicConstant(Seq<char>),
    InvalidLiteral(Seq<char>),
    ProgramTooLarge,
}

impl View for AsmError {
    type V = AsmErrorView;

    open spec fn view(&self) -> AsmErrorView {
        match self {
            AsmError::Syntax(e) => AsmErrorView::Syntax(e.offset as int),
            AsmError::UnknownMnemonic(name) => AsmErrorView::UnknownMnemonic(name@),
            AsmError::OperandShape(e) => AsmErrorView::OperandShape(e.0, e.1@),
            AsmError::UnresolvedSymbol(name) => AsmErrorView::UnresolvedSymbol(name@),
            AsmError::CyclicConstant(name) => AsmErrorView::CyclicConstant(name@),
            AsmError::InvalidLiteral(value) => AsmErrorView::InvalidLiteral(value@),
            AsmError::ProgramTooLarge => AsmErrorView::ProgramTooLarge,
        }
    }
}

/// The results of `f` on every item, or the first error that `f` gives.
pub open spec fn try_map<A, B, E>(items: Seq<A>, f: spec_fn(A) -> Result<B, E>) -> Result<
    Seq<B>,
    E,
>
    decreases items.len(),
{
    if items.len() == 0 {
        Ok(Seq::empty())
    } else {
        match try_map(items.drop_last(), f) {
            Err(e) => Err(e),
            Ok(results) => match f(items.last()) {
                Ok(result) => Ok(results.push(result)),
                Err(e) => Err(e),
            },
        }
    }
}

/// Once an item fails, the error stands however many items follow.
pub proof fn lemma_try_map_fails<A, B, E>(items: Seq<A>, f: spec_fn(A) -> Result<B, E>, n: int)
    requires
        0 <= n <= items.len(),
        try_map(items.take(n), f) is Err,
    ensures
        try_map(items, f) == try_map(items.take(n), f),
    decreases items.len() - n,
{
    if n == items.len() {
        assert(items.take(n) == items);
    } else {
        assert(items.take(n + 1).drop_last() == items.take(n));
        lemma_try_map_fails(items, f, n + 1);
    }
}

/// The index of the last of the names that equals `key`.
pub open spec fn last_index(names: Seq<Seq<char>>, key: Seq<char>) -> Option<int>
    decreases names.len(),
{
    if names.len() == 0 {
        None
    } else if names.last() == key {
        Some(names.len() - 1)
    } else {
        last_index(names.drop_last(), key)
    }
}

/// The names of a table, in the order of their definitions.
pub open spec fn names_of<V>(table: Seq<(Seq<char>, V)>) -> Seq<Seq<char>> {
    Seq::new(table.len(), |i: int| table[i].0)
}

/// What a table gives for a name: the value of its last definition.
pub open spec fn lookup<V>(table: Seq<(Seq<char>, V)>, key: Seq<char>) -> Option<V> {
    match last_index(names_of(table), key) {
        Some(index) => Some(table[index].1),
        None => None,
    }
}

/// The constants of a text with their values, in the order of their
/// definitions.
pub open spec fn constants_of(objects: Seq<AsmObjectView>) -> Seq<(Seq<char>, Seq<char>)>
    decreases objects.len(),
{
    if objects.len() == 0 {
        Seq::empty()
    } else {
        match objects.last() {
            AsmObjectView::Constant(name, value) => constants_of(objects.drop_last()).push(
                (name, value),
            ),
            _ => constants_of(objects.drop_last()),
        }
    }
}

/// Follows a value through the constants: a value that is no constant's name
/// stands for itself, one that is stands for what the constant's value stands
/// for. Gives up, with `None`, after `fuel` steps.
pub open spec fn chase(constants: Seq<(Seq<char>, Seq<char>)>, value: Seq<char>, fuel: nat)
    -> Option<Seq<char>>
    decreases fuel,
{
    match lookup(constants, value) {
        None => Some(value),
        Some(next) => if fuel == 0 {
            None
        } else {
            chase(constants, next, (fuel - 1) as nat)
        },
    }
}

/// The literal that a value stands for, found in as many steps as there are
/// definitions, or `None` when the chain of constants runs in a circle.
pub open spec fn literal_of(constants: Seq<(Seq<char>, Seq<char>)>, value: Seq<char>) -> Option<
    Seq<char>,
> {
    chase(constants, value, constants.len())
}

/// An operand after the constants are put in: a name that is a constant
/// gives way to the operand that the constant's literal begins with, and
/// every other operand stays.
pub open spec fn substitute(constants: Seq<(Seq<char>, Seq<char>)>, item: OperandView) -> Result<
    OperandView,
    AsmErrorView,
> {
    match item {
        OperandView::Name(name) => if lookup(constants, name) is Some {
            match literal_of(constants, name) {
                None => Err(AsmErrorView::CyclicConstant(name)),
                Some(literal) => match operand(encode_utf8(literal), 0) {
                    Some((found, _)) => Ok(found),
                    None => Err(AsmErrorView::InvalidLiteral(literal)),
                },
            }
        } else {
            Ok(item)
        },
        _ => Ok(item),
    }
}

/// An instruction statement with its mnemonic known and its position set.
pub struct Statement {
    pub op: PseudoInstruction,
    pub operands: Vec<Operand>,
    /// The position of the first machine instruction of the statement.
    pub position: u32,
}

/// What stands for a [`Statement`] in contracts.
pub struct StatementView {
    pub op: PseudoInstruction,
    pub operands: Seq<OperandView>,
    pub position: int,
}

impl View for Statement {
    type V = StatementView;

    open spec fn view(&self) -> StatementView {
        StatementView {
            op: self.op,
            operands: operand_views(self.operands@),
            position: self.position as int,
        }
    }
}

/// The instruction statements and the labels of a text, and the position
/// after its last instruction.
pub struct Layout {
    pub statements: Seq<StatementView>,
    pub labels: Seq<(Seq<char>, int)>,
    pub next: int,
}

/// The layout of a text after one more statement. An instruction takes the
/// next position and moves it on by the length of its mnemonic; a label
/// takes the next position and leaves it; a constant changes nothing.
pub open spec fn place(
    layout: Layout,
    object: AsmObjectView,
    constants: Seq<(Seq<char>, Seq<char>)>,
) -> Result<Layout, AsmErrorView> {
    match object {
        AsmObjectView::Instruction(name, operands) => match mnemonic(name) {
            None => Err(AsmErrorView::UnknownMnemonic(name)),
            Some(op) => if layout.next + op.expansion() > MAX_POSITION {
                Err(AsmErrorView::ProgramTooLarge)
            } else {
                match try_map(operands, |item: OperandView| substitute(constants, item)) {
                    Err(e) => Err(e),
                    Ok(replaced) => Ok(
                        Layout {
                            statements: layout.statements.push(
                                StatementView { op, operands: replaced, position: layout.next },
                            ),
                            labels: layout.labels,
                            next: layout.next + op.expansion(),
                        },
                    ),
                }
            },
        },
        AsmObjectView::Label(name) => Ok(
            Layout {
                statements: layout.statements,
                labels: layout.labels.push((name, layout.next)),
                next: layout.next,
            },
        ),
        AsmObjectView::Constant(_, _) => Ok(layout),
    }
}

/// The layout of a text, or the first error met on the way.
pub open spec fn layout_of(objects: Seq<AsmObjectView>, constants: Seq<(Seq<char>, Seq<char>)>)
    -> Result<Layout, AsmErrorView>
    decreases objects.len(),
{
    if objects.len() == 0 {
        Ok(Layout { statements: Seq::empty(), labels: Seq::empty(), next: 0 })
    } else {
        match layout_of(objects.drop_last(), constants) {
            Err(e) => Err(e),
            Ok(layout) => place(layout, objects.last(), constants),
        }
    }
}

/// An operand of a statement after the labels are put in. A name gives way
/// to a number: in a branch, to the position of the branch less the position
/// of the label, plus one; elsewhere, to the position of the label. A name
/// that is no label is an error.
pub open spec fn resolve(
    labels: Seq<(Seq<char>, int)>,
    op: PseudoInstruction,
    position: int,
    item: OperandView,
) -> Result<OperandView, AsmErrorView> {
    match item {
        OperandView::Name(name) => match lookup(labels, name) {
            None => Err(AsmErrorView::UnresolvedSymbol(name)),
            Some(address) => if op.condition() is Some {
                Ok(OperandView::Immediate((position - address + 1) as i32))
            } else {
                Ok(OperandView::Immediate(address as i32))
            },
        },
        _ => Ok(item),
    }
}

/// The operands of a statement after the labels are put in.
pub open spec fn resolved(labels: Seq<(Seq<char>, int)>, statement: StatementView) -> Result<
    Seq<OperandView>,
    AsmErrorView,
> {
    try_map(
        statement.operands,
        |item: OperandView| resolve(labels, statement.op, statement.position, item),
    )
}

/// The words of a sequence of machine instructions.
pub open spec fn words_of_instructions(instructions: Seq<Instruction>) -> Seq<u16> {
    Seq::new(instructions.len(), |i: int| encode_word(instructions[i]))
}

/// The words of one statement: its names resolved, its mnemonic lowered, its
/// machine instructions packed.
pub open spec fn words_of_statement(labels: Seq<(Seq<char>, int)>, statement: StatementView)
    -> Result<Seq<u16>, AsmErrorView> {
    match resolved(labels, statement) {
        Err(e) => Err(e),
        Ok(operands) => match lower(statement.op, operands) {
            Err(text) => Err(AsmErrorView::OperandShape(statement.op, text)),
            Ok(instructions) => Ok(words_of_instructions(instructions)),
        },
    }
}

/// The words of a sequence of statements, or the error of the first
/// statement that has one.
pub open spec fn words_of_statements(
    labels: Seq<(Seq<char>, int)>,
    statements: Seq<StatementView>,
) -> Result<Seq<u16>, AsmErrorView>
    decreases statements.len(),
{
    if statements.len() == 0 {
        Ok(Seq::empty())
    } else {
        match words_of_statements(labels, statements.drop_last()) {
            Err(e) => Err(e),
            Ok(words) => match words_of_statement(labels, statements.last()) {
                Err(e) => Err(e),
                Ok(more) => Ok(words + more),
            },
        }
    }
}

/// The warnings of a sequence of statements that assemble, in their order.
pub open spec fn warnings_of_statements(
    labels: Seq<(Seq<char>, int)>,
    statements: Seq<StatementView>,
) -> Seq<Warning>
    decreases statements.len(),
{
    if statements.len() == 0 {
        Seq::empty()
    } else {
        let earlier = warnings_of_statements(labels, statements.drop_last());
        match resolved(labels, statements.last()) {
            Ok(operands) => match warning_of(statements.last().op, operands) {
                Some(warning) => earlier.push(warning),
                None => earlier,
            },
            Err(_) => earlier,
        }
    }
}

/// The words that a sequence of statements assembles to, or the first error:
/// errors of the layout come before those of resolving and lowering.
pub open spec fn assembled_objects(objects: Seq<AsmObjectView>) -> Result<Seq<u16>, AsmErrorView> {
    match layout_of(objects, constants_of(objects)) {
        Err(e) => Err(e),
        Ok(layout) => words_of_statements(layout.labels, layout.statements),
    }
}

/// The warnings that go with the words of [`assembled_objects`].
pub open spec fn warnings_of_objects(objects: Seq<AsmObjectView>) -> Seq<Warning> {
    match layout_of(objects, constants_of(objects)) {
        Err(_) => Seq::empty(),
        Ok(layout) => warnings_of_statements(layout.labels, layout.statements),
    }
}

/// The words that a text assembles to, or the first error.
pub open spec fn assembled(source: Seq<u8>) -> Result<Seq<u16>, AsmErrorView> {
    match program(source) {
        Err(offset) => Err(AsmErrorView::Syntax(offset)),
        Ok(objects) => assembled_objects(objects),
    }
}

/// The warnings that go with the words of [`assembled`].
pub open spec fn warnings_of(source: Seq<u8>) -> Seq<Warning> {
    match program(source) {
        Err(_) => Seq::empty(),
        Ok(objects) => warnings_of_objects(objects),
    }
}

/// The names of the entries of a table as it is held.
pub open spec fn entry_names<V>(entries: Seq<(String, V)>) -> Seq<Seq<char>> {
    Seq::new(entries.len(), |i: int| entries[i].0@)
}

/// The table of constants that a vector of entries stands for.
pub open spec fn constant_views(entries: Seq<(String, String)>) -> Seq<(Seq<char>, Seq<char>)> {
    Seq::new(entries.len(), |i: int| (entries[i].0@, entries[i].1@))
}

/// The table of labels that a vector of entries stands for.
pub open spec fn label_views(entries: Seq<(String, u32)>) -> Seq<(Seq<char>, int)> {
    Seq::new(entries.len(), |i: int| (entries[i].0@, entries[i].1 as int))
}

/// The views of a sequence of statements.
pub open spec fn statement_views(statements: Seq<Statement>) -> Seq<StatementView> {
    Seq::new(statements.len(), |i: int| statements[i]@)
}

/// Returns the index of the last entry of the table with the given name.
fn find_name<V>(table: &Vec<(String, V)>, key: &str) -> (r: Option<usize>)
    ensures
        match r {
            Some(index) => last_index(entry_names(table@), key@) == Some(index as int) && index
                < table.len(),
            None => last_index(entry_names(table@), key@) is None,
        },
{
    let ghost names = entry_names(table@);
    let mut i: usize = table.len();
    assert(names.take(i as int) == names);
    while i > 0
        invariant
            i <= table.len(),
            names == entry_names(table@),
            last_index(names, key@) == last_index(names.take(i as int), key@),
        decreases i,
    {
        assert(names.take(i as int).drop_last() == names.take(i - 1));
        if table[i - 1].0.as_str().eq(key) {
            return Some(i - 1);
        }
        i = i - 1;
    }
    None
}

/// Collects the constants of a text, in the order of their definitions.
fn collect_constants(objects: &[AsmObject]) -> (table: Vec<(String, String)>)
    ensures
        constant_views(table@) == constants_of(object_views(objects@)),
{
    let ghost views = object_views(objects@);
    let mut table: Vec<(String, String)> = Vec::new();
    let mut i: usize = 0;
    while i < objects.len()
        invariant
            i <= objects.len(),
            views == object_views(objects@),
            constant_views(table@) == constants_of(views.take(i as int)),
        decreases objects.len() - i,
    {
        assert(views.take(i + 1).drop_last() == views.take(i as int));
        match &objects[i] {
            AsmObject::Constant(name, value) => {
                table.push((name.clone(), value.clone()));
            },
            _ => {},
        }
        i = i + 1;
    }
    assert(views.take(i as int) == views);
    table
}

/// Follows the value of the entry `start` through the constants and returns
/// the index of the entry whose value is a literal, or `None` when the chain
/// runs in a circle.
fn literal_index(table: &Vec<(String, String)>, start: usize) -> (r: Option<usize>)
    requires
        start < table.len(),
    ensures
        match r {
            Some(index) => index < table.len() && chase(
                constant_views(table@),
                table[start as int].1@,
                (table.len() - 1) as nat,
            ) == Some(table[index as int].1@),
            None => chase(
                constant_views(table@),
                table[start as int].1@,
                (table.len() - 1) as nat,
            ) is None,
        },
{
    let ghost constants = constant_views(table@);
    assert(names_of(constants) == entry_names(table@));
    let mut cur: usize = start;
    let mut fuel: usize = table.len() - 1;
    loop
        invariant
            cur < table.len(),
            start < table.len(),
            constants == constant_views(table@),
            names_of(constants) == entry_names(table@),
            chase(constants, table[start as int].1@, (table.len() - 1) as nat) == chase(
                constants,
                table[cur as int].1@,
                fuel as nat,
            ),
        decreases fuel,
    {
        match find_name(table, table[cur].1.as_str()) {
            None => {
                return Some(cur);
            },
            Some(next) => {
                if fuel == 0 {
                    return None;
                }
                cur = next;
                fuel = fuel - 1;
            },
        }
    }
}

/// Puts the constants into one operand.
fn substitute_operand(table: &Vec<(String, String)>, item: &Operand) -> (r: Result<
    Operand,
    AsmError,
>)
    ensures
        match r {
            Ok(found) => substitute(constant_views(table@), item@) == Ok::<
                OperandView,
                AsmErrorView,
            >(found@),
            Err(e) => substitute(constant_views(table@), item@) == Err::<
                OperandView,
                AsmErrorView,
            >(e@),
        },
{
    assert(names_of(constant_views(table@)) == entry_names(table@));
    match item {
        Operand::Name(name) => match find_name(table, name.as_str()) {
            None => Ok(item.clone()),
            Some(start) => match literal_index(table, start) {
                None => Err(AsmError::CyclicConstant(name.clone())),
                Some(last) => match parse_operand(table[last].1.as_str()) {
                    Ok((_, found)) => Ok(found),
                    Err(_) => Err(AsmError::InvalidLiteral(table[last].1.clone())),
                },
            },
        },
        other => Ok(other.clone()),
    }
}

/// Puts the constants into the operands of a statement.
fn substitute_operands(table: &Vec<(String, String)>, operands: &Vec<Operand>) -> (r: Result<
    Vec<Operand>,
    AsmError,
>)
    ensures
        match r {
            Ok(replaced) => try_map(
                operand_views(operands@),
                |item: OperandView| substitute(constant_views(table@), item),
            ) == Ok::<Seq<OperandView>, AsmErrorView>(operand_views(replaced@)),
            Err(e) => try_map(
                operand_views(operands@),
                |item: OperandView| substitute(constant_views(table@), item),
            ) == Err::<Seq<OperandView>, AsmErrorView>(e@),
        },
{
    let ghost views = operand_views(operands@);
    let ghost f = |item: OperandView| substitute(constant_views(table@), item);
    let mut replaced: Vec<Operand> = Vec::new();
    let mut i: usize = 0;
    assert(operand_views(replaced@) == Seq::<OperandView>::empty());
    while i < operands.len()
        invariant
            i <= operands.len(),
            views == operand_views(operands@),
            f == |item: OperandView| substitute(constant_views(table@), item),
            try_map(views.take(i as int), f) == Ok::<Seq<OperandView>, AsmErrorView>(
                operand_views(replaced@),
            ),
        decreases operands.len() - i,
    {
        assert(views.take(i + 1).drop_last() == views.take(i as int));
        match substitute_operand(table, &operands[i]) {
            Ok(found) => {
                let ghost before = operand_views(replaced@);
                replaced.push(found);
                assert(operand_views(replaced@) == before.push(found@));
            },
            Err(e) => {
                proof {
                    lemma_try_map_fails(views, f, i + 1);
                }
                return Err(e);
            },
        }
        i = i + 1;
    }
    assert(views.take(i as int) == views);
    Ok(replaced)
}

/// Whether the statements and labels lie within the positions that can be
/// counted, and every statement has a mnemonic that is lowered.
pub open spec fn placed(statements: Seq<Statement>, labels: Seq<(String, u32)>) -> bool {
    &&& forall|k: int|
        0 <= k < statements.len() ==> (#[trigger] statements[k]).op.is_supported()
            && statements[k].position + statements[k].op.expansion() <= MAX_POSITION
    &&& forall|k: int| 0 <= k < labels.len() ==> (#[trigger] labels[k]).1 <= MAX_POSITION
}

/// Once a statement fails to be placed, the error stands however many
/// statements follow.
pub proof fn lemma_layout_fails(
    objects: Seq<AsmObjectView>,
    constants: Seq<(Seq<char>, Seq<char>)>,
    n: int,
)
    requires
        0 <= n <= objects.len(),
        layout_of(objects.take(n), constants) is Err,
    ensures
        layout_of(objects, constants) == layout_of(objects.take(n), constants),
    decreases objects.len() - n,
{
    if n == objects.len() {
        assert(objects.take(n) == objects);
    } else {
        assert(objects.take(n + 1).drop_last() == objects.take(n));
        lemma_layout_fails(objects, constants, n + 1);
    }
}

/// Once a statement fails to assemble, the error stands however many
/// statements follow.
pub proof fn lemma_words_fail(
    labels: Seq<(Seq<char>, int)>,
    statements: Seq<StatementView>,
    n: int,
)
    requires
        0 <= n <= statements.len(),
        words_of_statements(labels, statements.take(n)) is Err,
    ensures
        words_of_statements(labels, statements) == words_of_statements(labels, statements.take(n)),
    decreases statements.len() - n,
{
    if n == statements.len() {
        assert(statements.take(n) == statements);
    } else {
        assert(statements.take(n + 1).drop_last() == statements.take(n));
        lemma_words_fail(labels, statements, n + 1);
    }
}

/// Gives every instruction and every label of a text its position, and puts
/// the constants into the operands.
fn lay_out(objects: &[AsmObject], constants: &Vec<(String, String)>) -> (r: Result<
    (Vec<Statement>, Vec<(String, u32)>),
    AsmError,
>)
    ensures
        match r {
            Ok((statements, labels)) => layout_of(
                object_views(objects@),
                constant_views(constants@),
            ) matches Ok(layout) && layout.statements == statement_views(statements@)
                && layout.labels == label_views(labels@) && placed(statements@, labels@),
            Err(e) => layout_of(object_views(objects@), constant_views(constants@)) matches Err(
                first,
            ) && first == e@,
        },
{
    let ghost views = object_views(objects@);
    let ghost table = constant_views(constants@);
    let mut statements: Vec<Statement> = Vec::new();
    let mut labels: Vec<(String, u32)> = Vec::new();
    let mut pc: u32 = 0;
    let mut i: usize = 0;
    while i < objects.len()
        invariant
            i <= objects.len(),
            views == object_views(objects@),
            table == constant_views(constants@),
            pc <= MAX_POSITION,
            placed(statements@, labels@),
            layout_of(views.take(i as int), table) matches Ok(layout) && layout.statements
                == statement_views(statements@) && layout.labels == label_views(labels@)
                && layout.next == pc,
        decreases objects.len() - i,
    {
        assert(views.take(i + 1).drop_last() == views.take(i as int));
        let ghost before = layout_of(views.take(i as int), table)->Ok_0;
        match &objects[i] {
            AsmObject::Instruction(name, operands) => {
                let op = match name_to_op(name.as_str()) {
                    Ok(op) => op,
                    Err(e) => {
                        proof {
                            lemma_layout_fails(views, table, i + 1);
                        }
                        return Err(AsmError::UnknownMnemonic(e.0));
                    },
                };
                let length = op.length();
                if pc > MAX_POSITION - length {
                    proof {
                        lemma_layout_fails(views, table, i + 1);
                    }
                    return Err(AsmError::ProgramTooLarge);
                }
                let replaced = match substitute_operands(constants, operands) {
                    Ok(replaced) => replaced,
                    Err(e) => {
                        proof {
                            lemma_layout_fails(views, table, i + 1);
                        }
                        return Err(e);
                    },
                };
                let statement = Statement { op, operands: replaced, position: pc };
                statements.push(statement);
                assert(statement_views(statements@) == before.statements.push(
                    statements@.last()@,
                ));
                pc = pc + length;
            },
            AsmObject::Label(name) => {
                labels.push((name.clone(), pc));
                assert(label_views(labels@) == before.labels.push((name@, pc as int)));
            },
            AsmObject::Constant(_, _) => {},
        }
        i = i + 1;
    }
    assert(views.take(i as int) == views);
    Ok((statements, labels))
}

/// Puts the labels into one operand of a statement.
fn resolve_operand(
    labels: &Vec<(String, u32)>,
    op: PseudoInstruction,
    position: u32,
    item: &Operand,
) -> (r: Result<Operand, AsmError>)
    requires
        position < MAX_POSITION,
        forall|k: int| 0 <= k < labels.len() ==> (#[trigger] labels[k]).1 <= MAX_POSITION,
    ensures
        match r {
            Ok(found) => resolve(label_views(labels@), op, position as int, item@) == Ok::<
                OperandView,
                AsmErrorView,
            >(found@),
            Err(e) => resolve(label_views(labels@), op, position as int, item@) == Err::<
                OperandView,
                AsmErrorView,
            >(e@),
        },
{
    assert(names_of(label_views(labels@)) == entry_names(labels@));
    match item {
        Operand::Name(name) => match find_name(labels, name.as_str()) {
            None => Err(AsmError::UnresolvedSymbol(name.clone())),
            Some(index) => {
                let address = labels[index].1;
                if op.is_branch() {
                    // The distance from the label to the instruction after this one.
                    Ok(Operand::Immediate((position as i64 - address as i64 + 1) as i32))
                } else {
                    Ok(Operand::Immediate(address as i32))
                }
            },
        },
        other => Ok(other.clone()),
    }
}

/// Puts the labels into the operands of a statement.
fn resolve_operands(labels: &Vec<(String, u32)>, statement: &Statement) -> (r: Result<
    Vec<Operand>,
    AsmError,
>)
    requires
        statement.position < MAX_POSITION,
        forall|k: int| 0 <= k < labels.len() ==> (#[trigger] labels[k]).1 <= MAX_POSITION,
    ensures
        match r {
            Ok(found) => resolved(label_views(labels@), statement@) == Ok::<
                Seq<OperandView>,
                AsmErrorView,
            >(operand_views(found@)),
            Err(e) => resolved(label_views(labels@), statement@) == Err::<
                Seq<OperandView>,
                AsmErrorView,
            >(e@),
        },
{
    let ghost views = operand_views(statement.operands@);
    let ghost f = |item: OperandView|
        resolve(label_views(labels@), statement.op, statement.position as int, item);
    let mut found: Vec<Operand> = Vec::new();
    let mut i: usize = 0;
    assert(operand_views(found@) == Seq::<OperandView>::empty());
    while i < statement.operands.len()
        invariant
            i <= statement.operands.len(),
            statement.position < MAX_POSITION,
            forall|k: int| 0 <= k < labels.len() ==> (#[trigger] labels[k]).1 <= MAX_POSITION,
            views == operand_views(statement.operands@),
            f == |item: OperandView|
                resolve(label_views(labels@), statement.op, statement.position as int, item),
            try_map(views.take(i as int), f) == Ok::<Seq<OperandView>, AsmErrorView>(
                operand_views(found@),
            ),
        decreases statement.operands.len() - i,
    {
        assert(views.take(i + 1).drop_last() == views.take(i as int));
        match resolve_operand(labels, statement.op, statement.position, &statement.operands[i]) {
            Ok(operand) => {
                let ghost before = operand_views(found@);
                found.push(operand);
                assert(operand_views(found@) == before.push(found@.last()@));
            },
            Err(e) => {
                proof {
                    lemma_try_map_fails(views, f, i + 1);
                }
                return Err(e);
            },
        }
        i = i + 1;
    }
    assert(views.take(i as int) == views);
    Ok(found)
}

/// Packs a sequence of machine instructions into words.
pub fn encode_instructions(instructions: &[Instruction]) -> (words: Vec<u16>)
    requires
        forall|k: int| 0 <= k < instructions.len() ==> (#[trigger] instructions[k]).fits(),
    ensures
        words@ == words_of_instructions(instructions@),
{
    let mut words: Vec<u16> = Vec::new();
    let mut i: usize = 0;
    while i < instructions.len()
        invariant
            i <= instructions.len(),
            forall|k: int| 0 <= k < instructions.len() ==> (#[trigger] instructions[k]).fits(),
            words@ == words_of_instructions(instructions@.take(i as int)),
        decreases instructions.len() - i,
    {
        words.push(encode_instruction(instructions[i]));
        i = i + 1;
    }
    assert(instructions@.take(i as int) == instructions@);
    words
}

/// The words of a text and the warnings that go with them.
#[derive(Debug, Clone)]
pub struct Assembly {
    pub words: Vec<u16>,
    pub warnings: Vec<Warning>,
}

/// Resolves, lowers and packs the statements of a text.
fn assemble_statements(statements: &Vec<Statement>, labels: &Vec<(String, u32)>) -> (r: Result<
    Assembly,
    AsmError,
>)
    requires
        placed(statements@, labels@),
    ensures
        match r {
            Ok(assembly) => words_of_statements(
                label_views(labels@),
                statement_views(statements@),
            ) matches Ok(words) && words == assembly.words@ && assembly.warnings@
                == warnings_of_statements(label_views(labels@), statement_views(statements@)),
            Err(e) => words_of_statements(
                label_views(labels@),
                statement_views(statements@),
            ) matches Err(first) && first == e@,
        },
{
    let ghost table = label_views(labels@);
    let ghost views = statement_views(statements@);
    let mut words: Vec<u16> = Vec::new();
    let mut warnings: Vec<Warning> = Vec::new();
    let mut i: usize = 0;
    while i < statements.len()
        invariant
            i <= statements.len(),
            placed(statements@, labels@),
            table == label_views(labels@),
            views == statement_views(statements@),
            words_of_statements(table, views.take(i as int)) matches Ok(found) && found == words@,
            warnings@ == warnings_of_statements(table, views.take(i as int)),
        decreases statements.len() - i,
    {
        assert(views.take(i + 1).drop_last() == views.take(i as int));
        let statement = &statements[i];
        let operands = match resolve_operands(labels, statement) {
            Ok(operands) => operands,
            Err(e) => {
                proof {
                    lemma_words_fail(table, views, i + 1);
                }
                return Err(e);
            },
        };
        let (instructions, warning) = match make_insns(statement.op, operands.as_slice()) {
            Ok(lowered) => lowered,
            Err(e) => {
                proof {
                    lemma_words_fail(table, views, i + 1);
                }
                return Err(AsmError::OperandShape(e));
            },
        };
        if let Some(warning) = warning {
            warnings.push(warning);
        }
        let mut more = encode_instructions(instructions.as_slice());
        words.append(&mut more);
        i = i + 1;
    }
    assert(views.take(i as int) == views);
    Ok(Assembly { words, warnings })
}

/// Assembles the statements of a text into machine words.
///
/// The result is the words of the statements in their order, with the
/// warnings that lowering gave, or the first error: an unknown mnemonic, a
/// constant that cannot be put in, or too many instructions, for the first
/// statement that has one; else an unresolved name or operands that do not
/// fit, for the first statement that has one.
pub fn assemble_objects(objects: &[AsmObject]) -> (r: Result<Assembly, AsmError>)
    ensures
        match r {
            Ok(assembly) => assembled_objects(object_views(objects@)) matches Ok(words) && words
                == assembly.words@ && assembly.warnings@ == warnings_of_objects(
                object_views(objects@),
            ),
            Err(e) => assembled_objects(object_views(objects@)) matches Err(first) && first == e@,
        },
{
    let constants = collect_constants(objects);
    let (statements, labels) = match lay_out(objects, &constants) {
        Ok(layout) => layout,
        Err(e) => {
            return Err(e);
        },
    };
    assemble_statements(&statements, &labels)
}

/// Assembles a text into machine words.
///
/// The text is read as its bytes. The result is the words of its statements
/// with the warnings that go with them, or the first error: of syntax, or
/// else as [`assemble_objects`] gives it.
pub fn assemble(input: &str) -> (r: Result<Assembly, AsmError>)
    ensures
        match r {
            Ok(assembly) => assembled(input.spec_bytes()) matches Ok(words) && words
                == assembly.words@ && assembly.warnings@ == warnings_of(input.spec_bytes()),
            Err(e) => assembled(input.spec_bytes()) matches Err(first) && first == e@,
        },
{
    let objects = match parse_asm(input) {
        Ok(objects) => objects,
        Err(e) => {
            return Err(AsmError::Syntax(e));
        },
    };
    assemble_objects(objects.as_slice())
}

/// The value that `steps` definitions lead to from `value`: each step takes
/// a constant's name to the constant's value. Where the value is no
/// constant's name the walk stays.
pub open spec fn walk(constants: Seq<(Seq<char>, Seq<char>)>, value: Seq<char>, steps: nat) -> Seq<
    char,
>
    decreases steps,
{
    if steps == 0 {
        value
    } else {
        match lookup(constants, value) {
            Some(next) => walk(constants, next, (steps - 1) as nat),
            None => value,
        }
    }
}

/// What a chain of constants is found to stand for is no constant's name,
/// and is reached from the value in no more steps than were allowed.
pub proof fn lemma_chase_ends(constants: Seq<(Seq<char>, Seq<char>)>, value: Seq<char>, fuel: nat)
    requires
        chase(constants, value, fuel) is Some,
    ensures
        lookup(constants, chase(constants, value, fuel)->0) is None,
        chase(constants, value, fuel)->0 == walk(constants, value, fuel),
    decreases fuel,
{
    match lookup(constants, value) {
        None => {},
        Some(next) => {
            lemma_chase_ends(constants, next, (fuel - 1) as nat);
        },
    }
}

/// A name with a definition has a place in the table.
proof fn lemma_last_index_bounds(names: Seq<Seq<char>>, key: Seq<char>)
    ensures
        last_index(names, key) matches Some(index) ==> 0 <= index < names.len() && names[index]
            == key,
    decreases names.len(),
{
    if names.len() > 0 && names.last() != key {
        lemma_last_index_bounds(names.drop_last(), key);
    }
}

/// Constants chain: where `a` is defined as `b`, `b` as `c` and `c` as a
/// literal that is no constant's name, in whatever order, `a` stands for the
/// literal, and so do `b` and `c`. An operand that names `a` is replaced by
/// the operand that the literal reads as.
pub proof fn lemma_constants_chain(
    constants: Seq<(Seq<char>, Seq<char>)>,
    a: Seq<char>,
    b: Seq<char>,
    c: Seq<char>,
    literal: Seq<char>,
)
    requires
        lookup(constants, a) == Some(b),
        lookup(constants, b) == Some(c),
        lookup(constants, c) == Some(literal),
        lookup(constants, literal) is None,
    ensures
        literal_of(constants, a) == Some(literal),
        literal_of(constants, b) == Some(literal),
        literal_of(constants, c) == Some(literal),
        substitute(constants, OperandView::Name(a)) == match operand(encode_utf8(literal), 0) {
            Some((found, _)) => Ok::<OperandView, AsmErrorView>(found),
            None => Err::<OperandView, AsmErrorView>(AsmErrorView::InvalidLiteral(literal)),
        },
{
    let names = names_of(constants);
    lemma_last_index_bounds(names, a);
    lemma_last_index_bounds(names, b);
    lemma_last_index_bounds(names, c);
    let ia = last_index(names, a)->0;
    let ib = last_index(names, b)->0;
    let ic = last_index(names, c)->0;
    // The three names differ, so they have three places in the table.
    assert(a != b && b != c && a != c);
    assert(ia != ib && ib != ic && ia != ic);
    assert(constants.len() >= 3);
    let n = constants.len();
    assert(chase(constants, literal, (n - 3) as nat) == Some(literal));
    assert(chase(constants, c, (n - 2) as nat) == Some(literal));
    assert(chase(constants, b, (n - 1) as nat) == Some(literal));
    assert(chase(constants, a, n) == Some(literal));
    lemma_chase_more_fuel(constants, c, (n - 2) as nat, n);
    lemma_chase_more_fuel(constants, b, (n - 1) as nat, n);
}

/// What a chain stands for does not change when more steps are allowed.
pub proof fn lemma_chase_more_fuel(
    constants: Seq<(Seq<char>, Seq<char>)>,
    value: Seq<char>,
    fuel: nat,
    more: nat,
)
    requires
        chase(constants, value, fuel) is Some,
        fuel <= more,
    ensures
        chase(constants, value, more) == chase(constants, value, fuel),
    decreases fuel,
{
    match lookup(constants, value) {
        None => {},
        Some(next) => {
            lemma_chase_more_fuel(constants, next, (fuel - 1) as nat, (more - 1) as nat);
        },
    }
}

/// A label in a branch gives the position of the branch less the position of
/// the label, plus one, whether that is negative or not; the branch holds
/// the low 9 bits of it, which is the number itself where it lies from 0 to
/// 511. Elsewhere a label gives its own position.
pub proof fn lemma_label_offset(
    labels: Seq<(Seq<char>, int)>,
    op: PseudoInstruction,
    position: int,
    name: Seq<char>,
    address: int,
)
    requires
        lookup(labels, name) == Some(address),
        0 <= position < MAX_POSITION,
        0 <= address <= MAX_POSITION,
    ensures
        op.condition() is Some ==> resolve(labels, op, position, OperandView::Name(name)) == Ok::<
            OperandView,
            AsmErrorView,
        >(OperandView::Immediate((position - address + 1) as i32)),
        ((position - address + 1) as i32) as int == position - address + 1,
        op.condition() matches Some(condition) ==> words_of_statement(
            labels,
            StatementView { op, operands: seq![OperandView::Name(name)], position },
        ) == Ok::<Seq<u16>, AsmErrorView>(
            seq![
                encode_word(
                    Instruction::Branch(condition, low_bits(position - address + 1, 9) as u16),
                ),
            ],
        ),
        0 <= position - address + 1 < 512 ==> low_bits(position - address + 1, 9) == position
            - address + 1,
        op.condition() is None ==> resolve(labels, op, position, OperandView::Name(name)) == Ok::<
            OperandView,
            AsmErrorView,
        >(OperandView::Immediate(address as i32)),
{
    let offset = (position - address + 1) as i32;
    lemma_immediate_truncated(9, offset, offset);
    lemma2_to64();
    if op.condition() is Some {
        let statement = StatementView { op, operands: seq![OperandView::Name(name)], position };
        let f = |item: OperandView| resolve(labels, op, position, item);
        assert(statement.operands.drop_last() == Seq::<OperandView>::empty());
        assert(try_map(statement.operands.drop_last(), f) == Ok::<Seq<OperandView>, AsmErrorView>(
            Seq::empty(),
        ));
        let operands = seq![OperandView::Immediate(offset)];
        assert(Seq::<OperandView>::empty().push(OperandView::Immediate(offset)) == operands);
        assert(resolved(labels, statement) == Ok::<Seq<OperandView>, AsmErrorView>(operands));
        let kinds = seq![OperandType::Imm(9)];
        assert(kinds.drop_last() == Seq::<OperandType>::empty());
        assert(operands.drop_last() == Seq::<OperandView>::empty());
        let field = low_bits(offset as int, 9) as u16;
        assert(Seq::<u16>::empty().push(field) == seq![field]);
        assert(convert_each(kinds.drop_last(), operands.drop_last()) == Ok::<
            Seq<u16>,
            Seq<char>,
        >(Seq::empty()));
        assert(convert_operand(kinds.last(), operands.last()) == Ok::<u16, Seq<char>>(field));
        assert(convert_each(kinds, operands) == Ok::<Seq<u16>, Seq<char>>(seq![field]));
        let branch = Instruction::Branch(op.condition()->0, field);
        assert(lower_single(op, operands) == Ok::<Instruction, Seq<char>>(branch));
        assert(lower(op, operands) == Ok::<Seq<Instruction>, Seq<char>>(seq![branch]));
        assert(words_of_instructions(seq![branch]) == seq![encode_word(branch)]);
    }
}

/// Whether the chain of constants from `value` comes, after some steps, to a
/// value that is no constant's name.
pub open spec fn chain_ends(constants: Seq<(Seq<char>, Seq<char>)>, value: Seq<char>) -> bool {
    exists|steps: nat| lookup(constants, #[trigger] walk(constants, value, steps)) is None
}

/// Walking `a` steps and then `b` more is walking `a + b` steps.
proof fn lemma_walk_add(constants: Seq<(Seq<char>, Seq<char>)>, value: Seq<char>, a: nat, b: nat)
    ensures
        walk(constants, value, a + b) == walk(constants, walk(constants, value, a), b),
    decreases a,
{
    if a > 0 {
        match lookup(constants, value) {
            Some(next) => {
                lemma_walk_add(constants, next, (a - 1) as nat, b);
            },
            None => {},
        }
    }
}

/// The first step of a chain that ends at which it has ended.
proof fn lemma_first_end(constants: Seq<(Seq<char>, Seq<char>)>, value: Seq<char>, steps: nat)
    -> (first: nat)
    requires
        lookup(constants, walk(constants, value, steps)) is None,
    ensures
        first <= steps,
        lookup(constants, walk(constants, value, first)) is None,
        forall|t: nat| t < first ==> lookup(constants, #[trigger] walk(constants, value, t)) is Some,
    decreases steps,
{
    match lookup(constants, value) {
        None => 0,
        Some(next) => {
            let rest = lemma_first_end(constants, next, (steps - 1) as nat);
            assert forall|t: nat| t < rest + 1 implies lookup(
                constants,
                #[trigger] walk(constants, value, t),
            ) is Some by {
                if t > 0 {
                    assert(walk(constants, value, t) == walk(constants, next, (t - 1) as nat));
                }
            }
            rest + 1
        },
    }
}

/// A chain that ends after `first` steps is followed to its end when that
/// many steps are allowed.
proof fn lemma_chase_reaches(
    constants: Seq<(Seq<char>, Seq<char>)>,
    value: Seq<char>,
    first: nat,
    fuel: nat,
)
    requires
        forall|t: nat| t < first ==> lookup(constants, #[trigger] walk(constants, value, t)) is Some,
        lookup(constants, walk(constants, value, first)) is None,
        first <= fuel,
    ensures
        chase(constants, value, fuel) == Some(walk(constants, value, first)),
    decreases first,
{
    if first > 0 {
        assert(lookup(constants, walk(constants, value, 0)) is Some);
        let next = lookup(constants, value)->0;
        assert forall|t: nat| t < first - 1 implies lookup(
            constants,
            #[trigger] walk(constants, next, t),
        ) is Some by {
            assert(walk(constants, value, t + 1) == walk(constants, next, t));
        }
        lemma_chase_reaches(constants, next, (first - 1) as nat, (fuel - 1) as nat);
    }
}

/// A chain that ends does so within as many steps as there are definitions:
/// until then it meets a different constant at every step.
proof fn lemma_chain_is_short(
    constants: Seq<(Seq<char>, Seq<char>)>,
    value: Seq<char>,
    first: nat,
)
    requires
        forall|t: nat| t < first ==> lookup(constants, #[trigger] walk(constants, value, t)) is Some,
        lookup(constants, walk(constants, value, first)) is None,
    ensures
        first <= constants.len(),
{
    let names = names_of(constants);
    let place = |t: int| last_index(names, walk(constants, value, t as nat))->0;
    let steps = set_int_range(0, first as int);
    let places = steps.map(place);
    assert forall|t: int| 0 <= t < first implies 0 <= #[trigger] place(t) < names.len()
        && names[place(t)] == walk(constants, value, t as nat) by {
        assert(lookup(constants, walk(constants, value, t as nat)) is Some);
        lemma_last_index_bounds(names, walk(constants, value, t as nat));
    }
    assert(injective_on(place, steps)) by {
        assert forall|t1: int, t2: int|
            steps.contains(t1) && steps.contains(t2) && #[trigger] place(t1) == #[trigger] place(
                t2,
            ) implies t1 == t2 by {
            if t1 != t2 {
                let (low, high) = if t1 < t2 {
                    (t1, t2)
                } else {
                    (t2, t1)
                };
                assert(walk(constants, value, low as nat) == walk(constants, value, high as nat));
                let rest = (first - high) as nat;
                lemma_walk_add(constants, value, low as nat, rest);
                lemma_walk_add(constants, value, high as nat, rest);
                assert(lookup(constants, walk(constants, value, (low + rest) as nat)) is Some);
            }
        }
    }
    lemma_int_range(0, first as int);
    lemma_map_size(steps, places, place);
    lemma_int_range(0, names.len() as int);
    assert(places.subset_of(set_int_range(0, names.len() as int))) by {
        assert forall|p: int| places.contains(p) implies set_int_range(
            0,
            names.len() as int,
        ).contains(p) by {
            let t = choose|t: int| steps.contains(t) && place(t) == p;
            assert(0 <= place(t) < names.len());
        }
    }
    lemma_len_subset(places, set_int_range(0, names.len() as int));
}

/// A value stands for a literal exactly when its chain of constants ends; it
/// stands for none exactly when the chain runs in a circle.
pub proof fn lemma_literal_iff_chain_ends(
    constants: Seq<(Seq<char>, Seq<char>)>,
    value: Seq<char>,
)
    ensures
        literal_of(constants, value) is Some <==> chain_ends(constants, value),
        literal_of(constants, value) matches Some(literal) ==> lookup(constants, literal) is None,
{
    if literal_of(constants, value) is Some {
        lemma_chase_ends(constants, value, constants.len());
        assert(lookup(constants, walk(constants, value, constants.len())) is None);
    }
    if chain_ends(constants, value) {
        let steps = choose|steps: nat|
            lookup(constants, #[trigger] walk(constants, value, steps)) is None;
        let first = lemma_first_end(constants, value, steps);
        lemma_chain_is_short(constants, value, first);
        lemma_chase_reaches(constants, value, first, constants.len());
    }
}

/// The lines of two sequences of words that decode, one after the other, are
/// the lines of the words of both.
pub proof fn lemma_listing_concat(first: Seq<u16>, second: Seq<u16>)
    requires
        listing(first) is Ok,
        listing(second) is Ok,
    ensures
        listing(first + second) matches Ok(lines) && lines == listing(first)->Ok_0 + listing(
            second,
        )->Ok_0,
    decreases second.len(),
{
    if second.len() == 0 {
        assert(first + second == first);
        assert(listing(first)->Ok_0 + listing(second)->Ok_0 == listing(first)->Ok_0);
    } else {
        lemma_listing_concat(first, second.drop_last());
        assert((first + second).drop_last() == first + second.drop_last());
        let shorter = listing(second.drop_last())->Ok_0;
        let line = render(crate::bytecode::decode_word(second.last())->0);
        assert(listing(first)->Ok_0 + shorter.push(line) == (listing(first)->Ok_0 + shorter).push(
            line,
        ));
    }
}

/// The texts of a sequence of machine instructions.
pub open spec fn renderings(instructions: Seq<Instruction>) -> Seq<Seq<char>> {
    Seq::new(instructions.len(), |i: int| render(instructions[i]))
}

/// The words of well-formed machine instructions decode, and their lines are
/// the texts of the instructions.
pub proof fn lemma_listing_of_words(instructions: Seq<Instruction>)
    requires
        forall|k: int|
            0 <= k < instructions.len() ==> (#[trigger] instructions[k]).well_formed()
                && instructions[k] != Instruction::Nop,
    ensures
        listing(words_of_instructions(instructions)) matches Ok(lines) && lines == renderings(
            instructions,
        ),
    decreases instructions.len(),
{
    let words = words_of_instructions(instructions);
    if instructions.len() == 0 {
        assert(renderings(instructions) == Seq::<Seq<char>>::empty());
    } else {
        let shorter = instructions.drop_last();
        lemma_listing_of_words(shorter);
        assert(words.drop_last() == words_of_instructions(shorter));
        lemma_decode_encode(instructions.last());
        assert(renderings(instructions) == renderings(shorter).push(render(instructions.last())));
    }
}

/// What the assembler writes, the disassembler reads: the words of
/// statements that assemble all decode.
pub proof fn lemma_statement_words_decode(
    labels: Seq<(Seq<char>, int)>,
    statements: Seq<StatementView>,
)
    requires
        forall|k: int| 0 <= k < statements.len() ==> (#[trigger] statements[k]).op.is_supported(),
    ensures
        words_of_statements(labels, statements) matches Ok(words) ==> listing(words) is Ok,
    decreases statements.len(),
{
    if statements.len() > 0 && words_of_statements(labels, statements) is Ok {
        let shorter = statements.drop_last();
        assert forall|k: int| 0 <= k < shorter.len() implies (#[trigger] shorter[k]).op.is_supported(
        ) by {
            assert(shorter[k] == statements[k]);
        }
        lemma_statement_words_decode(labels, shorter);
        let last = statements.last();
        let operands = resolved(labels, last)->Ok_0;
        lemma_lower_well_formed(last.op, operands);
        lemma_listing_of_words(lower(last.op, operands)->Ok_0);
        lemma_listing_concat(
            words_of_statements(labels, shorter)->Ok_0,
            words_of_statement(labels, last)->Ok_0,
        );
    }
}

/// Every statement of a layout has a mnemonic that is lowered.
pub proof fn lemma_layout_supported(
    objects: Seq<AsmObjectView>,
    constants: Seq<(Seq<char>, Seq<char>)>,
)
    ensures
        layout_of(objects, constants) matches Ok(layout) ==> forall|k: int|
            0 <= k < layout.statements.len() ==> (#[trigger] layout.statements[k]).op.is_supported(),
    decreases objects.len(),
{
    if objects.len() > 0 {
        lemma_layout_supported(objects.drop_last(), constants);
        match objects.last() {
            AsmObjectView::Instruction(name, _) => {
                lemma_mnemonic_supported(name);
            },
            _ => {},
        }
    }
}

/// What the assembler writes, the disassembler reads: the words of a text
/// that assembles all decode.
pub proof fn lemma_assembled_words_decode(source: Seq<u8>)
    ensures
        assembled(source) matches Ok(words) ==> listing(words) is Ok,
{
    if assembled(source) is Ok {
        let objects = program(source)->Ok_0;
        let constants = constants_of(objects);
        lemma_layout_supported(objects, constants);
        let layout = layout_of(objects, constants)->Ok_0;
        lemma_statement_words_decode(layout.labels, layout.statements);
    }
}

} // verus!
