use crate::binary64::Real;
use crate::flags::{CmpInsFlags, IdxInsertFlags};
use crate::value::OwnedValue;
use vstd::prelude::*;

verus! {

/// The number of a cursor.
pub type CursorID = usize;

/// The number of a page.
pub type PageIdx = usize;

/// The target of a jump.
#[derive(Clone, Copy, Debug)]
pub enum BranchOffset {
    /// A location that has a name and no address yet.
    Label(u32),
    /// The index of an instruction.
    Offset(u32),
    /// A target that is set later.
    Placeholder,
}

/// How much a checkpoint does.
#[derive(Clone, Copy, Debug)]
pub enum CheckpointMode {
    Passive,
    Full,
    Restart,
    Truncate,
}

/// A row of values.
#[derive(Clone, Debug)]
pub struct Record {
    pub values: Vec<OwnedValue>,
}

/// An aggregate function.
#[derive(Clone, Debug)]
pub struct AggFunc {
    pub name: String,
}

/// A scalar function and the number of its arguments.
#[derive(Clone, Debug)]
pub struct FuncCtx {
    pub name: String,
    pub arg_count: usize,
}

/// The index of a parameter, which is counted from one.
#[derive(Clone, Copy, Debug)]
pub struct ParameterIndex(usize);

impl ParameterIndex {
    pub closed spec fn value(self) -> usize {
        self.0
    }

    #[verifier::type_invariant]
    spec fn counted_from_one(self) -> bool {
        self.0 != 0
    }

    /// The index, unless it is zero.
    pub fn new(index: usize) -> (result: Option<ParameterIndex>)
        ensures
            result is Some <==> index != 0,
            result matches Some(parameter) ==> parameter.value() == index,
    {
        if index == 0 {
            None
        } else {
            Some(ParameterIndex(index))
        }
    }

    pub fn get(self) -> (index: usize)
        ensures
            index == self.value(),
            index != 0,
    {
        proof {
            use_type_invariant(self);
        }
        self.0
    }
}

/// A register that holds a value, or the value itself.
#[derive(Clone, Copy, Debug)]
pub enum RegisterOrLiteral<T: Copy> {
    Register(usize),
    Literal(T),
}

impl From<PageIdx> for RegisterOrLiteral<PageIdx> {
    fn from(value: PageIdx) -> (result: Self)
        ensures
            result == RegisterOrLiteral::Literal(value),
    {
        RegisterOrLiteral::Literal(value)
    }
}

impl vstd::std_specs::convert::FromSpecImpl<PageIdx> for RegisterOrLiteral<PageIdx> {
    open spec fn obeys_from_spec() -> bool {
        true
    }

    open spec fn from_spec(value: PageIdx) -> Self {
        RegisterOrLiteral::Literal(value)
    }
}

/// An instruction of the virtual machine.
#[allow(inconsistent_fields)]
#[derive(Debug)]
pub enum Insn {
    /// Initialize the program state and jump to the given PC.
    Init {
        target_pc: BranchOffset,
    },
    /// Write a NULL into register dest. If dest_end is Some, then also write NULL into register
    /// dest_end and every register in between dest and dest_end. If dest_end is not set, then only
    /// register dest is set to NULL.
    Null {
        dest: usize,
        dest_end: Option<usize>,
    },
    /// Move the cursor P1 to a null row. Any Column operations that occur while the cursor is on
    /// the null row will always write a NULL.
    NullRow {
        cursor_id: CursorID,
    },
    /// Add two registers and store the result in a third register.
    Add {
        lhs: usize,
        rhs: usize,
        dest: usize,
    },
    /// Subtract rhs from lhs and store in dest
    Subtract {
        lhs: usize,
        rhs: usize,
        dest: usize,
    },
    /// Multiply two registers and store the result in a third register.
    Multiply {
        lhs: usize,
        rhs: usize,
        dest: usize,
    },
    /// Divide lhs by rhs and store the result in a third register.
    Divide {
        lhs: usize,
        rhs: usize,
        dest: usize,
    },
    /// Compare two vectors of registers in reg(P1)..reg(P1+P3-1) (call this vector "A") and in
    /// reg(P2)..reg(P2+P3-1) ("B"). Save the result of the comparison for use by the next Jump
    /// instruct.
    Compare {
        start_reg_a: usize,
        start_reg_b: usize,
        count: usize,
    },
    /// Place the result of rhs bitwise AND lhs in third register.
    BitAnd {
        lhs: usize,
        rhs: usize,
        dest: usize,
    },
    /// Place the result of rhs bitwise OR lhs in third register.
    BitOr {
        lhs: usize,
        rhs: usize,
        dest: usize,
    },
    /// Place the result of bitwise NOT register P1 in dest register.
    BitNot {
        reg: usize,
        dest: usize,
    },
    /// Checkpoint the database (applying wal file content to database file).
    Checkpoint {
        /// checkpoint database P1
        database: usize,
        /// P2 checkpoint mode
        checkpoint_mode: CheckpointMode,
        /// P3 checkpoint result
        dest: usize,
    },
    /// Divide lhs by rhs and place the remainder in dest register.
    Remainder {
        lhs: usize,
        rhs: usize,
        dest: usize,
    },
    /// Jump to the instruction at address P1, P2, or P3 depending on whether in the most recent
    /// Compare instruction the P1 vector was less than, equal to, or greater than the P2 vector,
    /// respectively.
    Jump {
        target_pc_lt: BranchOffset,
        target_pc_eq: BranchOffset,
        target_pc_gt: BranchOffset,
    },
    /// Move the P3 values in register P1..P1+P3-1 over into registers P2..P2+P3-1. Registers
    /// P1..P1+P3-1 are left holding a NULL. It is an error for register ranges P1..P1+P3-1 and
    /// P2..P2+P3-1 to overlap. It is an error for P3 to be less than 1.
    Move {
        source_reg: usize,
        dest_reg: usize,
        count: usize,
    },
    /// If the given register is a positive integer, decrement it by decrement_by and jump to the
    /// given PC.
    IfPos {
        reg: usize,
        target_pc: BranchOffset,
        decrement_by: usize,
    },
    /// If the given register is not NULL, jump to the given PC.
    NotNull {
        reg: usize,
        target_pc: BranchOffset,
    },
    /// Compare two registers and jump to the given PC if they are equal.
    Eq {
        lhs: usize,
        rhs: usize,
        target_pc: BranchOffset,
        /// CmpInsFlags are nulleq (null = null) or jump_if_null.
        ///
        /// jump_if_null jumps if either of the operands is null. Used for "jump when false" logic.
        /// Eg. "SELECT * FROM users WHERE id = NULL" becomes:
        /// <JUMP TO NEXT ROW IF id != NULL>
        /// Without the jump_if_null flag it would not jump because the logical comparison "id !=
        /// NULL" is never true.
        /// This flag indicates that if either is null we should still jump.
        flags: CmpInsFlags,
    },
    /// Compare two registers and jump to the given PC if they are not equal.
    Ne {
        lhs: usize,
        rhs: usize,
        target_pc: BranchOffset,
        /// CmpInsFlags are nulleq (null = null) or jump_if_null.
        ///
        /// jump_if_null jumps if either of the operands is null. Used for "jump when false" logic.
        flags: CmpInsFlags,
    },
    /// Compare two registers and jump to the given PC if the left-hand side is less than the
    /// right-hand side.
    Lt {
        lhs: usize,
        rhs: usize,
        target_pc: BranchOffset,
        /// jump_if_null: Jump if either of the operands is null. Used for "jump when false" logic.
        flags: CmpInsFlags,
    },
    /// Compare two registers and jump to the given PC if the left-hand side is less than or equal
    /// to the right-hand side.
    Le {
        lhs: usize,
        rhs: usize,
        target_pc: BranchOffset,
        /// jump_if_null: Jump if either of the operands is null. Used for "jump when false" logic.
        flags: CmpInsFlags,
    },
    /// Compare two registers and jump to the given PC if the left-hand side is greater than the
    /// right-hand side.
    Gt {
        lhs: usize,
        rhs: usize,
        target_pc: BranchOffset,
        /// jump_if_null: Jump if either of the operands is null. Used for "jump when false" logic.
        flags: CmpInsFlags,
    },
    /// Compare two registers and jump to the given PC if the left-hand side is greater than or
    /// equal to the right-hand side.
    Ge {
        lhs: usize,
        rhs: usize,
        target_pc: BranchOffset,
        /// jump_if_null: Jump if either of the operands is null. Used for "jump when false" logic.
        flags: CmpInsFlags,
    },
    /// Jump to target_pc if r\[reg\] != 0 or (r\[reg\] == NULL && r\[jump_if_null\] != 0)
    If {
        /// P1
        reg: usize,
        /// P2
        target_pc: BranchOffset,
        /// P3. If r\[reg\] is null, jump iff r\[jump_if_null\] != 0
        jump_if_null: bool,
    },
    /// Jump to target_pc if r\[reg\] != 0 or (r\[reg\] == NULL && r\[jump_if_null\] != 0)
    IfNot {
        /// P1
        reg: usize,
        /// P2
        target_pc: BranchOffset,
        /// P3. If r\[reg\] is null, jump iff r\[jump_if_null\] != 0
        jump_if_null: bool,
    },
    /// Open a cursor for reading.
    OpenReadAsync {
        cursor_id: CursorID,
        root_page: PageIdx,
    },

    /// Await for the completion of open cursor.
    OpenReadAwait,

    /// Open a cursor for a virtual table.
    VOpenAsync {
        cursor_id: CursorID,
    },

    /// Await for the completion of open cursor for a virtual table.
    VOpenAwait,

    /// Create a new virtual table.
    VCreate {
        /// P1: Name of the module that contains the virtual table implementation
        module_name: usize,
        /// P2: Name of the virtual table
        table_name: usize,
        args_reg: Option<usize>,
    },

    /// Initialize the position of the virtual table cursor.
    VFilter {
        cursor_id: CursorID,
        pc_if_empty: BranchOffset,
        arg_count: usize,
        args_reg: usize,
    },

    /// Read a column from the current row of the virtual table cursor.
    VColumn {
        cursor_id: CursorID,
        column: usize,
        dest: usize,
    },

    /// `VUpdate`: Virtual Table Insert/Update/Delete Instruction
    VUpdate {
        /// P1: Virtual table cursor number
        cursor_id: usize,
        /// P2: Number of arguments in argv[]
        arg_count: usize,
        /// P3: Start register for argv[]
        start_reg: usize,
        /// P4: vtab pointer
        vtab_ptr: usize,
        /// P5: Conflict resolution flags
        conflict_action: u16,
    },

    /// Advance the virtual table cursor to the next row.
    VNext {
        cursor_id: CursorID,
        pc_if_next: BranchOffset,
    },

    /// Open a cursor for a pseudo-table that contains a single row.
    OpenPseudo {
        cursor_id: CursorID,
        content_reg: usize,
        num_fields: usize,
    },

    /// Rewind the cursor to the beginning of the B-Tree.
    RewindAsync {
        cursor_id: CursorID,
    },

    /// Await for the completion of cursor rewind.
    RewindAwait {
        cursor_id: CursorID,
        pc_if_empty: BranchOffset,
    },

    LastAsync {
        cursor_id: CursorID,
    },

    LastAwait {
        cursor_id: CursorID,
        pc_if_empty: BranchOffset,
    },

    /// Read a column from the current row of the cursor.
    Column {
        cursor_id: CursorID,
        column: usize,
        dest: usize,
    },

    /// Make a record and write it to destination register.
    MakeRecord {
        /// P1
        start_reg: usize,
        /// P2
        count: usize,
        /// P3
        dest_reg: usize,
    },

    /// Emit a row of results.
    ResultRow {
        /// P1
        start_reg: usize,
        /// P2
        count: usize,
    },

    /// Advance the cursor to the next row.
    NextAsync {
        cursor_id: CursorID,
    },

    /// Await for the completion of cursor advance.
    NextAwait {
        cursor_id: CursorID,
        pc_if_next: BranchOffset,
    },

    PrevAsync {
        cursor_id: CursorID,
    },

    PrevAwait {
        cursor_id: CursorID,
        pc_if_next: BranchOffset,
    },

    /// Halt the program.
    Halt {
        err_code: usize,
        description: String,
    },

    /// Start a transaction.
    Transaction {
        write: bool,
    },

    /// Set database auto-commit mode and potentially rollback.
    AutoCommit {
        auto_commit: bool,
        rollback: bool,
    },

    /// Branch to the given PC.
    Goto {
        target_pc: BranchOffset,
    },

    /// Stores the current program counter into register 'return_reg' then jumps to address
    /// target_pc.
    Gosub {
        target_pc: BranchOffset,
        return_reg: usize,
    },

    /// Returns to the program counter stored in register 'return_reg'.
    Return {
        return_reg: usize,
    },

    /// Write an integer value into a register.
    Integer {
        value: i64,
        dest: usize,
    },

    /// Write a float value into a register
    Real {
        value: Real,
        dest: usize,
    },

    /// If register holds an integer, transform it to a float
    RealAffinity {
        register: usize,
    },

    /// Write a string value into a register.
    String8 {
        value: String,
        dest: usize,
    },

    /// Write a blob value into a register.
    Blob {
        value: Vec<u8>,
        dest: usize,
    },

    /// Read the rowid of the current row.
    RowId {
        cursor_id: CursorID,
        dest: usize,
    },

    /// Seek to a rowid in the cursor. If not found, jump to the given PC. Otherwise, continue to
    /// the next instruction.
    SeekRowid {
        cursor_id: CursorID,
        src_reg: usize,
        target_pc: BranchOffset,
    },
    SeekEnd {
        cursor_id: CursorID,
    },

    /// P1 is an open index cursor and P3 is a cursor on the corresponding table. This opcode does a
    /// deferred seek of the P3 table cursor to the row that corresponds to the current row of P1.
    /// This is a deferred seek. Nothing actually happens until the cursor is used to read a record.
    /// That way, if no reads occur, no unnecessary I/O happens.
    DeferredSeek {
        index_cursor_id: CursorID,
        table_cursor_id: CursorID,
    },

    /// If cursor_id refers to an SQL table (B-Tree that uses integer keys), use the value in
    /// start_reg as the key.
    /// If cursor_id refers to an SQL index, then start_reg is the first in an array of num_regs
    /// registers that are used as an unpacked index key.
    /// Seek to the first index entry that is greater than or equal to the given key. If not found,
    /// jump to the given PC. Otherwise, continue to the next instruction.
    SeekGE {
        is_index: bool,
        cursor_id: CursorID,
        start_reg: usize,
        num_regs: usize,
        target_pc: BranchOffset,
    },

    /// If cursor_id refers to an SQL table (B-Tree that uses integer keys), use the value in
    /// start_reg as the key.
    /// If cursor_id refers to an SQL index, then start_reg is the first in an array of num_regs
    /// registers that are used as an unpacked index key.
    /// Seek to the first index entry that is greater than the given key. If not found, jump to the
    /// given PC. Otherwise, continue to the next instruction.
    SeekGT {
        is_index: bool,
        cursor_id: CursorID,
        start_reg: usize,
        num_regs: usize,
        target_pc: BranchOffset,
    },

    /// cursor_id is a cursor pointing to a B-Tree index that uses integer keys, this op writes the
    /// value obtained from MakeRecord into the index.
    /// P3 + P4 are for the original column values that make up that key in unpacked
    /// (pre-serialized) form.
    /// If P5 has the OPFLAG_APPEND bit set, that is a hint to the b-tree layer that this insert is
    /// likely to be an append.
    /// OPFLAG_NCHANGE bit set, then the change counter is incremented by this instruction. If the
    /// OPFLAG_NCHANGE bit is clear, then the change counter is unchanged
    IdxInsertAsync {
        cursor_id: CursorID,
        /// P2 the register containing the record to insert
        record_reg: usize,
        /// P3 the index of the first register for the unpacked key
        unpacked_start: Option<usize>,
        /// P4 # of unpacked values in the key in P2
        unpacked_count: Option<u16>,
        flags: IdxInsertFlags,
    },
    IdxInsertAwait {
        cursor_id: CursorID,
    },

    /// The P4 register values beginning with P3 form an unpacked index key that omits the PRIMARY
    /// KEY. Compare this key value against the index that P1 is currently pointing to, ignoring the
    /// PRIMARY KEY or ROWID fields at the end.
    /// If the P1 index entry is greater or equal than the key value then jump to P2. Otherwise fall
    /// through to the next instruction.
    IdxGE {
        cursor_id: CursorID,
        start_reg: usize,
        num_regs: usize,
        target_pc: BranchOffset,
    },

    /// The P4 register values beginning with P3 form an unpacked index key that omits the PRIMARY
    /// KEY. Compare this key value against the index that P1 is currently pointing to, ignoring the
    /// PRIMARY KEY or ROWID fields at the end.
    /// If the P1 index entry is greater than the key value then jump to P2. Otherwise fall through
    /// to the next instruction.
    IdxGT {
        cursor_id: CursorID,
        start_reg: usize,
        num_regs: usize,
        target_pc: BranchOffset,
    },

    /// The P4 register values beginning with P3 form an unpacked index key that omits the PRIMARY
    /// KEY. Compare this key value against the index that P1 is currently pointing to, ignoring the
    /// PRIMARY KEY or ROWID fields at the end.
    /// If the P1 index entry is lesser or equal than the key value then jump to P2. Otherwise fall
    /// through to the next instruction.
    IdxLE {
        cursor_id: CursorID,
        start_reg: usize,
        num_regs: usize,
        target_pc: BranchOffset,
    },

    /// The P4 register values beginning with P3 form an unpacked index key that omits the PRIMARY
    /// KEY. Compare this key value against the index that P1 is currently pointing to, ignoring the
    /// PRIMARY KEY or ROWID fields at the end.
    /// If the P1 index entry is lesser than the key value then jump to P2. Otherwise fall through
    /// to the next instruction.
    IdxLT {
        cursor_id: CursorID,
        start_reg: usize,
        num_regs: usize,
        target_pc: BranchOffset,
    },

    /// Decrement the given register and jump to the given PC if the result is zero.
    DecrJumpZero {
        reg: usize,
        target_pc: BranchOffset,
    },

    AggStep {
        acc_reg: usize,
        col: usize,
        delimiter: usize,
        func: AggFunc,
    },

    AggFinal {
        register: usize,
        func: AggFunc,
    },

    /// Open a sorter.
    SorterOpen {
        /// P1
        cursor_id: CursorID,
        /// P2
        columns: usize,
        /// P4. 0 if ASC and 1 if DESC
        order: Record,
    },

    /// Insert a row into the sorter.
    SorterInsert {
        cursor_id: CursorID,
        record_reg: usize,
    },

    /// Sort the rows in the sorter.
    SorterSort {
        cursor_id: CursorID,
        pc_if_empty: BranchOffset,
    },

    /// Retrieve the next row from the sorter.
    SorterData {
        /// P1
        cursor_id: CursorID,
        /// P2
        dest_reg: usize,
        /// P3
        pseudo_cursor: usize,
    },

    /// Advance to the next row in the sorter.
    SorterNext {
        cursor_id: CursorID,
        pc_if_next: BranchOffset,
    },

    /// Function
    Function {
        /// P1
        constant_mask: i32,
        /// P2, start of argument registers
        start_reg: usize,
        /// P3
        dest: usize,
        /// P4
        func: FuncCtx,
    },

    InitCoroutine {
        yield_reg: usize,
        jump_on_definition: BranchOffset,
        start_offset: BranchOffset,
    },

    EndCoroutine {
        yield_reg: usize,
    },

    Yield {
        yield_reg: usize,
        end_offset: BranchOffset,
    },

    InsertAsync {
        cursor: CursorID,
        /// Must be int.
        key_reg: usize,
        /// Blob of record data.
        record_reg: usize,
        /// Flags used by insert, for now not used.
        flag: usize,
    },

    InsertAwait {
        cursor_id: usize,
    },

    DeleteAsync {
        cursor_id: CursorID,
    },

    DeleteAwait {
        cursor_id: CursorID,
    },

    NewRowid {
        /// P1
        cursor: CursorID,
        /// P2  Destination register to store the new rowid
        rowid_reg: usize,
        /// P3 Previous largest rowid in the table (Not used for now)
        prev_largest_reg: usize,
    },

    MustBeInt {
        reg: usize,
    },

    SoftNull {
        reg: usize,
    },

    NotExists {
        cursor: CursorID,
        rowid_reg: usize,
        target_pc: BranchOffset,
    },

    OffsetLimit {
        limit_reg: usize,
        combined_reg: usize,
        offset_reg: usize,
    },

    OpenWriteAsync {
        cursor_id: CursorID,
        root_page: RegisterOrLiteral<PageIdx>,
    },

    OpenWriteAwait {},

    Copy {
        src_reg: usize,
        dst_reg: usize,
        /// 0 amount means we include src_reg, dst_reg..=dst_reg+amount = src_reg..=src_reg+amount
        amount: usize,
    },

    /// Allocate a new b-tree.
    CreateBtree {
        /// Allocate b-tree in main database if zero or in temp database if non-zero (P1).
        db: usize,
        /// The root page of the new b-tree (P2).
        root: usize,
        /// Flags (P3).
        flags: usize,
    },

    /// Deletes an entire database table or index whose root page in the database file is given by
    /// P1.
    Destroy {
        /// The root page of the table/index to destroy
        root: usize,
        /// Register to store the former value of any moved root page (for AUTOVACUUM)
        former_root_reg: usize,
        /// Whether this is a temporary table (1) or main database table (0)
        is_temp: usize,
    },

    /// Drop a table
    DropTable {
        /// The database within which this b-tree needs to be dropped (P1).
        db: usize,
        /// unused register p2
        _p2: usize,
        /// unused register p3
        _p3: usize,
        /// The name of the table being dropped
        table_name: String,
    },

    /// Close a cursor.
    Close {
        cursor_id: CursorID,
    },

    /// Check if the register is null.
    IsNull {
        /// Source register (P1).
        reg: usize,

        /// Jump to this PC if the register is null (P2).
        target_pc: BranchOffset,
    },
    ParseSchema {
        db: usize,
        where_clause: String,
    },

    /// Place the result of lhs >> rhs in dest register.
    ShiftRight {
        lhs: usize,
        rhs: usize,
        dest: usize,
    },

    /// Place the result of lhs << rhs in dest register.
    ShiftLeft {
        lhs: usize,
        rhs: usize,
        dest: usize,
    },

    /// Get parameter variable.
    Variable {
        index: ParameterIndex,
        dest: usize,
    },
    /// If either register is null put null else put 0
    ZeroOrNull {
        /// Source register (P1).
        rg1: usize,
        rg2: usize,
        dest: usize,
    },
    /// Interpret the value in reg as boolean and store its compliment in destination
    Not {
        reg: usize,
        dest: usize,
    },
    /// Concatenates the `rhs` and `lhs` values and stores the result in the third register.
    Concat {
        lhs: usize,
        rhs: usize,
        dest: usize,
    },
    /// Take the logical AND of the values in registers P1 and P2 and write the result into register
    /// P3.
    And {
        lhs: usize,
        rhs: usize,
        dest: usize,
    },
    /// Take the logical OR of the values in register P1 and P2 and store the answer in register P3.
    Or {
        lhs: usize,
        rhs: usize,
        dest: usize,
    },
    /// Do nothing. Continue downward to the next opcode.
    Noop,
    /// Write the current number of pages in database P1 to memory cell P2.
    PageCount {
        db: usize,
        dest: usize,
    },
    /// Read cookie number P3 from database P1 and write it into register P2
    ReadCookie {
        db: usize,
        dest: usize,
        cookie: Cookie,
    },
}

/// A number in the header of a database.
#[derive(Clone, Copy, Debug)]
pub enum Cookie {
    /// The schema cookie.
    SchemaVersion,
    /// The schema format number. Supported schema formats are 1, 2, 3, and 4.
    DatabaseFormat,
    /// Default page cache size.
    DefaultPageCacheSize,
    /// The page number of the largest root b-tree page when in auto-vacuum or incremental-vacuum
    /// modes, or zero otherwise.
    LargestRootPageNumber,
    /// The database text encoding. A value of 1 means UTF-8. A value of 2 means UTF-16le. A value
    /// of 3 means UTF-16be.
    DatabaseTextEncoding,
    /// The "user version" as read and set by the user_version pragma.
    UserVersion,
}

impl Cookie {
    /// The number under which the cookie is read.
    pub open spec fn number_spec(self) -> u32 {
        match self {
            Cookie::SchemaVersion => 1,
            Cookie::DatabaseFormat => 2,
            Cookie::DefaultPageCacheSize => 3,
            Cookie::LargestRootPageNumber => 4,
            Cookie::DatabaseTextEncoding => 5,
            Cookie::UserVersion => 6,
        }
    }

    /// The number under which the cookie is read.
    pub fn number(self) -> (number: u32)
        ensures
            number == self.number_spec(),
            self is SchemaVersion <==> number == 1,
            self is DatabaseFormat <==> number == 2,
            self is DefaultPageCacheSize <==> number == 3,
            self is LargestRootPageNumber <==> number == 4,
            self is DatabaseTextEncoding <==> number == 5,
            self is UserVersion <==> number == 6,
    {
        match self {
            Cookie::SchemaVersion => 1,
            Cookie::DatabaseFormat => 2,
            Cookie::DefaultPageCacheSize => 3,
            Cookie::LargestRootPageNumber => 4,
            Cookie::DatabaseTextEncoding => 5,
            Cookie::UserVersion => 6,
        }
    }
}

/// The function of the interpreter that carries out an instruction.
#[derive(Clone, Copy, PartialEq, Eq, Structural, Debug)]
pub enum InsnFunction {
    OpInit,
    OpNull,
    OpNullRow,
    OpAdd,
    OpSubtract,
    OpMultiply,
    OpDivide,
    OpCompare,
    OpBitAnd,
    OpBitOr,
    OpBitNot,
    OpCheckpoint,
    OpRemainder,
    OpJump,
    OpMove,
    OpIfPos,
    OpNotNull,
    OpEq,
    OpNe,
    OpLt,
    OpLe,
    OpGt,
    OpGe,
    OpIf,
    OpIfNot,
    OpOpenReadAsync,
    OpOpenReadAwait,
    OpVopenAsync,
    OpVopenAwait,
    OpVcreate,
    OpVfilter,
    OpVcolumn,
    OpVupdate,
    OpVnext,
    OpOpenPseudo,
    OpRewindAsync,
    OpRewindAwait,
    OpLastAsync,
    OpLastAwait,
    OpColumn,
    OpMakeRecord,
    OpResultRow,
    OpNextAsync,
    OpNextAwait,
    OpPrevAsync,
    OpPrevAwait,
    OpHalt,
    OpTransaction,
    OpAutoCommit,
    OpGoto,
    OpGosub,
    OpReturn,
    OpInteger,
    OpReal,
    OpRealAffinity,
    OpString8,
    OpBlob,
    OpRowId,
    OpSeekRowid,
    OpSeekEnd,
    OpDeferredSeek,
    OpSeekGe,
    OpSeekGt,
    OpIdxInsertAsync,
    OpIdxInsertAwait,
    OpIdxGe,
    OpIdxGt,
    OpIdxLe,
    OpIdxLt,
    OpDecrJumpZero,
    OpAggStep,
    OpAggFinal,
    OpSorterOpen,
    OpSorterInsert,
    OpSorterSort,
    OpSorterData,
    OpSorterNext,
    OpFunction,
    OpInitCoroutine,
    OpEndCoroutine,
    OpYield,
    OpInsertAsync,
    OpInsertAwait,
    OpDeleteAsync,
    OpDeleteAwait,
    OpNewRowid,
    OpMustBeInt,
    OpSoftNull,
    OpNotExists,
    OpOffsetLimit,
    OpOpenWriteAsync,
    OpOpenWriteAwait,
    OpCopy,
    OpCreateBtree,
    OpDestroy,
    OpDropTable,
    OpClose,
    OpIsNull,
    OpParseSchema,
    OpShiftRight,
    OpShiftLeft,
    OpVariable,
    OpZeroOrNull,
    OpNot,
    OpConcat,
    OpAnd,
    OpOr,
    OpNoop,
    OpPageCount,
    OpReadCookie,
}

impl InsnFunction {
    /// Whether the function carries out an instruction: each is there for one kind.
    pub open spec fn carries_out(self, insn: Insn) -> bool {
        match self {
            InsnFunction::OpInit => insn is Init,
            InsnFunction::OpNull => insn is Null,
            InsnFunction::OpNullRow => insn is NullRow,
            InsnFunction::OpAdd => insn is Add,
            InsnFunction::OpSubtract => insn is Subtract,
            InsnFunction::OpMultiply => insn is Multiply,
            InsnFunction::OpDivide => insn is Divide,
            InsnFunction::OpCompare => insn is Compare,
            InsnFunction::OpBitAnd => insn is BitAnd,
            InsnFunction::OpBitOr => insn is BitOr,
            InsnFunction::OpBitNot => insn is BitNot,
            InsnFunction::OpCheckpoint => insn is Checkpoint,
            InsnFunction::OpRemainder => insn is Remainder,
            InsnFunction::OpJump => insn is Jump,
            InsnFunction::OpMove => insn is Move,
            InsnFunction::OpIfPos => insn is IfPos,
            InsnFunction::OpNotNull => insn is NotNull,
            InsnFunction::OpEq => insn is Eq,
            InsnFunction::OpNe => insn is Ne,
            InsnFunction::OpLt => insn is Lt,
            InsnFunction::OpLe => insn is Le,
            InsnFunction::OpGt => insn is Gt,
            InsnFunction::OpGe => insn is Ge,
            InsnFunction::OpIf => insn is If,
            InsnFunction::OpIfNot => insn is IfNot,
            InsnFunction::OpOpenReadAsync => insn is OpenReadAsync,
            InsnFunction::OpOpenReadAwait => insn is OpenReadAwait,
            InsnFunction::OpVopenAsync => insn is VOpenAsync,
            InsnFunction::OpVopenAwait => insn is VOpenAwait,
            InsnFunction::OpVcreate => insn is VCreate,
            InsnFunction::OpVfilter => insn is VFilter,
            InsnFunction::OpVcolumn => insn is VColumn,
            InsnFunction::OpVupdate => insn is VUpdate,
            InsnFunction::OpVnext => insn is VNext,
            InsnFunction::OpOpenPseudo => insn is OpenPseudo,
            InsnFunction::OpRewindAsync => insn is RewindAsync,
            InsnFunction::OpRewindAwait => insn is RewindAwait,
            InsnFunction::OpLastAsync => insn is LastAsync,
            InsnFunction::OpLastAwait => insn is LastAwait,
            InsnFunction::OpColumn => insn is Column,
            InsnFunction::OpMakeRecord => insn is MakeRecord,
            InsnFunction::OpResultRow => insn is ResultRow,
            InsnFunction::OpNextAsync => insn is NextAsync,
            InsnFunction::OpNextAwait => insn is NextAwait,
            InsnFunction::OpPrevAsync => insn is PrevAsync,
            InsnFunction::OpPrevAwait => insn is PrevAwait,
            InsnFunction::OpHalt => insn is Halt,
            InsnFunction::OpTransaction => insn is Transaction,
            InsnFunction::OpAutoCommit => insn is AutoCommit,
            InsnFunction::OpGoto => insn is Goto,
            InsnFunction::OpGosub => insn is Gosub,
            InsnFunction::OpReturn => insn is Return,
            InsnFunction::OpInteger => insn is Integer,
            InsnFunction::OpReal => insn is Real,
            InsnFunction::OpRealAffinity => insn is RealAffinity,
            InsnFunction::OpString8 => insn is String8,
            InsnFunction::OpBlob => insn is Blob,
            InsnFunction::OpRowId => insn is RowId,
            InsnFunction::OpSeekRowid => insn is SeekRowid,
            InsnFunction::OpSeekEnd => insn is SeekEnd,
            InsnFunction::OpDeferredSeek => insn is DeferredSeek,
            InsnFunction::OpSeekGe => insn is SeekGE,
            InsnFunction::OpSeekGt => insn is SeekGT,
            InsnFunction::OpIdxInsertAsync => insn is IdxInsertAsync,
            InsnFunction::OpIdxInsertAwait => insn is IdxInsertAwait,
            InsnFunction::OpIdxGe => insn is IdxGE,
            InsnFunction::OpIdxGt => insn is IdxGT,
            InsnFunction::OpIdxLe => insn is IdxLE,
            InsnFunction::OpIdxLt => insn is IdxLT,
            InsnFunction::OpDecrJumpZero => insn is DecrJumpZero,
            InsnFunction::OpAggStep => insn is AggStep,
            InsnFunction::OpAggFinal => insn is AggFinal,
            InsnFunction::OpSorterOpen => insn is SorterOpen,
            InsnFunction::OpSorterInsert => insn is SorterInsert,
            InsnFunction::OpSorterSort => insn is SorterSort,
            InsnFunction::OpSorterData => insn is SorterData,
            InsnFunction::OpSorterNext => insn is SorterNext,
            InsnFunction::OpFunction => insn is Function,
            InsnFunction::OpInitCoroutine => insn is InitCoroutine,
            InsnFunction::OpEndCoroutine => insn is EndCoroutine,
            InsnFunction::OpYield => insn is Yield,
            InsnFunction::OpInsertAsync => insn is InsertAsync,
            InsnFunction::OpInsertAwait => insn is InsertAwait,
            InsnFunction::OpDeleteAsync => insn is DeleteAsync,
            InsnFunction::OpDeleteAwait => insn is DeleteAwait,
            InsnFunction::OpNewRowid => insn is NewRowid,
            InsnFunction::OpMustBeInt => insn is MustBeInt,
            InsnFunction::OpSoftNull => insn is SoftNull,
            InsnFunction::OpNotExists => insn is NotExists,
            InsnFunction::OpOffsetLimit => insn is OffsetLimit,
            InsnFunction::OpOpenWriteAsync => insn is OpenWriteAsync,
            InsnFunction::OpOpenWriteAwait => insn is OpenWriteAwait,
            InsnFunction::OpCopy => insn is Copy,
            InsnFunction::OpCreateBtree => insn is CreateBtree,
            InsnFunction::OpDestroy => insn is Destroy,
            InsnFunction::OpDropTable => insn is DropTable,
            InsnFunction::OpClose => insn is Close,
            InsnFunction::OpIsNull => insn is IsNull,
            InsnFunction::OpParseSchema => insn is ParseSchema,
            InsnFunction::OpShiftRight => insn is ShiftRight,
            InsnFunction::OpShiftLeft => insn is ShiftLeft,
            InsnFunction::OpVariable => insn is Variable,
            InsnFunction::OpZeroOrNull => insn is ZeroOrNull,
            InsnFunction::OpNot => insn is Not,
            InsnFunction::OpConcat => insn is Concat,
            InsnFunction::OpAnd => insn is And,
            InsnFunction::OpOr => insn is Or,
            InsnFunction::OpNoop => insn is Noop,
            InsnFunction::OpPageCount => insn is PageCount,
            InsnFunction::OpReadCookie => insn is ReadCookie,
        }
    }
}

impl Insn {
    /// The function that carries out the instruction.
    pub fn to_function(&self) -> (result: InsnFunction)
        ensures
            result.carries_out(*self),
            self is Init <==> result == InsnFunction::OpInit,
            self is Null <==> result == InsnFunction::OpNull,
            self is NullRow <==> result == InsnFunction::OpNullRow,
            self is Add <==> result == InsnFunction::OpAdd,
            self is Subtract <==> result == InsnFunction::OpSubtract,
            self is Multiply <==> result == InsnFunction::OpMultiply,
            self is Divide <==> result == InsnFunction::OpDivide,
            self is Compare <==> result == InsnFunction::OpCompare,
            self is BitAnd <==> result == InsnFunction::OpBitAnd,
            self is BitOr <==> result == InsnFunction::OpBitOr,
            self is BitNot <==> result == InsnFunction::OpBitNot,
            self is Checkpoint <==> result == InsnFunction::OpCheckpoint,
            self is Remainder <==> result == InsnFunction::OpRemainder,
            self is Jump <==> result == InsnFunction::OpJump,
            self is Move <==> result == InsnFunction::OpMove,
            self is IfPos <==> result == InsnFunction::OpIfPos,
            self is NotNull <==> result == InsnFunction::OpNotNull,
            self is Eq <==> result == InsnFunction::OpEq,
            self is Ne <==> result == InsnFunction::OpNe,
            self is Lt <==> result == InsnFunction::OpLt,
            self is Le <==> result == InsnFunction::OpLe,
            self is Gt <==> result == InsnFunction::OpGt,
            self is Ge <==> result == InsnFunction::OpGe,
            self is If <==> result == InsnFunction::OpIf,
            self is IfNot <==> result == InsnFunction::OpIfNot,
            self is OpenReadAsync <==> result == InsnFunction::OpOpenReadAsync,
            self is OpenReadAwait <==> result == InsnFunction::OpOpenReadAwait,
            self is VOpenAsync <==> result == InsnFunction::OpVopenAsync,
            self is VOpenAwait <==> result == InsnFunction::OpVopenAwait,
            self is VCreate <==> result == InsnFunction::OpVcreate,
            self is VFilter <==> result == InsnFunction::OpVfilter,
            self is VColumn <==> result == InsnFunction::OpVcolumn,
            self is VUpdate <==> result == InsnFunction::OpVupdate,
            self is VNext <==> result == InsnFunction::OpVnext,
            self is OpenPseudo <==> result == InsnFunction::OpOpenPseudo,
            self is RewindAsync <==> result == InsnFunction::OpRewindAsync,
            self is RewindAwait <==> result == InsnFunction::OpRewindAwait,
            self is LastAsync <==> result == InsnFunction::OpLastAsync,
            self is LastAwait <==> result == InsnFunction::OpLastAwait,
            self is Column <==> result == InsnFunction::OpColumn,
            self is MakeRecord <==> result == InsnFunction::OpMakeRecord,
            self is ResultRow <==> result == InsnFunction::OpResultRow,
            self is NextAsync <==> result == InsnFunction::OpNextAsync,
            self is NextAwait <==> result == InsnFunction::OpNextAwait,
            self is PrevAsync <==> result == InsnFunction::OpPrevAsync,
            self is PrevAwait <==> result == InsnFunction::OpPrevAwait,
            self is Halt <==> result == InsnFunction::OpHalt,
            self is Transaction <==> result == InsnFunction::OpTransaction,
            self is AutoCommit <==> result == InsnFunction::OpAutoCommit,
            self is Goto <==> result == InsnFunction::OpGoto,
            self is Gosub <==> result == InsnFunction::OpGosub,
            self is Return <==> result == InsnFunction::OpReturn,
            self is Integer <==> result == InsnFunction::OpInteger,
            self is Real <==> result == InsnFunction::OpReal,
            self is RealAffinity <==> result == InsnFunction::OpRealAffinity,
            self is String8 <==> result == InsnFunction::OpString8,
            self is Blob <==> result == InsnFunction::OpBlob,
            self is RowId <==> result == InsnFunction::OpRowId,
            self is SeekRowid <==> result == InsnFunction::OpSeekRowid,
            self is SeekEnd <==> result == InsnFunction::OpSeekEnd,
            self is DeferredSeek <==> result == InsnFunction::OpDeferredSeek,
            self is SeekGE <==> result == InsnFunction::OpSeekGe,
            self is SeekGT <==> result == InsnFunction::OpSeekGt,
            self is IdxInsertAsync <==> result == InsnFunction::OpIdxInsertAsync,
            self is IdxInsertAwait <==> result == InsnFunction::OpIdxInsertAwait,
            self is IdxGE <==> result == InsnFunction::OpIdxGe,
            self is IdxGT <==> result == InsnFunction::OpIdxGt,
            self is IdxLE <==> result == InsnFunction::OpIdxLe,
            self is IdxLT <==> result == InsnFunction::OpIdxLt,
            self is DecrJumpZero <==> result == InsnFunction::OpDecrJumpZero,
            self is AggStep <==> result == InsnFunction::OpAggStep,
            self is AggFinal <==> result == InsnFunction::OpAggFinal,
            self is SorterOpen <==> result == InsnFunction::OpSorterOpen,
            self is SorterInsert <==> result == InsnFunction::OpSorterInsert,
            self is SorterSort <==> result == InsnFunction::OpSorterSort,
            self is SorterData <==> result == InsnFunction::OpSorterData,
            self is SorterNext <==> result == InsnFunction::OpSorterNext,
            self is Function <==> result == InsnFunction::OpFunction,
            self is InitCoroutine <==> result == InsnFunction::OpInitCoroutine,
            self is EndCoroutine <==> result == InsnFunction::OpEndCoroutine,
            self is Yield <==> result == InsnFunction::OpYield,
            self is InsertAsync <==> result == InsnFunction::OpInsertAsync,
            self is InsertAwait <==> result == InsnFunction::OpInsertAwait,
            self is DeleteAsync <==> result == InsnFunction::OpDeleteAsync,
            self is DeleteAwait <==> result == InsnFunction::OpDeleteAwait,
            self is NewRowid <==> result == InsnFunction::OpNewRowid,
            self is MustBeInt <==> result == InsnFunction::OpMustBeInt,
            self is SoftNull <==> result == InsnFunction::OpSoftNull,
            self is NotExists <==> result == InsnFunction::OpNotExists,
            self is OffsetLimit <==> result == InsnFunction::OpOffsetLimit,
            self is OpenWriteAsync <==> result == InsnFunction::OpOpenWriteAsync,
            self is OpenWriteAwait <==> result == InsnFunction::OpOpenWriteAwait,
            self is Copy <==> result == InsnFunction::OpCopy,
            self is CreateBtree <==> result == InsnFunction::OpCreateBtree,
            self is Destroy <==> result == InsnFunction::OpDestroy,
            self is DropTable <==> result == InsnFunction::OpDropTable,
            self is Close <==> result == InsnFunction::OpClose,
            self is IsNull <==> result == InsnFunction::OpIsNull,
            self is ParseSchema <==> result == InsnFunction::OpParseSchema,
            self is ShiftRight <==> result == InsnFunction::OpShiftRight,
            self is ShiftLeft <==> result == InsnFunction::OpShiftLeft,
            self is Variable <==> result == InsnFunction::OpVariable,
            self is ZeroOrNull <==> result == InsnFunction::OpZeroOrNull,
            self is Not <==> result == InsnFunction::OpNot,
            self is Concat <==> result == InsnFunction::OpConcat,
            self is And <==> result == InsnFunction::OpAnd,
            self is Or <==> result == InsnFunction::OpOr,
            self is Noop <==> result == InsnFunction::OpNoop,
            self is PageCount <==> result == InsnFunction::OpPageCount,
            self is ReadCookie <==> result == InsnFunction::OpReadCookie,
    {
        match self {
            Insn::Init { .. } => InsnFunction::OpInit,
            Insn::Null { .. } => InsnFunction::OpNull,
            Insn::NullRow { .. } => InsnFunction::OpNullRow,
            Insn::Add { .. } => InsnFunction::OpAdd,
            Insn::Subtract { .. } => InsnFunction::OpSubtract,
            Insn::Multiply { .. } => InsnFunction::OpMultiply,
            Insn::Divide { .. } => InsnFunction::OpDivide,
            Insn::Compare { .. } => InsnFunction::OpCompare,
            Insn::BitAnd { .. } => InsnFunction::OpBitAnd,
            Insn::BitOr { .. } => InsnFunction::OpBitOr,
            Insn::BitNot { .. } => InsnFunction::OpBitNot,
            Insn::Checkpoint { .. } => InsnFunction::OpCheckpoint,
            Insn::Remainder { .. } => InsnFunction::OpRemainder,
            Insn::Jump { .. } => InsnFunction::OpJump,
            Insn::Move { .. } => InsnFunction::OpMove,
            Insn::IfPos { .. } => InsnFunction::OpIfPos,
            Insn::NotNull { .. } => InsnFunction::OpNotNull,
            Insn::Eq { .. } => InsnFunction::OpEq,
            Insn::Ne { .. } => InsnFunction::OpNe,
            Insn::Lt { .. } => InsnFunction::OpLt,
            Insn::Le { .. } => InsnFunction::OpLe,
            Insn::Gt { .. } => InsnFunction::OpGt,
            Insn::Ge { .. } => InsnFunction::OpGe,
            Insn::If { .. } => InsnFunction::OpIf,
            Insn::IfNot { .. } => InsnFunction::OpIfNot,
            Insn::OpenReadAsync { .. } => InsnFunction::OpOpenReadAsync,
            Insn::OpenReadAwait => InsnFunction::OpOpenReadAwait,
            Insn::VOpenAsync { .. } => InsnFunction::OpVopenAsync,
            Insn::VOpenAwait => InsnFunction::OpVopenAwait,
            Insn::VCreate { .. } => InsnFunction::OpVcreate,
            Insn::VFilter { .. } => InsnFunction::OpVfilter,
            Insn::VColumn { .. } => InsnFunction::OpVcolumn,
            Insn::VUpdate { .. } => InsnFunction::OpVupdate,
            Insn::VNext { .. } => InsnFunction::OpVnext,
            Insn::OpenPseudo { .. } => InsnFunction::OpOpenPseudo,
            Insn::RewindAsync { .. } => InsnFunction::OpRewindAsync,
            Insn::RewindAwait { .. } => InsnFunction::OpRewindAwait,
            Insn::LastAsync { .. } => InsnFunction::OpLastAsync,
            Insn::LastAwait { .. } => InsnFunction::OpLastAwait,
            Insn::Column { .. } => InsnFunction::OpColumn,
            Insn::MakeRecord { .. } => InsnFunction::OpMakeRecord,
            Insn::ResultRow { .. } => InsnFunction::OpResultRow,
            Insn::NextAsync { .. } => InsnFunction::OpNextAsync,
            Insn::NextAwait { .. } => InsnFunction::OpNextAwait,
            Insn::PrevAsync { .. } => InsnFunction::OpPrevAsync,
            Insn::PrevAwait { .. } => InsnFunction::OpPrevAwait,
            Insn::Halt { .. } => InsnFunction::OpHalt,
            Insn::Transaction { .. } => InsnFunction::OpTransaction,
            Insn::AutoCommit { .. } => InsnFunction::OpAutoCommit,
            Insn::Goto { .. } => InsnFunction::OpGoto,
            Insn::Gosub { .. } => InsnFunction::OpGosub,
            Insn::Return { .. } => InsnFunction::OpReturn,
            Insn::Integer { .. } => InsnFunction::OpInteger,
            Insn::Real { .. } => InsnFunction::OpReal,
            Insn::RealAffinity { .. } => InsnFunction::OpRealAffinity,
            Insn::String8 { .. } => InsnFunction::OpString8,
            Insn::Blob { .. } => InsnFunction::OpBlob,
            Insn::RowId { .. } => InsnFunction::OpRowId,
            Insn::SeekRowid { .. } => InsnFunction::OpSeekRowid,
            Insn::SeekEnd { .. } => InsnFunction::OpSeekEnd,
            Insn::DeferredSeek { .. } => InsnFunction::OpDeferredSeek,
            Insn::SeekGE { .. } => InsnFunction::OpSeekGe,
            Insn::SeekGT { .. } => InsnFunction::OpSeekGt,
            Insn::IdxInsertAsync { .. } => InsnFunction::OpIdxInsertAsync,
            Insn::IdxInsertAwait { .. } => InsnFunction::OpIdxInsertAwait,
            Insn::IdxGE { .. } => InsnFunction::OpIdxGe,
            Insn::IdxGT { .. } => InsnFunction::OpIdxGt,
            Insn::IdxLE { .. } => InsnFunction::OpIdxLe,
            Insn::IdxLT { .. } => InsnFunction::OpIdxLt,
            Insn::DecrJumpZero { .. } => InsnFunction::OpDecrJumpZero,
            Insn::AggStep { .. } => InsnFunction::OpAggStep,
            Insn::AggFinal { .. } => InsnFunction::OpAggFinal,
            Insn::SorterOpen { .. } => InsnFunction::OpSorterOpen,
            Insn::SorterInsert { .. } => InsnFunction::OpSorterInsert,
            Insn::SorterSort { .. } => InsnFunction::OpSorterSort,
            Insn::SorterData { .. } => InsnFunction::OpSorterData,
            Insn::SorterNext { .. } => InsnFunction::OpSorterNext,
            Insn::Function { .. } => InsnFunction::OpFunction,
            Insn::InitCoroutine { .. } => InsnFunction::OpInitCoroutine,
            Insn::EndCoroutine { .. } => InsnFunction::OpEndCoroutine,
            Insn::Yield { .. } => InsnFunction::OpYield,
            Insn::InsertAsync { .. } => InsnFunction::OpInsertAsync,
            Insn::InsertAwait { .. } => InsnFunction::OpInsertAwait,
            Insn::DeleteAsync { .. } => InsnFunction::OpDeleteAsync,
            Insn::DeleteAwait { .. } => InsnFunction::OpDeleteAwait,
            Insn::NewRowid { .. } => InsnFunction::OpNewRowid,
            Insn::MustBeInt { .. } => InsnFunction::OpMustBeInt,
            Insn::SoftNull { .. } => InsnFunction::OpSoftNull,
            Insn::NotExists { .. } => InsnFunction::OpNotExists,
            Insn::OffsetLimit { .. } => InsnFunction::OpOffsetLimit,
            Insn::OpenWriteAsync { .. } => InsnFunction::OpOpenWriteAsync,
            Insn::OpenWriteAwait { .. } => InsnFunction::OpOpenWriteAwait,
            Insn::Copy { .. } => InsnFunction::OpCopy,
            Insn::CreateBtree { .. } => InsnFunction::OpCreateBtree,
            Insn::Destroy { .. } => InsnFunction::OpDestroy,
            Insn::DropTable { .. } => InsnFunction::OpDropTable,
            Insn::Close { .. } => InsnFunction::OpClose,
            Insn::IsNull { .. } => InsnFunction::OpIsNull,
            Insn::ParseSchema { .. } => InsnFunction::OpParseSchema,
            Insn::ShiftRight { .. } => InsnFunction::OpShiftRight,
            Insn::ShiftLeft { .. } => InsnFunction::OpShiftLeft,
            Insn::Variable { .. } => InsnFunction::OpVariable,
            Insn::ZeroOrNull { .. } => InsnFunction::OpZeroOrNull,
            Insn::Not { .. } => InsnFunction::OpNot,
            Insn::Concat { .. } => InsnFunction::OpConcat,
            Insn::And { .. } => InsnFunction::OpAnd,
            Insn::Or { .. } => InsnFunction::OpOr,
            Insn::Noop => InsnFunction::OpNoop,
            Insn::PageCount { .. } => InsnFunction::OpPageCount,
            Insn::ReadCookie { .. } => InsnFunction::OpReadCookie,
        }
    }
}

/// Only one function carries out an instruction.
pub proof fn law_one_function_per_instruction(insn: Insn, f: InsnFunction, g: InsnFunction)
    requires
        f.carries_out(insn),
        g.carries_out(insn),
    ensures
        f == g,
{
}

/// Different cookies have different numbers.
pub proof fn law_cookie_numbers(a: Cookie, b: Cookie)
    ensures
        a.number_spec() == b.number_spec() <==> a == b,
{
}

} // verus!
