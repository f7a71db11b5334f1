use vstd::prelude::*;

verus! {

/// Flags provided to comparison instructions (e.g. Eq, Ne) which determine behavior related to NULL
/// values.
#[derive(Clone, Copy, Debug)]
pub struct CmpInsFlags(usize);

impl CmpInsFlags {
    pub const NULL_EQ: usize = 0x80;

    pub const JUMP_IF_NULL: usize = 0x10;

    /// The flags as the bits of a word.
    pub closed spec fn bits(self) -> usize {
        self.0
    }

    /// Whether one of the bits of `flag` is set.
    pub open spec fn contains(self, flag: usize) -> bool {
        self.bits() & flag != 0
    }

    /// The flags with the bits of `flag` set, and the others as they were.
    pub closed spec fn with(self, flag: usize) -> CmpInsFlags {
        CmpInsFlags(self.0 | flag)
    }

    fn has(&self, flag: usize) -> (result: bool)
        ensures
            result == self.contains(flag),
    {
        (self.0 & flag) != 0
    }

    /// Sets the flag by which NULL equals NULL.
    pub fn null_eq(self) -> (result: Self)
        ensures
            result == self.with(CmpInsFlags::NULL_EQ),
            result.bits() == self.bits() | CmpInsFlags::NULL_EQ,
            result.bits() == self.bits() | 0x80,
            result.contains(CmpInsFlags::NULL_EQ),
            result.contains(CmpInsFlags::JUMP_IF_NULL) == self.contains(CmpInsFlags::JUMP_IF_NULL),
    {
        proof {
            law_comparison_flags_apart(self, 0);
            law_comparison_flags(self, CmpInsFlags::NULL_EQ, CmpInsFlags::JUMP_IF_NULL);
        }
        CmpInsFlags(self.0 | CmpInsFlags::NULL_EQ)
    }

    /// Sets the flag by which a comparison with NULL jumps.
    pub fn jump_if_null(self) -> (result: Self)
        ensures
            result == self.with(CmpInsFlags::JUMP_IF_NULL),
            result.bits() == self.bits() | CmpInsFlags::JUMP_IF_NULL,
            result.bits() == self.bits() | 0x10,
            result.contains(CmpInsFlags::JUMP_IF_NULL),
            result.contains(CmpInsFlags::NULL_EQ) == self.contains(CmpInsFlags::NULL_EQ),
    {
        proof {
            law_comparison_flags_apart(self, 0);
            law_comparison_flags(self, CmpInsFlags::JUMP_IF_NULL, CmpInsFlags::NULL_EQ);
        }
        CmpInsFlags(self.0 | CmpInsFlags::JUMP_IF_NULL)
    }

    pub fn has_jump_if_null(&self) -> (result: bool)
        ensures
            result == self.contains(CmpInsFlags::JUMP_IF_NULL),
            result == (self.bits() & 0x10 != 0),
    {
        self.has(CmpInsFlags::JUMP_IF_NULL)
    }

    pub fn has_nulleq(&self) -> (result: bool)
        ensures
            result == self.contains(CmpInsFlags::NULL_EQ),
            result == (self.bits() & 0x80 != 0),
    {
        self.has(CmpInsFlags::NULL_EQ)
    }
}

impl Default for CmpInsFlags {
    /// No flag is set.
    fn default() -> (result: Self)
        ensures
            result.bits() == 0,
            !result.contains(CmpInsFlags::NULL_EQ),
            !result.contains(CmpInsFlags::JUMP_IF_NULL),
    {
        proof {
            law_comparison_flags_apart(CmpInsFlags(0), CmpInsFlags::NULL_EQ);
            law_comparison_flags_apart(CmpInsFlags(0), CmpInsFlags::JUMP_IF_NULL);
        }
        CmpInsFlags(0)
    }
}

/// Flags provided to the insertion into an index.
#[derive(Clone, Copy, Debug)]
pub struct IdxInsertFlags(pub u8);

impl IdxInsertFlags {
    /// Hint: insert likely at the end
    pub const APPEND: u8 = 0x01;

    /// Increment the change counter
    pub const NCHANGE: u8 = 0x02;

    /// Skip seek if last one was same key
    pub const USE_SEEK: u8 = 0x04;

    /// Whether one of the bits of `flag` is set.
    pub open spec fn contains(self, flag: u8) -> bool {
        self.0 & flag != 0
    }

    /// The flags with the bits of `flag` set or cleared, and the others as they were.
    pub open spec fn with(self, flag: u8, set: bool) -> IdxInsertFlags {
        IdxInsertFlags(
            if set {
                self.0 | flag
            } else {
                self.0 & !flag
            },
        )
    }

    /// No flag is set.
    pub fn new() -> (result: Self)
        ensures
            result.0 == 0,
            forall|flag: u8| !#[trigger] result.contains(flag),
    {
        proof {
            assert forall|flag: u8| !#[trigger] IdxInsertFlags(0).contains(flag) by {
                law_index_flags_apart(IdxInsertFlags(0), flag);
            }
        }
        IdxInsertFlags(0)
    }

    pub fn has(&self, flag: u8) -> (result: bool)
        ensures
            result == self.contains(flag),
            result == (self.0 & flag != 0),
    {
        (self.0 & flag) != 0
    }

    pub fn append(self, append: bool) -> (result: Self)
        ensures
            result == self.with(IdxInsertFlags::APPEND, append),
            append ==> result.0 == self.0 | 1,
            !append ==> result.0 == self.0 & !1u8,
            result.contains(IdxInsertFlags::APPEND) == append,
            result.contains(IdxInsertFlags::NCHANGE) == self.contains(IdxInsertFlags::NCHANGE),
            result.contains(IdxInsertFlags::USE_SEEK) == self.contains(IdxInsertFlags::USE_SEEK),
    {
        proof {
            law_index_flags_apart(self, 0);
            law_index_flags(self, IdxInsertFlags::APPEND, IdxInsertFlags::NCHANGE, append, append);
            law_index_flags(self, IdxInsertFlags::APPEND, IdxInsertFlags::USE_SEEK, append, append);
        }
        if append {
            IdxInsertFlags(self.0 | IdxInsertFlags::APPEND)
        } else {
            IdxInsertFlags(self.0 & !IdxInsertFlags::APPEND)
        }
    }

    pub fn use_seek(self, seek: bool) -> (result: Self)
        ensures
            result == self.with(IdxInsertFlags::USE_SEEK, seek),
            seek ==> result.0 == self.0 | 4,
            !seek ==> result.0 == self.0 & !4u8,
            result.contains(IdxInsertFlags::USE_SEEK) == seek,
            result.contains(IdxInsertFlags::APPEND) == self.contains(IdxInsertFlags::APPEND),
            result.contains(IdxInsertFlags::NCHANGE) == self.contains(IdxInsertFlags::NCHANGE),
    {
        proof {
            law_index_flags_apart(self, 0);
            law_index_flags(self, IdxInsertFlags::USE_SEEK, IdxInsertFlags::APPEND, seek, seek);
            law_index_flags(self, IdxInsertFlags::USE_SEEK, IdxInsertFlags::NCHANGE, seek, seek);
        }
        if seek {
            IdxInsertFlags(self.0 | IdxInsertFlags::USE_SEEK)
        } else {
            IdxInsertFlags(self.0 & !IdxInsertFlags::USE_SEEK)
        }
    }

    pub fn nchange(self, change: bool) -> (result: Self)
        ensures
            result == self.with(IdxInsertFlags::NCHANGE, change),
            change ==> result.0 == self.0 | 2,
            !change ==> result.0 == self.0 & !2u8,
            result.contains(IdxInsertFlags::NCHANGE) == change,
            result.contains(IdxInsertFlags::APPEND) == self.contains(IdxInsertFlags::APPEND),
            result.contains(IdxInsertFlags::USE_SEEK) == self.contains(IdxInsertFlags::USE_SEEK),
    {
        proof {
            law_index_flags_apart(self, 0);
            law_index_flags(self, IdxInsertFlags::NCHANGE, IdxInsertFlags::APPEND, change, change);
            law_index_flags(
                self,
                IdxInsertFlags::NCHANGE,
                IdxInsertFlags::USE_SEEK,
                change,
                change,
            );
        }
        if change {
            IdxInsertFlags(self.0 | IdxInsertFlags::NCHANGE)
        } else {
            IdxInsertFlags(self.0 & !IdxInsertFlags::NCHANGE)
        }
    }
}

impl Default for IdxInsertFlags {
    /// No flag is set.
    fn default() -> (result: Self)
        ensures
            result.0 == 0,
            forall|flag: u8| !#[trigger] result.contains(flag),
    {
        IdxInsertFlags::new()
    }
}

/// Setting a flag of a comparison sets that flag and no other, setting it again changes nothing,
/// and two settings can be exchanged.
pub proof fn law_comparison_flags(start: CmpInsFlags, flag: usize, other: usize)
    requires
        flag != 0,
        flag & other == 0,
    ensures
        start.with(flag).contains(flag),
        start.with(flag).contains(other) == start.contains(other),
        start.with(flag).with(flag) == start.with(flag),
        start.with(flag).with(other) == start.with(other).with(flag),
{
    let bits = start.0;
    assert((bits | flag) & flag == flag) by (bit_vector);
    assert((bits | flag) & other == bits & other) by (bit_vector)
        requires
            flag & other == 0,
    ;
    assert((bits | flag) | flag == bits | flag) by (bit_vector);
    assert((bits | flag) | other == (bits | other) | flag) by (bit_vector);
}

/// The two flags of a comparison share no bit, and a word without bits contains no flag.
pub proof fn law_comparison_flags_apart(flags: CmpInsFlags, flag: usize)
    ensures
        CmpInsFlags::NULL_EQ & CmpInsFlags::JUMP_IF_NULL == 0,
        CmpInsFlags::JUMP_IF_NULL & CmpInsFlags::NULL_EQ == 0,
        flags.bits() == 0 ==> !flags.contains(flag),
{
    assert(0x80usize & 0x10 == 0 && 0x10usize & 0x80 == 0) by (bit_vector);
    assert(0usize & flag == 0) by (bit_vector);
}

/// Setting or clearing a flag of an index insertion decides that flag and no other, the last of two
/// settings of one flag decides, and settings of different flags can be exchanged.
pub proof fn law_index_flags(
    start: IdxInsertFlags,
    flag: u8,
    other: u8,
    first: bool,
    second: bool,
)
    requires
        flag != 0,
        flag & other == 0,
    ensures
        start.with(flag, first).contains(flag) == first,
        start.with(flag, first).contains(other) == start.contains(other),
        start.with(flag, first).with(flag, second) == start.with(flag, second),
        start.with(flag, first).with(other, second) == start.with(other, second).with(flag, first),
{
    let bits = start.0;
    assert((bits | flag) & flag == flag && (bits & !flag) & flag == 0) by (bit_vector);
    assert((bits | flag) & other == bits & other && (bits & !flag) & other == bits & other)
        by (bit_vector)
        requires
            flag & other == 0,
    ;
    assert((bits | flag) | flag == bits | flag && (bits | flag) & !flag == bits & !flag && (bits
        & !flag) | flag == bits | flag && (bits & !flag) & !flag == bits & !flag)
        by (bit_vector);
    assert((bits | flag) | other == (bits | other) | flag && (bits | flag) & !other == (bits
        & !other) | flag && (bits & !flag) | other == (bits | other) & !flag && (bits & !flag)
        & !other == (bits & !other) & !flag) by (bit_vector)
        requires
            flag & other == 0,
    ;
}

/// The flags of an index insertion share no bit, and a byte without bits contains no flag.
pub proof fn law_index_flags_apart(flags: IdxInsertFlags, flag: u8)
    ensures
        IdxInsertFlags::APPEND & IdxInsertFlags::NCHANGE == 0,
        IdxInsertFlags::APPEND & IdxInsertFlags::USE_SEEK == 0,
        IdxInsertFlags::NCHANGE & IdxInsertFlags::APPEND == 0,
        IdxInsertFlags::NCHANGE & IdxInsertFlags::USE_SEEK == 0,
        IdxInsertFlags::USE_SEEK & IdxInsertFlags::APPEND == 0,
        IdxInsertFlags::USE_SEEK & IdxInsertFlags::NCHANGE == 0,
        flags.0 == 0 ==> !flags.contains(flag),
{
    assert(1u8 & 2 == 0 && 1u8 & 4 == 0 && 2u8 & 1 == 0 && 2u8 & 4 == 0 && 4u8 & 1 == 0 && 4u8 & 2
        == 0) by (bit_vector);
    assert(0u8 & flag == 0) by (bit_vector);
}

} // verus!
