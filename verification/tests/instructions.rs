use vdbe::binary64::Real;
use vdbe::flags::{CmpInsFlags, IdxInsertFlags};
use vdbe::insn::{
    AggFunc, BranchOffset, CheckpointMode, Cookie, FuncCtx, Insn, InsnFunction, PageIdx,
    ParameterIndex, Record, RegisterOrLiteral,
};
use vdbe::value::OwnedValue;

#[test]
fn comparison_flags_are_independent() {
    let none = CmpInsFlags::default();
    assert!(!none.has_nulleq());
    assert!(!none.has_jump_if_null());
    let equal = none.null_eq();
    assert!(equal.has_nulleq());
    assert!(!equal.has_jump_if_null());
    let jumping = none.jump_if_null();
    assert!(!jumping.has_nulleq());
    assert!(jumping.has_jump_if_null());
    let both = none.jump_if_null().null_eq().null_eq();
    assert!(both.has_nulleq());
    assert!(both.has_jump_if_null());
    assert_eq!(format!("{:?}", both), "CmpInsFlags(144)");
    assert_eq!(
        format!("{:?}", none.null_eq().jump_if_null()),
        "CmpInsFlags(144)"
    );
    assert_eq!(CmpInsFlags::NULL_EQ, 0x80);
    assert_eq!(CmpInsFlags::JUMP_IF_NULL, 0x10);
}

#[test]
fn index_flags_are_set_and_cleared() {
    assert_eq!(IdxInsertFlags::APPEND, 1);
    assert_eq!(IdxInsertFlags::NCHANGE, 2);
    assert_eq!(IdxInsertFlags::USE_SEEK, 4);
    let none = IdxInsertFlags::new();
    assert_eq!(none.0, 0);
    assert_eq!(IdxInsertFlags::default().0, 0);
    assert_eq!(none.append(true).0, 1);
    assert_eq!(none.nchange(true).0, 2);
    assert_eq!(none.use_seek(true).0, 4);
    let all = none.append(true).nchange(true).use_seek(true);
    assert_eq!(all.0, 7);
    assert!(all.has(IdxInsertFlags::USE_SEEK));
    assert_eq!(all.append(false).0, 6);
    assert_eq!(all.nchange(false).0, 5);
    assert_eq!(all.use_seek(false).0, 3);
    assert!(!all.nchange(false).has(IdxInsertFlags::NCHANGE));
    assert_eq!(IdxInsertFlags(0xff).append(false).0, 0xfe);
    assert_eq!(all.append(false).append(true).0, 7);
    assert_eq!(
        none.append(true).use_seek(true).0,
        none.use_seek(true).append(true).0
    );
}

#[test]
fn a_page_becomes_a_literal() {
    let page: PageIdx = 7;
    assert!(matches!(
        RegisterOrLiteral::from(page),
        RegisterOrLiteral::Literal(7)
    ));
}

#[test]
fn cookies_have_their_numbers() {
    assert_eq!(Cookie::SchemaVersion.number(), 1);
    assert_eq!(Cookie::DatabaseFormat.number(), 2);
    assert_eq!(Cookie::DefaultPageCacheSize.number(), 3);
    assert_eq!(Cookie::LargestRootPageNumber.number(), 4);
    assert_eq!(Cookie::DatabaseTextEncoding.number(), 5);
    assert_eq!(Cookie::UserVersion.number(), 6);
}

#[test]
fn parameters_are_counted_from_one() {
    assert!(ParameterIndex::new(0).is_none());
    assert_eq!(ParameterIndex::new(3).unwrap().get(), 3);
}

#[test]
fn every_instruction_has_its_function() {
    let target_pc = BranchOffset::Offset(3);
    let init = Insn::Init { target_pc };
    assert_eq!(init.to_function(), InsnFunction::OpInit);
    let add = Insn::Add { lhs: 1, rhs: 2, dest: 3 };
    assert_eq!(add.to_function(), InsnFunction::OpAdd);
    let other = Insn::Add { lhs: 4, rhs: 5, dest: 6 };
    assert_eq!(other.to_function(), add.to_function());
    let remainder = Insn::Remainder { lhs: 1, rhs: 2, dest: 3 };
    assert_eq!(remainder.to_function(), InsnFunction::OpRemainder);
    assert_ne!(remainder.to_function(), add.to_function());
    let checkpoint = Insn::Checkpoint {
        database: 0,
        checkpoint_mode: CheckpointMode::Passive,
        dest: 1,
    };
    assert_eq!(checkpoint.to_function(), InsnFunction::OpCheckpoint);
    let eq = Insn::Eq {
        lhs: 1,
        rhs: 2,
        target_pc: BranchOffset::Label(1),
        flags: CmpInsFlags::default().null_eq(),
    };
    assert_eq!(eq.to_function(), InsnFunction::OpEq);
    assert_eq!(Insn::OpenReadAwait.to_function(), InsnFunction::OpOpenReadAwait);
    assert_eq!(Insn::OpenWriteAwait {}.to_function(), InsnFunction::OpOpenWriteAwait);
    assert_eq!(Insn::Noop.to_function(), InsnFunction::OpNoop);
    let write_real = Insn::Real {
        value: Real::from_integer(2),
        dest: 1,
    };
    assert_eq!(write_real.to_function(), InsnFunction::OpReal);
    let write = Insn::OpenWriteAsync {
        cursor_id: 1,
        root_page: RegisterOrLiteral::Register(4),
    };
    assert_eq!(write.to_function(), InsnFunction::OpOpenWriteAsync);
    let insert = Insn::IdxInsertAsync {
        cursor_id: 1,
        record_reg: 2,
        unpacked_start: Some(3),
        unpacked_count: None,
        flags: IdxInsertFlags::new().append(true),
    };
    assert_eq!(insert.to_function(), InsnFunction::OpIdxInsertAsync);
    let sorter = Insn::SorterOpen {
        cursor_id: 1,
        columns: 1,
        order: Record { values: vec![OwnedValue::Integer(0)] },
    };
    assert_eq!(sorter.to_function(), InsnFunction::OpSorterOpen);
    let step = Insn::AggStep {
        acc_reg: 1,
        col: 2,
        delimiter: 0,
        func: AggFunc { name: "sum".to_string() },
    };
    assert_eq!(step.to_function(), InsnFunction::OpAggStep);
    let function = Insn::Function {
        constant_mask: 0,
        start_reg: 1,
        dest: 2,
        func: FuncCtx { name: "abs".to_string(), arg_count: 1 },
    };
    assert_eq!(function.to_function(), InsnFunction::OpFunction);
    let variable = Insn::Variable {
        index: ParameterIndex::new(1).unwrap(),
        dest: 2,
    };
    assert_eq!(variable.to_function(), InsnFunction::OpVariable);
    let cookie = Insn::ReadCookie {
        db: 0,
        dest: 1,
        cookie: Cookie::UserVersion,
    };
    assert_eq!(cookie.to_function(), InsnFunction::OpReadCookie);
}
