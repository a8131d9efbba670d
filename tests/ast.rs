use dart_kernel::codec::Codec;
use dart_kernel::component::StringTable;
use dart_kernel::error::{KernelError, SumKind};
use dart_kernel::expr::{decode_expr, decode_stmt, encode_expr, Expr, IntLit};
use dart_kernel::flags::{FieldFlags, LibraryFlags, ProcedureFlags};
use dart_kernel::node::{decode_class, encode_class, Class, ClassIndex, Procedure};
use dart_kernel::prim::{FileOffset, Uint};

fn expr(bytes: &[u8]) -> Result<Expr, KernelError> {
    let mut pos = 0usize;
    let e = decode_expr(bytes, &mut pos)?;
    assert_eq!(pos, bytes.len());
    Ok(e)
}

#[test]
fn short_var_get_equals_general_form() {
    let short = expr(&[130, 5, 7]).unwrap();
    let general = expr(&[20, 5, 7, 2, 0]).unwrap();
    assert_eq!(short, general);
    assert_eq!(
        short,
        Expr::VarGet {
            offset: FileOffset(Uint(5)),
            var_decl_position: Uint(7),
            var: Uint(2),
            promoted_type: None
        }
    );
}

#[test]
fn short_var_set_equals_general_form() {
    assert_eq!(expr(&[137, 5, 7, 41]).unwrap(), expr(&[21, 5, 7, 1, 41]).unwrap());
}

#[test]
fn short_int_literals_equal_general_forms() {
    assert_eq!(expr(&[144]).unwrap(), expr(&[56, 3]).unwrap());
    assert_eq!(expr(&[146]).unwrap(), Expr::NegIntLit(Uint(1)));
    assert_eq!(expr(&[147]).unwrap(), expr(&[55, 0]).unwrap());
    assert_eq!(expr(&[151]).unwrap(), Expr::PosIntLit(Uint(4)));
    let mut pos = 0usize;
    assert_eq!(IntLit::decode(&[145], &mut pos).unwrap(), IntLit::Neg(Uint(2)));
    let mut pos = 0usize;
    assert_eq!(IntLit::decode(&[55, 4], &mut pos).unwrap(), IntLit::Pos(Uint(4)));
}

#[test]
fn expression_round_trip() {
    let e = Expr::Not { operand: Box::new(Expr::StringConcat { offset: FileOffset(Uint(300)), expressions: vec![Expr::TrueLit, Expr::NullLit] }) };
    let mut out = Vec::new();
    encode_expr(&e, &mut out).unwrap();
    assert_eq!(out, vec![33, 36, 0x81, 0x2C, 2, 41, 43]);
    assert_eq!(expr(&out).unwrap(), e);
}

#[test]
fn unknown_tags_name_their_sum() {
    assert_eq!(expr(&[0xFE]), Err(KernelError::UnknownTag { sum: SumKind::Expr, tag: 0xFE }));
    let mut pos = 0usize;
    assert_eq!(decode_stmt(&[0], &mut pos), Err(KernelError::UnknownTag { sum: SumKind::Stmt, tag: 0 }));
    assert_eq!(expr(&[]), Err(KernelError::ShortRead));
}

#[test]
fn class_procedure_offsets_end_with_sentinel() {
    let class = Class { procedures: vec![Procedure::default(), Procedure::default()], ..Class::default() };
    let mut out = vec![9, 9, 9];
    encode_class(&class, &mut out).unwrap();
    let n = out.len();
    let word = |at: usize| u32::from_be_bytes([out[at], out[at + 1], out[at + 2], out[at + 3]]) as usize;
    assert_eq!(word(n - 4), 2);
    let first = word(n - 16);
    let second = word(n - 12);
    let sentinel = word(n - 8);
    assert_eq!(out[first], 0x06);
    assert_eq!(out[second], 0x06);
    assert!(first < second && second < sentinel);
    // Just after the last procedure comes the redirecting-factory count.
    assert_eq!(out[sentinel], 0);
    assert_eq!(sentinel + 1, n - 16);
    let mut pos = 3usize;
    let back = decode_class(&out, &mut pos).unwrap();
    assert_eq!(back, class);
    assert_eq!(pos, n);
}

#[test]
fn class_index_count_must_match() {
    let mut pos = 0usize;
    assert_eq!(ClassIndex::decode(&[0, 0, 0, 5, 0, 0, 0, 1], &mut pos, 0), Err(KernelError::ClassIndexMismatch));
    let mut pos = 0usize;
    assert_eq!(ClassIndex::decode(&[0, 0, 0, 5, 0, 0, 0, 0], &mut pos, 0), Ok(ClassIndex));
    let mut pos = 0usize;
    assert_eq!(ClassIndex::decode(&[0, 0, 0, 5], &mut pos, 0), Err(KernelError::ShortRead));
}

#[test]
fn string_table_blob_must_match_offsets() {
    let t = StringTable { end_offsets: vec![Uint(3)], bytes: vec![1] };
    let mut out = Vec::new();
    assert_eq!(t.encode(&mut out), Err(KernelError::IndexOutOfRange { index: 3, len: 1 }));
}

#[test]
fn flag_words_keep_their_bits() {
    assert_eq!(ProcedureFlags::new().with_is_static(true).into_bytes(), [1]);
    assert!(FieldFlags::from_bytes([0, 0x04]).is_static());
    assert!(!FieldFlags::from_bytes([0, 0x04]).is_final());
    let lib = LibraryFlags::from_bytes([0xF0]);
    assert_eq!(lib.into_bytes(), [0xF0]);
    assert_eq!(lib.with_nnb_mode(2).nnb_mode(), 2);
    assert_eq!(lib.with_nnb_mode(2).into_bytes(), [0xF8]);
}
