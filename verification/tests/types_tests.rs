use cilk::types::{ArrayType, CompoundType, IndexValue, StructType, Type, Types, TypesBase};

#[test]
fn pointer_types_are_interned() {
    let mut tys = Types::new();
    let p1 = tys.new_pointer_ty(Type::i32);
    let p2 = tys.new_pointer_ty(Type::i32);
    let p3 = tys.new_pointer_ty(Type::i64);
    assert_eq!(p1, p2);
    assert_ne!(p1, p3);
    match (p1, p3) {
        (Type::Pointer(a), Type::Pointer(b)) => {
            assert_eq!(a.index, 0);
            assert_eq!(b.index, 1);
            assert_eq!(a.arena_id, b.arena_id);
        }
        _ => panic!("pointer types expected"),
    }
}

#[test]
fn array_types_are_interned_by_element_and_length() {
    let mut tys = Types::new();
    let a1 = tys.new_array_ty(Type::i8, 4);
    let a2 = tys.new_array_ty(Type::i8, 8);
    let a3 = tys.new_array_ty(Type::i8, 4);
    assert_eq!(a1, a3);
    assert_ne!(a1, a2);
}

#[test]
fn struct_layout_pads_fields_to_their_alignment() {
    // i8, i32, i8 with sizes 1, 4, 1 and alignments 1, 4, 1
    let s = StructType::new(vec![Type::i8, Type::i32, Type::i8], &[1, 4, 1], &[1, 4, 1]);
    assert_eq!(s.get_elem_offset(0), Some(&0));
    assert_eq!(s.get_elem_offset(1), Some(&4));
    assert_eq!(s.get_elem_offset(2), Some(&8));
    assert_eq!(s.get_elem_offset(3), None);
    assert_eq!(s.size(), 12);
    assert_eq!(s.align(), 4);
}

#[test]
fn empty_struct_has_size_zero_and_alignment_one() {
    let s = StructType::new(vec![], &[], &[]);
    assert_eq!(s.size(), 0);
    assert_eq!(s.align(), 1);
    assert_eq!(s.get_elem_offset(0), None);
}

#[test]
fn struct_layout_with_eight_byte_field() {
    // i32, i64: the i64 starts at 8 and the struct is 16 bytes, aligned to 8
    let s = StructType::new(vec![Type::i32, Type::i64], &[4, 8], &[4, 8]);
    assert_eq!(s.get_elem_offset(1), Some(&8));
    assert_eq!(s.size(), 16);
    assert_eq!(s.align(), 8);
}

#[test]
fn get_type_at_finds_the_field_at_an_offset() {
    let s = StructType::new(vec![Type::i8, Type::i32, Type::i64], &[1, 4, 8], &[1, 4, 8]);
    assert_eq!(s.get_type_at(0), Some(&Type::i8));
    assert_eq!(s.get_type_at(4), Some(&Type::i32));
    assert_eq!(s.get_type_at(8), Some(&Type::i64));
    assert_eq!(s.get_type_at(2), None);
}

#[test]
fn get_type_at_returns_the_first_field_at_an_offset() {
    // a zero-sized field shares its offset with the next one
    let s = StructType::new(vec![Type::Void, Type::i32], &[0, 4], &[1, 4]);
    assert_eq!(s.get_elem_offset(0), Some(&0));
    assert_eq!(s.get_elem_offset(1), Some(&0));
    assert_eq!(s.get_type_at(0), Some(&Type::Void));
}

#[test]
fn compute_elem_offsets_appends_offsets() {
    let mut s = StructType::new(vec![Type::i32, Type::i32], &[4, 4], &[4, 4]);
    s.compute_elem_offsets(&[4, 4], &[4, 4]);
    assert_eq!(s.get_elem_offset(2), Some(&0));
    assert_eq!(s.get_elem_offset(3), Some(&4));
    assert_eq!(s.size(), 8);
}

#[test]
fn function_type_passes_struct_parameters_by_pointer() {
    let mut tys = Types::new();
    let st = tys.new_struct_ty(vec![Type::i32, Type::i32], &[4, 4], &[4, 4]);
    let f = tys.new_function_ty(Type::Void, vec![Type::i32, st]);
    let ptr = tys.new_pointer_ty(st);
    let id = match f {
        Type::Function(id) => id,
        _ => panic!("function type expected"),
    };
    match tys.compound_ty(id) {
        CompoundType::Function(ft) => {
            assert_eq!(ft.ret_ty, Type::Void);
            assert_eq!(ft.params_ty, vec![Type::i32, ptr]);
            assert!(ft.params_attr.get(&0).is_none());
            assert!(ft.params_attr.get(&1).unwrap().byval);
        }
        _ => panic!("function entry expected"),
    }
    // the same signature is interned once
    let g = tys.new_function_ty(Type::Void, vec![Type::i32, st]);
    assert_eq!(f, g);
}

#[test]
fn element_types() {
    let mut tys = Types::new();
    let arr = tys.new_array_ty(Type::i32, 10);
    let ptr = tys.new_pointer_ty(arr);
    let st = tys.new_struct_ty(vec![Type::i8, ptr], &[1, 8], &[1, 8]);
    assert_eq!(tys.get_element_ty(ptr, None), Some(arr));
    assert_eq!(tys.get_element_ty(arr, None), Some(Type::i32));
    assert_eq!(tys.get_element_ty(st, Some(&IndexValue::Int32(1))), Some(ptr));
    assert_eq!(tys.get_element_ty(Type::i64, None), Some(Type::i64));
    let idx = [IndexValue::Int32(1), IndexValue::Other, IndexValue::Other];
    assert_eq!(tys.get_element_ty_with_indices(st, &idx), Some(Type::i32));
    assert_eq!(tys.get_element_ty_with_indices(st, &[]), Some(st));
    assert_eq!(tys.get_element_ty_with_indices(Type::i32, &[IndexValue::Other]), None);
    let four = [IndexValue::Int32(1), IndexValue::Other, IndexValue::Other, IndexValue::Other];
    assert_eq!(tys.get_element_ty_with_indices(st, &four), None);
}

#[test]
fn type_names() {
    let mut tys = Types::new();
    let p = tys.new_pointer_ty(Type::i32);
    let a = tys.new_array_ty(Type::i8, 16);
    let s = tys.new_struct_ty(vec![Type::i32, p], &[4, 8], &[4, 8]);
    let f = tys.new_function_ty(Type::i64, vec![Type::i32, s, Type::F64]);
    assert_eq!(tys.to_string(Type::Void), "void");
    assert_eq!(tys.to_string(Type::F64), "f64");
    assert_eq!(tys.to_string(p), "i32*");
    assert_eq!(tys.to_string(a), "[16 x i8]");
    assert_eq!(tys.to_string(s), "struct {i32, i32*}");
    assert_eq!(tys.to_string(f), "i64 (i32, struct {i32, i32*}* byval, f64)");
    let e = tys.new_struct_ty(vec![], &[], &[]);
    assert_eq!(tys.to_string(e), "struct {}");
    let g = tys.new_function_ty(Type::Void, vec![]);
    assert_eq!(tys.to_string(g), "void ()");
}

#[test]
fn type_names_without_table() {
    let mut tys = Types::new();
    let _ = tys.new_pointer_ty(Type::i32);
    let a = tys.new_array_ty(Type::i8, 2);
    let p = tys.new_pointer_ty(a);
    assert_eq!(Type::i1.to_string(), "i1");
    assert_eq!(a.to_string(), "arrty:1");
    assert_eq!(p.to_string(), "(ty:2)*");
}

#[test]
fn array_and_struct_text_through_their_own_methods() {
    let mut base = TypesBase::new();
    let p = base.new_pointer_ty(Type::i8);
    let arr = ArrayType::new(p, 3);
    assert_eq!(arr.to_string(&base), "[3 x i8*]");
    let s = StructType::new(vec![Type::i1, p], &[1, 8], &[1, 8]);
    assert_eq!(s.to_string(&base), "struct {i1, i8*}");
}

#[test]
fn type_predicates() {
    assert!(Type::Void.is_atomic());
    assert!(Type::F64.is_atomic());
    assert!(Type::i1.is_integer());
    assert!(!Type::F64.is_integer());
    assert!(Type::F64.is_float());
    assert!(!Type::i64.is_float());
    let mut tys = Types::new();
    let p = tys.new_pointer_ty(Type::i32);
    assert!(!p.is_atomic());
    assert!(!p.is_integer());
}

#[test]
fn as_struct_and_as_function() {
    let mut tys = Types::new();
    let s = tys.new_struct_ty(vec![Type::i32], &[4], &[4]);
    let f = tys.new_function_ty(Type::i32, vec![]);
    assert_eq!(tys.base.as_struct_ty(s).unwrap().size(), 4);
    assert!(tys.base.as_struct_ty(Type::i32).is_none());
    assert_eq!(tys.base.as_function_ty(f).unwrap().ret_ty, Type::i32);
    assert!(tys.base.as_function_ty(s).is_none());
}

#[test]
fn making_a_function_type_twice_gives_the_same_type_and_table() {
    let mut tys = TypesBase::new();
    let st = {
        let mut t = Types { base: tys };
        let st = t.new_struct_ty(vec![Type::i32, Type::i64], &[4, 8], &[4, 8]);
        tys = t.base;
        st
    };
    let f1 = tys.new_function_ty(Type::i32, vec![st, Type::i8]);
    let n = tys.compound_types.len();
    let f2 = tys.new_function_ty(Type::i32, vec![st, Type::i8]);
    assert_eq!(f1, f2);
    assert_eq!(tys.compound_types.len(), n);
}
