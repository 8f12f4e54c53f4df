use hologram_exec::bytes::{decode_u32s, encode_i32s, encode_u32s, indices_to_bytes, iter_i32, iter_i64, read_i32_at, read_i64_at};
use hologram_exec::cast::dispatch_cast;
use hologram_exec::error::ExecError;
use hologram_exec::select::{
    binary_byte_bool, compress_select, dispatch_compress, dispatch_nonzero, dispatch_scatter_nd, dispatch_where,
    unary_byte_bool, where_select,
};
use hologram_exec::spatial::dispatch_pad;
use hologram_exec::store::KvStore;
use hologram_exec::tensor_ops::{
    dispatch_concat, dispatch_gather, dispatch_isnan, dispatch_reverse_sequence, dispatch_shape, dispatch_shape_sliced,
    embed_lookup, to_bools, to_bools_as, FloatDType,
};

fn f32_bytes(v: &[f32]) -> Vec<u8> {
    v.iter().flat_map(|x| x.to_le_bytes()).collect()
}

fn to_f32s(b: &[u8]) -> Vec<f32> {
    b.chunks_exact(4).map(|c| f32::from_le_bytes([c[0], c[1], c[2], c[3]])).collect()
}

fn i64_bytes(v: &[i64]) -> Vec<u8> {
    v.iter().flat_map(|x| x.to_le_bytes()).collect()
}

fn to_i64s(b: &[u8]) -> Vec<i64> {
    b.chunks_exact(8).map(|c| i64::from_le_bytes(c.try_into().unwrap())).collect()
}

#[test]
fn test_float_gather() {
    let indices = i64_bytes(&[0, 2]);
    let table = f32_bytes(&[1.0, 2.0, 3.0, 4.0, 5.0, 6.0]);
    let result = dispatch_gather(&[&indices, &table], 2, FloatDType::F32).unwrap();
    assert_eq!(to_f32s(&result), vec![1.0, 2.0, 5.0, 6.0]);
}

#[test]
fn test_float_concat() {
    let a = f32_bytes(&[1.0, 2.0, 3.0, 4.0]);
    let b = f32_bytes(&[5.0, 6.0]);
    let result = dispatch_concat(&[&a, &b], 2, 1, FloatDType::F32).unwrap();
    assert_eq!(to_f32s(&result), vec![1.0, 2.0, 5.0, 3.0, 4.0, 6.0]);
}

#[test]
fn indices_to_bytes_roundtrip() {
    let indices = vec![0i64, 5, 10, 42];
    let bytes = indices_to_bytes(&indices);
    assert_eq!(bytes.len(), 32);
    for (i, &expected) in indices.iter().enumerate() {
        let actual = i64::from_le_bytes(bytes[i * 8..(i + 1) * 8].try_into().expect("8 bytes"));
        assert_eq!(actual, expected);
    }
}

#[test]
fn byte_codecs_roundtrip() {
    let v = vec![-1i64, i64::MAX, 7];
    assert_eq!(iter_i64(&indices_to_bytes(&v)), v);
    let w = vec![-5i32, 0, i32::MIN];
    assert_eq!(iter_i32(&encode_i32s(&w)), w);
    let u = vec![0x3f80_0000u32, 1, u32::MAX];
    assert_eq!(decode_u32s(&encode_u32s(&u)), u);
    assert_eq!(iter_i64(&[1, 0, 0, 0, 0, 0, 0, 0, 9]), vec![1]);
    assert_eq!(read_i64_at(&i64_bytes(&[3, -4]), 1), Some(-4));
    assert_eq!(read_i64_at(&i64_bytes(&[3, -4]), 2), None);
    assert_eq!(read_i32_at(&[1, 0, 0, 0, 2, 0, 0], 1), None);
}

#[test]
fn gather_reports_out_of_range_index() {
    let indices = i64_bytes(&[1, 3, 7]);
    let table = f32_bytes(&[1.0, 2.0, 3.0, 4.0, 5.0, 6.0]);
    let r = dispatch_gather(&[&indices, &table], 2, FloatDType::F32);
    assert_eq!(r, Err(ExecError::ShapeMismatch { expected: "index < 3".to_string(), actual: "index = 3".to_string() }));
    let neg = i64_bytes(&[-1]);
    assert_eq!(
        dispatch_gather(&[&neg, &table], 2, FloatDType::F32),
        Err(ExecError::ShapeMismatch {
            expected: "index < 3".to_string(),
            actual: format!("index = {}", u64::MAX),
        })
    );
    let ints = i64_bytes(&[10, 20]);
    assert_eq!(
        dispatch_gather(&[&i64_bytes(&[2]), &ints], 1, FloatDType::I64),
        Err(ExecError::ShapeMismatch { expected: "i64 index < 2".to_string(), actual: "index = 2".to_string() })
    );
    assert_eq!(
        dispatch_gather(&[&i64_bytes(&[0, 40]), &ints], 1, FloatDType::I32),
        Err(ExecError::ShapeMismatch { expected: "i32 index < 4".to_string(), actual: "index = 40".to_string() })
    );
}

#[test]
fn gather_integer_tables() {
    let indices = i64_bytes(&[2, 0]);
    let table = i64_bytes(&[10, 20, 30]);
    let r = dispatch_gather(&[&indices, &table], 1, FloatDType::I64).unwrap();
    assert_eq!(to_i64s(&r), vec![30, 10]);
}

#[test]
fn embed_lookup_by_token_width() {
    let table = f32_bytes(&[0.5, 1.5, 2.5, 3.5, 4.5, 5.5]);
    let ids64 = i64_bytes(&[2, 0]);
    assert_eq!(to_f32s(&embed_lookup(&ids64, &table, 2).unwrap()), vec![4.5, 5.5, 0.5, 1.5]);
    let ids32: Vec<u8> = [1i32].iter().flat_map(|x| x.to_le_bytes()).collect();
    assert_eq!(to_f32s(&embed_lookup(&ids32, &table, 2).unwrap()), vec![2.5, 3.5]);
    assert_eq!(embed_lookup(&i64_bytes(&[3]), &table, 2), Err(ExecError::ShapeMismatch { expected: "token id < 3".to_string(), actual: "token id = 3".to_string() }));
}

#[test]
fn concat_append_cases() {
    let a = [1u8, 2, 3];
    let b = [4u8, 5];
    assert_eq!(dispatch_concat(&[&a, &b], 1, 1, FloatDType::F32).unwrap(), vec![1, 2, 3, 4, 5]);
    let ia = indices_to_bytes(&[1, 2]);
    let ib = indices_to_bytes(&[3, 4]);
    let r = dispatch_concat(&[&ia, &ib], 1, 1, FloatDType::I64).unwrap();
    assert_eq!(to_i64s(&r), vec![1, 2, 3, 4]);
    let r2 = dispatch_concat(&[&ia, &ib], 2, 2, FloatDType::I64).unwrap();
    assert_eq!(to_i64s(&r2), vec![1, 2, 3, 4]);
}

#[test]
fn to_bools_prefers_packed_masks() {
    assert_eq!(to_bools(&[1, 0, 1, 1]), vec![1, 0, 1, 1]);
    let f = f32_bytes(&[1.0, 0.0, -0.0, 2.0]);
    assert_eq!(to_bools_as(&f, true), vec![1, 0, 0, 1]);
    assert_eq!(to_bools_as(&f, false), vec![0, 0, 1, 1, 0, 0, 0, 0, 0, 0, 0, 1, 0, 0, 0, 1]);
    let r = to_bools(&f);
    assert!(r == vec![1, 0, 0, 1] || r == to_bools_as(&f, false));
    assert_eq!(to_bools(&[]), Vec::<u8>::new());
}

#[test]
fn isnan_and_reverse() {
    let x = f32_bytes(&[1.0, f32::NAN, f32::INFINITY, -0.0]);
    assert_eq!(dispatch_isnan(&[&x]).unwrap(), vec![0, 1, 0, 0]);
    let r = dispatch_reverse_sequence(&[&f32_bytes(&[1.0, 2.0, 3.0])], 0, 1).unwrap();
    assert_eq!(to_f32s(&r), vec![3.0, 2.0, 1.0]);
}

#[test]
fn shape_ops() {
    let data = vec![0u8; 24];
    assert_eq!(to_i64s(&dispatch_shape(&[&data], FloatDType::F32, 0, 0).unwrap()), vec![6]);
    assert_eq!(to_i64s(&dispatch_shape(&[&data], FloatDType::I64, 0, 0).unwrap()), vec![3]);
    let shape = [2usize, 3, 4, 5];
    assert_eq!(to_i64s(&dispatch_shape_sliced(&shape, FloatDType::F32, 1, i64::MAX).unwrap()), vec![3, 4, 5]);
    assert_eq!(to_i64s(&dispatch_shape_sliced(&shape, FloatDType::F32, -2, -1).unwrap()), vec![4]);
    assert_eq!(to_i64s(&dispatch_shape_sliced(&shape, FloatDType::F32, -10, 2).unwrap()), vec![2, 3]);
    assert!(dispatch_shape_sliced(&shape, FloatDType::F32, 3, 1).unwrap().is_empty());
}

#[test]
fn where_selects_and_cycles() {
    let cond = [1u8, 0, 1, 0];
    let x = f32_bytes(&[1.0, 2.0, 3.0, 4.0]);
    let y = f32_bytes(&[-1.0]);
    assert_eq!(to_f32s(&where_select(&cond, &x, &y)), vec![1.0, -1.0, 3.0, -1.0]);
    assert_eq!(to_f32s(&dispatch_where(&[&cond, &x, &y]).unwrap()), vec![1.0, -1.0, 3.0, -1.0]);
    let empty: [u8; 0] = [];
    assert!(dispatch_where(&[&empty, &empty, &empty]).unwrap().is_empty());
}

#[test]
fn compress_keeps_flagged_elements() {
    let data = f32_bytes(&[1.0, 2.0, 3.0, 4.0]);
    assert_eq!(to_f32s(&compress_select(&data, &[0, 1, 1])), vec![2.0, 3.0]);
    assert_eq!(to_f32s(&dispatch_compress(&[&data, &[1, 0, 0, 1]], 0).unwrap()), vec![1.0, 4.0]);
}

#[test]
fn nonzero_positions() {
    let data = f32_bytes(&[0.0, 2.0, -0.0, f32::NAN, 0.5]);
    assert_eq!(to_i64s(&dispatch_nonzero(&[&data]).unwrap()), vec![1, 3, 4]);
}

#[test]
fn scatter_last_write_wins() {
    let data = f32_bytes(&[0.0, 0.0, 0.0]);
    let idx = i64_bytes(&[1, 5, 1, 0]);
    let upd = f32_bytes(&[7.0, 8.0, 9.0]);
    assert_eq!(to_f32s(&dispatch_scatter_nd(&[&data, &idx, &upd]).unwrap()), vec![0.0, 9.0, 0.0]);
}

#[test]
fn boolean_byte_kernels() {
    let a = [1u8, 0, 1, 1];
    let b = [1u8, 1];
    assert_eq!(binary_byte_bool(&[&a, &b], |x, y| x & y).unwrap(), vec![1, 0, 1, 1]);
    assert_eq!(binary_byte_bool(&[&a, &b], |x, y| x ^ y).unwrap(), vec![0, 1, 0, 0]);
    assert_eq!(unary_byte_bool(&[&[0u8, 5, 1]], |x| 1 - x).unwrap(), vec![1, 0, 0]);
}

#[test]
fn cast_integer_pairs() {
    let v = indices_to_bytes(&[3, -1, 0, 1 << 40]);
    assert_eq!(dispatch_cast(&[&v], FloatDType::I64, FloatDType::Bool), Some(vec![1, 1, 0, 1]));
    let narrowed = dispatch_cast(&[&v], FloatDType::I64, FloatDType::I32).unwrap();
    assert_eq!(iter_i32(&narrowed), vec![3, -1, 0, 0]);
    let w = encode_i32s(&[-2, 5]);
    assert_eq!(iter_i64(&dispatch_cast(&[&w], FloatDType::I32, FloatDType::I64).unwrap()), vec![-2, 5]);
    let mask = [0u8, 3];
    assert_eq!(to_f32s(&dispatch_cast(&[&mask], FloatDType::Bool, FloatDType::F32).unwrap()), vec![0.0, 1.0]);
    assert_eq!(iter_i64(&dispatch_cast(&[&mask], FloatDType::Bool, FloatDType::I64).unwrap()), vec![0, 1]);
    let f = f32_bytes(&[0.0, -0.0, 2.5]);
    assert_eq!(dispatch_cast(&[&f], FloatDType::F32, FloatDType::Bool), Some(vec![0, 0, 1]));
}

#[test]
fn cast_passthrough_and_rounding_pairs() {
    let v = indices_to_bytes(&[3]);
    assert_eq!(dispatch_cast(&[&v], FloatDType::I64, FloatDType::F32), None);
    assert_eq!(dispatch_cast(&[&f32_bytes(&[1.0])], FloatDType::F32, FloatDType::I32), None);
    assert_eq!(dispatch_cast(&[&v], FloatDType::I64, FloatDType::I64), Some(v.clone()));
    let odd = [1u8, 2, 3];
    assert_eq!(dispatch_cast(&[&odd], FloatDType::I32, FloatDType::F32), Some(odd.to_vec()));
    assert_eq!(dispatch_cast(&[&v], FloatDType::I64, FloatDType::F16), Some(v.clone()));
}

#[test]
fn pad_modes() {
    let data = f32_bytes(&[1.0, 2.0, 3.0]);
    let pads = i64_bytes(&[2, 1]);
    assert_eq!(to_f32s(&dispatch_pad(&[&data, &pads], 0).unwrap()), vec![0.0, 0.0, 1.0, 2.0, 3.0, 0.0]);
    assert_eq!(to_f32s(&dispatch_pad(&[&data, &pads], 1).unwrap()), vec![3.0, 2.0, 1.0, 2.0, 3.0, 2.0]);
    assert_eq!(to_f32s(&dispatch_pad(&[&data, &pads], 2).unwrap()), vec![1.0, 1.0, 1.0, 2.0, 3.0, 3.0]);
    let zero = i64_bytes(&[0, 0]);
    assert_eq!(dispatch_pad(&[&data, &zero], 0), Some(data.clone()));
    assert_eq!(dispatch_pad(&[&data], 0), Some(data.clone()));
    assert_eq!(dispatch_pad(&[&data, &f32_bytes(&[1.0])], 0), None);
    let neg = i64_bytes(&[-3, 1]);
    assert_eq!(to_f32s(&dispatch_pad(&[&data, &neg], 0).unwrap()), vec![1.0, 2.0, 3.0, 0.0]);
}

#[test]
fn binary_add() {
    let result = KvStore::apply_binary(|a: u8, b: u8| a.wrapping_add(b), &[10, 200], &[5, 100]).unwrap();
    assert_eq!(result, vec![15, 44]);
}

#[test]
fn binary_sub() {
    let result = KvStore::apply_binary(|a: u8, b: u8| a.wrapping_sub(b), &[10, 5], &[3, 10]).unwrap();
    assert_eq!(result[0], 7);
    assert_eq!(result[1], 251);
}

#[test]
fn binary_xor() {
    let result = KvStore::apply_binary(|a: u8, b: u8| a ^ b, &[0xFF, 0x0F], &[0x0F, 0xF0]).unwrap();
    assert_eq!(result, vec![0xF0, 0xFF]);
}

#[test]
fn binary_length_mismatch() {
    let result = KvStore::apply_binary(|a: u8, b: u8| a.wrapping_add(b), &[1, 2, 3], &[4, 5]);
    assert!(result.is_err());
    assert_eq!(result, Err(ExecError::LengthMismatch { expected: 3, actual: 2 }));
}

#[test]
fn binary_into_appends() {
    let mut out = vec![9u8];
    KvStore::apply_binary_into(|a: u8, b: u8| a.wrapping_mul(b), &[2, 3], &[4, 5], &mut out).unwrap();
    assert_eq!(out, vec![9, 8, 15]);
    assert!(KvStore::apply_binary_into(|a: u8, b: u8| a ^ b, &[1], &[], &mut out).is_err());
    assert_eq!(out, vec![9, 8, 15]);
}
