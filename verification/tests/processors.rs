use bitgrep::common::{DataType, Endianness};
use bitgrep::types::bit_type::BitType;
use bitgrep::types::endian::{be_bytes_value, le_bytes_value, FromBigEndian, FromLittleEndian};
use bitgrep::types::float::{Float32, Float64};
use bitgrep::workers::entropy_processor::EntropyProcessor;
use bitgrep::workers::native_processor::NativeProcessor;
use bitgrep::workers::processors::ChunkSize;
use bitgrep::workers::processors::ChunkSize::Size;
use bitgrep::workers::processors::Processor;

const BYTES: [u8; 16] = [
    0x01, 0x23, 0x45, 0x67, 0x89, 0xab, 0xcd, 0xef, 0xfe, 0xdc, 0xba, 0x98, 0x76, 0x54, 0x32, 0x10,
];

#[test]
fn native_processor_chunk_sizes() {
    assert_eq!(
        NativeProcessor::<i16>::with_big_endian().chunk_size(),
        Size(2)
    );
    assert_eq!(
        NativeProcessor::<u16>::with_big_endian().chunk_size(),
        Size(2)
    );

    assert_eq!(
        NativeProcessor::<i32>::with_big_endian().chunk_size(),
        Size(4)
    );
    assert_eq!(
        NativeProcessor::<Float32>::with_big_endian().chunk_size(),
        Size(4)
    );
    assert_eq!(
        NativeProcessor::<u32>::with_big_endian().chunk_size(),
        Size(4)
    );

    assert_eq!(
        NativeProcessor::<i64>::with_little_endian().chunk_size(),
        Size(8)
    );
    assert_eq!(
        NativeProcessor::<Float64>::with_little_endian().chunk_size(),
        Size(8)
    );
    assert_eq!(
        NativeProcessor::<u64>::with_little_endian().chunk_size(),
        Size(8)
    );

    assert_eq!(
        NativeProcessor::<i128>::with_little_endian().chunk_size(),
        Size(16)
    );
    assert_eq!(
        NativeProcessor::<u128>::with_little_endian().chunk_size(),
        Size(16)
    );
}

#[test]
fn consume() {
    let mut processor: NativeProcessor<Float64> = NativeProcessor::with_little_endian();
    let result = processor.consume(&1.5f64.to_le_bytes());
    assert_eq!(result, Some(Float64::from_bits(1.5f64.to_bits())));

    let mut processor: NativeProcessor<u16> = NativeProcessor::with_big_endian();
    assert_eq!(processor.consume(&[0x12u8, 0x34u8]), Some(0x1234));
    assert_eq!(processor.consume(&[0x12u8]), None);
}

#[test]
fn consume_big() {
    let mut processor: NativeProcessor<_> = NativeProcessor::new(Endianness::Big);
    let result: i32 = processor.consume(&[0u8, 0u8, 0x10u8, 0xf8u8]).unwrap();

    assert_eq!(result, 4344);
}

#[test]
fn consume_little() {
    let mut processor: NativeProcessor<_> = NativeProcessor::new(Endianness::Little);
    let result: i32 = processor.consume(&[0xf8u8, 0x10u8, 0u8, 0u8]).unwrap();

    assert_eq!(result, 4344);
}

#[test]
fn consume_not_enough_bytes_returns_none() {
    let mut processor: NativeProcessor<i128> = NativeProcessor::new(Endianness::Little);
    let result = processor.consume(&[0u8, 0u8, 0x10u8, 0xf8u8]);

    assert!(result.is_none());
}

#[test]
fn chunk_size_returns_any() {
    assert_eq!(
        EntropyProcessor::<Float64>::new(512).chunk_size(),
        ChunkSize::Any
    );
}

#[test]
fn chunk_size_unwrap_and_or_default() {
    assert_eq!(Size(8).unwrap(), 8);
    assert_eq!(Size(0).unwrap(), 0);
    assert_eq!(Size(8).or_default(4096), 8);
    assert_eq!(ChunkSize::Any.or_default(4096), 4096);
}

#[test]
fn from_bytes_reads_what_std_reads_little_endian() {
    assert_eq!(<u8 as FromLittleEndian>::from_bytes(&BYTES[..1]), u8::from_le_bytes(BYTES[..1].try_into().unwrap()));
    assert_eq!(<u16 as FromLittleEndian>::from_bytes(&BYTES[..2]), u16::from_le_bytes(BYTES[..2].try_into().unwrap()));
    assert_eq!(<u32 as FromLittleEndian>::from_bytes(&BYTES[..4]), u32::from_le_bytes(BYTES[..4].try_into().unwrap()));
    assert_eq!(<u64 as FromLittleEndian>::from_bytes(&BYTES[..8]), u64::from_le_bytes(BYTES[..8].try_into().unwrap()));
    assert_eq!(<u128 as FromLittleEndian>::from_bytes(&BYTES), u128::from_le_bytes(BYTES));
    assert_eq!(<i8 as FromLittleEndian>::from_bytes(&BYTES[8..9]), i8::from_le_bytes(BYTES[8..9].try_into().unwrap()));
    assert_eq!(<i16 as FromLittleEndian>::from_bytes(&BYTES[6..8]), i16::from_le_bytes(BYTES[6..8].try_into().unwrap()));
    assert_eq!(<i32 as FromLittleEndian>::from_bytes(&BYTES[4..8]), i32::from_le_bytes(BYTES[4..8].try_into().unwrap()));
    assert_eq!(<i64 as FromLittleEndian>::from_bytes(&BYTES[..8]), i64::from_le_bytes(BYTES[..8].try_into().unwrap()));
    assert_eq!(<i128 as FromLittleEndian>::from_bytes(&BYTES), i128::from_le_bytes(BYTES));
    assert_eq!(
        <Float32 as FromLittleEndian>::from_bytes(&BYTES[..4]).to_bits(),
        f32::from_le_bytes(BYTES[..4].try_into().unwrap()).to_bits()
    );
    assert_eq!(
        <Float64 as FromLittleEndian>::from_bytes(&BYTES[..8]).to_bits(),
        f64::from_le_bytes(BYTES[..8].try_into().unwrap()).to_bits()
    );
}

#[test]
fn from_bytes_reads_what_std_reads_big_endian() {
    assert_eq!(<u8 as FromBigEndian>::from_bytes(&BYTES[..1]), u8::from_be_bytes(BYTES[..1].try_into().unwrap()));
    assert_eq!(<u16 as FromBigEndian>::from_bytes(&BYTES[..2]), u16::from_be_bytes(BYTES[..2].try_into().unwrap()));
    assert_eq!(<u32 as FromBigEndian>::from_bytes(&BYTES[..4]), u32::from_be_bytes(BYTES[..4].try_into().unwrap()));
    assert_eq!(<u64 as FromBigEndian>::from_bytes(&BYTES[..8]), u64::from_be_bytes(BYTES[..8].try_into().unwrap()));
    assert_eq!(<u128 as FromBigEndian>::from_bytes(&BYTES), u128::from_be_bytes(BYTES));
    assert_eq!(<i8 as FromBigEndian>::from_bytes(&BYTES[8..9]), i8::from_be_bytes(BYTES[8..9].try_into().unwrap()));
    assert_eq!(<i16 as FromBigEndian>::from_bytes(&BYTES[8..10]), i16::from_be_bytes(BYTES[8..10].try_into().unwrap()));
    assert_eq!(<i32 as FromBigEndian>::from_bytes(&BYTES[8..12]), i32::from_be_bytes(BYTES[8..12].try_into().unwrap()));
    assert_eq!(<i64 as FromBigEndian>::from_bytes(&BYTES[8..]), i64::from_be_bytes(BYTES[8..].try_into().unwrap()));
    assert_eq!(<i128 as FromBigEndian>::from_bytes(&BYTES), i128::from_be_bytes(BYTES));
    let mut reversed = BYTES;
    reversed.reverse();
    assert_eq!(<i128 as FromBigEndian>::from_bytes(&reversed), i128::from_be_bytes(reversed));
    assert_eq!(
        <Float32 as FromBigEndian>::from_bytes(&BYTES[..4]).to_bits(),
        f32::from_be_bytes(BYTES[..4].try_into().unwrap()).to_bits()
    );
    assert_eq!(
        <Float64 as FromBigEndian>::from_bytes(&BYTES[..8]).to_bits(),
        f64::from_be_bytes(BYTES[..8].try_into().unwrap()).to_bits()
    );
}

#[test]
fn from_bytes_at_the_edges_of_each_type() {
    assert_eq!(<i8 as FromLittleEndian>::from_bytes(&[0x80]), i8::MIN);
    assert_eq!(<i8 as FromBigEndian>::from_bytes(&[0x7f]), i8::MAX);
    assert_eq!(<i16 as FromLittleEndian>::from_bytes(&[0x00, 0x80]), i16::MIN);
    assert_eq!(<i16 as FromBigEndian>::from_bytes(&[0xff, 0xff]), -1);
    assert_eq!(<i32 as FromLittleEndian>::from_bytes(&[0, 0, 0, 0x80]), i32::MIN);
    assert_eq!(<i32 as FromBigEndian>::from_bytes(&[0x7f, 0xff, 0xff, 0xff]), i32::MAX);
    assert_eq!(<i64 as FromLittleEndian>::from_bytes(&[0, 0, 0, 0, 0, 0, 0, 0x80]), i64::MIN);
    assert_eq!(<i64 as FromBigEndian>::from_bytes(&[0xff; 8]), -1);
    assert_eq!(<i128 as FromBigEndian>::from_bytes(&i128::MIN.to_be_bytes()), i128::MIN);
    assert_eq!(<i128 as FromLittleEndian>::from_bytes(&i128::MAX.to_le_bytes()), i128::MAX);
    assert_eq!(<i128 as FromLittleEndian>::from_bytes(&[0xff; 16]), -1);
    assert_eq!(<u128 as FromLittleEndian>::from_bytes(&[0xff; 16]), u128::MAX);
    assert_eq!(<u64 as FromBigEndian>::from_bytes(&[0xff; 8]), u64::MAX);
    assert_eq!(<u8 as FromBigEndian>::from_bytes(&[0]), 0);
}

#[test]
fn the_twelve_types_and_their_tags() {
    assert_eq!((i8::data_type(), <i8 as BitType>::width()), (DataType::I8, 1));
    assert_eq!((i16::data_type(), <i16 as BitType>::width()), (DataType::I16, 2));
    assert_eq!((i32::data_type(), <i32 as BitType>::width()), (DataType::I32, 4));
    assert_eq!((i64::data_type(), <i64 as BitType>::width()), (DataType::I64, 8));
    assert_eq!((i128::data_type(), <i128 as BitType>::width()), (DataType::I128, 16));
    assert_eq!((u8::data_type(), <u8 as BitType>::width()), (DataType::U8, 1));
    assert_eq!((u16::data_type(), <u16 as BitType>::width()), (DataType::U16, 2));
    assert_eq!((u32::data_type(), <u32 as BitType>::width()), (DataType::U32, 4));
    assert_eq!((u64::data_type(), <u64 as BitType>::width()), (DataType::U64, 8));
    assert_eq!((u128::data_type(), <u128 as BitType>::width()), (DataType::U128, 16));
    assert_eq!((Float32::data_type(), Float32::width()), (DataType::F32, 4));
    assert_eq!((Float64::data_type(), Float64::width()), (DataType::F64, 8));
}

#[test]
fn every_type_is_read_in_both_byte_orders() {
    let mut little: NativeProcessor<u32> = NativeProcessor::with_little_endian();
    let mut big: NativeProcessor<u32> = NativeProcessor::with_big_endian();
    assert_eq!(little.consume(&[1, 2, 3, 4]), Some(0x04030201));
    assert_eq!(big.consume(&[1, 2, 3, 4]), Some(0x01020304));

    let mut little: NativeProcessor<Float32> = NativeProcessor::with_little_endian();
    let mut big: NativeProcessor<Float32> = NativeProcessor::with_big_endian();
    assert_eq!(little.consume(&2.5f32.to_le_bytes()), Some(Float32::from_bits(2.5f32.to_bits())));
    assert_eq!(big.consume(&2.5f32.to_be_bytes()), Some(Float32::from_bits(2.5f32.to_bits())));

    let mut boxed: Box<dyn Processor<i16>> = Box::new(NativeProcessor::<i16>::new(Endianness::Big));
    assert_eq!(boxed.chunk_size(), Size(2));
    assert_eq!(boxed.consume(&[0xff, 0xfe]), Some(-2));
}

#[test]
fn the_le_and_be_helpers_read_up_to_sixteen_bytes() {
    assert_eq!(le_bytes_value(&[]), 0);
    assert_eq!(be_bytes_value(&[]), 0);
    assert_eq!(le_bytes_value(&[0x34, 0x12]), 0x1234);
    assert_eq!(be_bytes_value(&[0x12, 0x34, 0x56]), 0x123456);
    assert_eq!(le_bytes_value(&BYTES), u128::from_le_bytes(BYTES));
    assert_eq!(be_bytes_value(&BYTES), u128::from_be_bytes(BYTES));
}

#[test]
fn chunk_sizes() {
    assert_eq!(NativeProcessor::<i32>::with_big_endian().chunk_size().unwrap(), 4);
    assert_eq!(NativeProcessor::<Float32>::with_big_endian().chunk_size().unwrap(), 4);
    assert_eq!(NativeProcessor::<u32>::with_big_endian().chunk_size().unwrap(), 4);

    assert_eq!(NativeProcessor::<i64>::with_little_endian().chunk_size().unwrap(), 8);
    assert_eq!(NativeProcessor::<Float64>::with_little_endian().chunk_size().unwrap(), 8);
    assert_eq!(NativeProcessor::<u64>::with_little_endian().chunk_size().unwrap(), 8);
}
