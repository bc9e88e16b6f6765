use atrac3_rs::bitstream::{BitReader, BitWriter};
use atrac3_rs::error::Atrac3Error;

#[test]
fn writes_msb_first() {
    let mut writer = BitWriter::new();
    writer.write_bits(0b101, 3).unwrap();
    writer.write_bits(0b11, 2).unwrap();
    writer.byte_align_zero();

    assert_eq!(writer.bit_len(), 8);
    assert_eq!(writer.as_bytes(), &[0b1011_1000]);
}

#[test]
fn writes_signed_twos_complement() {
    let mut writer = BitWriter::new();
    writer.write_signed(-1, 4).unwrap();
    writer.write_signed(-4, 4).unwrap();
    writer.byte_align_zero();

    assert_eq!(writer.as_bytes(), &[0b1111_1100]);
}

#[test]
fn reads_msb_first() {
    let bytes = [0b1011_1000, 0b0110_0000];
    let mut reader = BitReader::new(&bytes);
    assert_eq!(reader.read_bits(3).unwrap(), 0b101);
    assert_eq!(reader.read_bits(5).unwrap(), 0b11000);
    assert_eq!(reader.read_bits(4).unwrap(), 0b0110);
}

#[test]
fn written_value_reads_back_modulo_its_width() {
    let mut writer = BitWriter::new();
    writer.write_bits(0x1ff, 5).unwrap();
    writer.write_bits(0xdead_beef, 32).unwrap();
    writer.write_bits(3, 0).unwrap();
    let bytes = writer.into_bytes();
    let mut reader = BitReader::new(&bytes);
    assert_eq!(reader.read_bits(5).unwrap(), 0x1f);
    assert_eq!(reader.read_bits(32).unwrap(), 0xdead_beef);
    assert_eq!(reader.bit_pos(), 37);
}

#[test]
fn signed_values_read_back_as_twos_complement() {
    let mut writer = BitWriter::new();
    writer.write_signed(-3, 3).unwrap();
    writer.write_signed(2, 3).unwrap();
    writer.write_signed(i32::MIN, 32).unwrap();
    let bytes = writer.into_bytes();
    let mut reader = BitReader::new(&bytes);
    assert_eq!(reader.read_bits(3).unwrap(), 0b101);
    assert_eq!(reader.read_bits(3).unwrap(), 0b010);
    assert_eq!(reader.read_bits(32).unwrap(), 0x8000_0000);
}

#[test]
fn refuses_widths_over_32() {
    let mut writer = BitWriter::new();
    assert_eq!(writer.write_bits(1, 33), Err(Atrac3Error::BitWidthTooLarge { bits: 33 }));
    assert_eq!(writer.bit_len(), 0);
    assert_eq!(
        writer.write_signed(1, 0),
        Err(Atrac3Error::SignedBitWidthOutOfRange { bits: 0 })
    );
    assert_eq!(
        writer.write_signed(1, 33),
        Err(Atrac3Error::SignedBitWidthOutOfRange { bits: 33 })
    );
    let bytes = [0u8];
    let mut reader = BitReader::new(&bytes);
    assert_eq!(reader.read_bits(33), Err(Atrac3Error::BitWidthTooLarge { bits: 33 }));
}

#[test]
fn reader_reports_running_out() {
    let bytes = [0xffu8];
    let mut reader = BitReader::new(&bytes);
    assert_eq!(
        reader.read_bits(9),
        Err(Atrac3Error::NotEnoughBits { requested: 9, remaining: 8 })
    );
    assert_eq!(reader.bit_pos(), 0);
    reader.skip_bits(7).unwrap();
    assert_eq!(reader.bits_remaining(), 1);
    assert_eq!(reader.read_bit(), Ok(true));
    assert_eq!(reader.read_bit(), Err(Atrac3Error::UnexpectedEndOfBitstream));
    assert_eq!(
        reader.skip_bits(1),
        Err(Atrac3Error::SkipPastEnd { requested: 1, remaining: 0 })
    );
}

#[test]
fn byte_align_pads_with_zero_bits() {
    let mut writer = BitWriter::with_capacity(4);
    writer.write_bit(true);
    writer.byte_align_zero();
    assert_eq!(writer.bit_len(), 8);
    assert_eq!(writer.byte_len(), 1);
    writer.byte_align_zero();
    assert_eq!(writer.bit_len(), 8);
    assert_eq!(writer.as_bytes(), &[0x80]);
}
