use shader_core::dft_index_of_frequency;
use shader_core::spv::read_spv;
use shader_core::spv::swap_u32;
use shader_core::spv::SpvError;
use shader_core::spv::SPIRV_MAGIC;

#[test]
fn swap_reverses_bytes() {
    assert_eq!(swap_u32(0x0723_0203), 0x0302_2307);
    assert_eq!(swap_u32(0x0302_2307), SPIRV_MAGIC);
    assert_eq!(swap_u32(0x0000_00FF), 0xFF00_0000);
}

#[test]
fn read_spv_little_endian() {
    let mut bytes = vec![];
    bytes.extend_from_slice(&SPIRV_MAGIC.to_le_bytes());
    bytes.extend_from_slice(&0x0001_0000u32.to_le_bytes());
    bytes.extend_from_slice(&0xDEAD_BEEFu32.to_le_bytes());
    let words = read_spv(&bytes).unwrap();
    assert_eq!(words, vec![SPIRV_MAGIC, 0x0001_0000, 0xDEAD_BEEF]);
}

#[test]
fn read_spv_swapped_endianness() {
    let mut bytes = vec![];
    bytes.extend_from_slice(&SPIRV_MAGIC.to_be_bytes());
    bytes.extend_from_slice(&0x0001_0000u32.to_be_bytes());
    let words = read_spv(&bytes).unwrap();
    assert_eq!(words, vec![SPIRV_MAGIC, 0x0001_0000]);
}

#[test]
fn read_spv_misaligned_length() {
    let bytes = vec![0x03, 0x02, 0x23];
    assert_eq!(read_spv(&bytes), Err(SpvError::LengthNotWordAligned));
}

#[test]
fn read_spv_empty() {
    assert_eq!(read_spv(&[]), Err(SpvError::MissingMagicNumber));
}

#[test]
fn read_spv_wrong_magic() {
    let bytes = 0x1234_5678u32.to_le_bytes();
    assert_eq!(read_spv(&bytes), Err(SpvError::MissingMagicNumber));
}

#[test]
fn dft_index_rounds_to_nearest_bin() {
    // index = round(frequency * dft_size / sample_rate), half upward.
    assert_eq!(dft_index_of_frequency(0, 44100, 1024), 0);
    assert_eq!(dft_index_of_frequency(43, 44100, 1024), 1);
    assert_eq!(dft_index_of_frequency(86, 44100, 1024), 2);
    assert_eq!(dft_index_of_frequency(35, 44100, 2048), 2);
    assert_eq!(dft_index_of_frequency(125, 44100, 2048), 6);
    assert_eq!(dft_index_of_frequency(22050, 44100, 1024), 512);
}
