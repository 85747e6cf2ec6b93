use compressed_collections::{compress, decompress, CacheLine, DecodeError};
use std::io::{Read, Write};

fn brotli_decode(stream: &[u8]) -> Vec<u8> {
    let mut out = Vec::new();
    brotli::Decompressor::new(stream, 4096).read_to_end(&mut out).unwrap();
    out
}

fn brotli_encode(data: &[u8]) -> Vec<u8> {
    let mut out = Vec::new();
    brotli::CompressorReader::new(data, 4096, 5, 22).read_to_end(&mut out).unwrap();
    out
}

#[test]
fn compress_then_decompress_gives_the_batch_back() {
    let batch: Vec<Vec<u8>> = vec![vec![1, 2, 3], vec![], vec![255; 300], vec![0]];
    for level in 0..=11 {
        let bytes = compress(&batch, level);
        assert_eq!(decompress(&bytes), Ok(batch.clone()));
    }
    let empty: Vec<Vec<u8>> = Vec::new();
    assert_eq!(decompress(&compress(&empty, 0)), Ok(empty));
}

#[test]
fn compress_writes_a_brotli_stream_of_the_postcard_list() {
    let batch: Vec<Vec<u8>> = vec![vec![1, 2], vec![]];
    let bytes = compress(&batch, 3);
    assert_eq!(brotli_decode(&bytes), vec![0x02, 0x02, 0x01, 0x02, 0x00]);
    assert_eq!(brotli_decode(&bytes), postcard::to_stdvec(&batch).unwrap());
    let long: Vec<Vec<u8>> = vec![vec![7; 5000]];
    let packed = compress(&long, 9);
    assert!(packed.len() < 200);
    assert_eq!(brotli_decode(&packed), postcard::to_stdvec(&long).unwrap());
}

#[test]
fn decompress_reads_what_other_encoders_wrote() {
    let batch: Vec<Vec<u8>> = vec![vec![9, 8, 7], vec![6]];
    let stream = brotli_encode(&postcard::to_stdvec(&batch).unwrap());
    assert_eq!(decompress(&stream), Ok(batch));
}

#[test]
fn decompress_rejects_what_is_no_batch() {
    assert_eq!(decompress(&[1, 2, 3, 4, 5, 6, 7, 8, 9]), Err(DecodeError::Malformed));
    assert_eq!(decompress(&[]), Err(DecodeError::Malformed));
    // a brotli stream whose content is no postcard list
    let stream = brotli_encode(&[0x03, 0x01]);
    assert_eq!(decompress(&stream), Err(DecodeError::Malformed));
    // a brotli stream that is cut short
    let whole = compress(&vec![vec![5u8; 40], vec![6u8; 40]], 0);
    assert_eq!(decompress(&whole[..whole.len() - 1]), Err(DecodeError::Malformed));
    // the uncompressed list itself is no stream
    let raw = postcard::to_stdvec(&vec![vec![1u8, 2], vec![3]]).unwrap();
    assert_eq!(decompress(&raw), Err(DecodeError::Malformed));
}

#[test]
fn a_line_has_the_length_of_a_chunk() {
    let three: Vec<Vec<u8>> = vec![vec![1], vec![2], vec![3]];
    let line = CacheLine::<3>::from_items(three.clone()).ok().unwrap();
    assert_eq!(line.get(0), &vec![1]);
    assert_eq!(line.get(2), &vec![3]);
    assert_eq!(
        CacheLine::<4>::from_items(three.clone()).err(),
        Some(DecodeError::InvalidLength { found: 3, expected: 4 })
    );
    assert_eq!(
        CacheLine::<2>::from_items(three.clone()).err(),
        Some(DecodeError::InvalidLength { found: 3, expected: 2 })
    );
    let chunk = compress(&three, 0);
    assert_eq!(CacheLine::<3>::deserialize(&chunk).ok().unwrap().get(1), &vec![2]);
    assert_eq!(
        CacheLine::<5>::deserialize(&chunk).err(),
        Some(DecodeError::InvalidLength { found: 3, expected: 5 })
    );
    assert_eq!(CacheLine::<3>::deserialize(&[0, 1, 2]).err(), Some(DecodeError::Malformed));
}

#[test]
fn brotli_recovers_what_it_compressed() {
    for data in [Vec::new(), vec![0u8], vec![1u8; 100_000], (0..=255u8).collect::<Vec<u8>>()] {
        for quality in [0, 1, 5, 11] {
            let params = brotli::enc::BrotliEncoderParams { quality, ..Default::default() };
            let mut writer = brotli::CompressorWriter::with_params(Vec::new(), 4096, &params);
            writer.write_all(&data).unwrap();
            writer.flush().unwrap();
            let stream = writer.into_inner();
            let mut input = &stream[..];
            let mut read = Vec::new();
            brotli::BrotliDecompress(&mut input, &mut read).unwrap();
            assert_eq!(read, data);
            assert_eq!(brotli_decode(&stream), data);
        }
    }
}

#[test]
fn decompress_reads_the_stream_at_the_front() {
    let batch: Vec<Vec<u8>> = vec![vec![1, 2, 3], vec![4]];
    let mut bytes = compress(&batch, 6);
    bytes.extend_from_slice(&[9, 9, 9]);
    assert_eq!(decompress(&bytes), Ok(batch));
}

#[test]
fn decompress_reads_long_streams_in_pieces() {
    // a stream much longer than one piece of input
    let mut state: u32 = 12345;
    let noise: Vec<u8> = (0..200_000)
        .map(|_| {
            state = state.wrapping_mul(1664525).wrapping_add(1013904223);
            (state >> 24) as u8
        })
        .collect();
    let batch: Vec<Vec<u8>> = vec![noise.clone(), noise];
    let bytes = compress(&batch, 0);
    assert!(bytes.len() > 100_000);
    assert_eq!(decompress(&bytes), Ok(batch));
}

#[test]
fn a_length_is_written_seven_bits_to_a_byte() {
    let batch: Vec<Vec<u8>> = vec![vec![5; 300]];
    let written = brotli_decode(&compress(&batch, 2));
    assert_eq!(written[..3], [0x01, 0xAC, 0x02]);
    assert_eq!(written.len(), 303);
    let many: Vec<Vec<u8>> = vec![Vec::new(); 128];
    let written = brotli_decode(&compress(&many, 2));
    assert_eq!(written[..2], [0x80, 0x01]);
    assert_eq!(written.len(), 130);
}
