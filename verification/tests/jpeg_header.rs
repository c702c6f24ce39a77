use paintcore::img::error::{ErrorKind, ImgError};
use paintcore::img::jpeg::decoder::{huffman_extend, BitReader};
use paintcore::img::jpeg::header::{HuffmanTable, JpegHaeder};

fn minimal_stream() -> Vec<u8> {
    let mut b = vec![0xff, 0xd8];
    // DQT: one 8-bit table of ones
    b.extend_from_slice(&[0xff, 0xdb, 0x00, 0x43, 0x00]);
    b.extend_from_slice(&[1u8; 64]);
    // SOF0: 8 bit, 16 lines, 8 samples, one component
    b.extend_from_slice(&[0xff, 0xc0, 0x00, 0x0b, 0x08, 0x00, 0x10, 0x00, 0x08, 0x01, 0x01, 0x11, 0x00]);
    // DHT: DC table 0 with one code of length 1 for value 0
    b.extend_from_slice(&[0xff, 0xc4, 0x00, 0x14, 0x00, 0x01]);
    b.extend_from_slice(&[0u8; 15]);
    b.push(0x00);
    // SOS: one component using tables 0/0
    b.extend_from_slice(&[0xff, 0xda, 0x00, 0x08, 0x01, 0x01, 0x00, 0x00, 0x3f, 0x00]);
    // scan data, EOI
    b.extend_from_slice(&[0x00, 0xff, 0xd9]);
    b
}

#[test]
fn header_reads_frame_tables_and_scan() {
    let data = minimal_stream();
    let header = JpegHaeder::new(&data, 0).unwrap();
    assert_eq!(header.width, 8);
    assert_eq!(header.height, 16);
    assert_eq!(header.bpp, 8);
    assert_eq!(header.imageoffset, 116);
    let frame = header.frame_header.as_ref().unwrap();
    assert!(frame.baseline);
    assert!(frame.huffman);
    assert_eq!(frame.component.as_ref().unwrap()[0].h, 1);
    let tables = header.huffman_tables.as_ref().unwrap();
    assert_eq!(tables.len(), 1);
    assert!(!tables[0].ac);
    assert_eq!(tables[0].len[0], 1);
    assert_eq!(tables[0].val, vec![0]);
    let q = header.quantization_tables.as_ref().unwrap();
    assert_eq!(q.len(), 1);
    assert_eq!(q[0].presision, 8);
    assert_eq!(q[0].q, vec![1; 64]);
    let scan = header.huffman_scan_header.as_ref().unwrap();
    assert_eq!(scan.ns, 1);
    assert_eq!(scan.csn, vec![1]);
    assert!(header.comment.is_none());
    assert!(header.jpeg_app_headers.is_none());
}

#[test]
fn header_reads_comments_and_restart_intervals() {
    let mut data = vec![0xff, 0xd8, 0xff, 0xfe, 0x00, 0x05, b'h', b'i', b'!'];
    data.extend_from_slice(&[0xff, 0xdd, 0x00, 0x04, 0x00, 0x20]);
    let header = JpegHaeder::new(&data, 0).unwrap();
    assert_eq!(header.comment.as_deref(), Some("hi!"));
    assert_eq!(header.interval, 0x20);
    assert!(header.frame_header.is_none());
    assert_eq!(header.width, 0);
}

#[test]
fn header_errors_follow_the_stream() {
    match JpegHaeder::new(&[0u8; 20], 0) {
        Err(ImgError::Custom(m)) => assert_eq!(m, "Not Jpeg"),
        _ => panic!("expected a refusal"),
    }
    match JpegHaeder::new(&[0xff, 0xd8, 0xff, 0xd9], 0) {
        Err(ImgError::SimpleAddMessage(ErrorKind::DecodeError, m)) => assert_eq!(m, "Unexpect EOI"),
        _ => panic!("expected an end of image error"),
    }
    match JpegHaeder::new(&[0x12], 0) {
        Err(ImgError::Simple(ErrorKind::OutboundIndex)) => {}
        _ => panic!("expected a read past the end"),
    }
    let bad_comment = [0xff, 0xd8, 0xff, 0xfe, 0x00, 0x03, 0xff];
    match JpegHaeder::new(&bad_comment, 0) {
        Err(ImgError::SimpleAddMessage(ErrorKind::IlligalData, m)) => {
            assert_eq!(m, "comment is not UTF-8")
        }
        _ => panic!("expected an invalid comment"),
    }
}

#[test]
fn stream_without_quantization_table_is_refused() {
    let data = minimal_stream();
    let mut without_dqt = data[..2].to_vec();
    without_dqt.extend_from_slice(&data[71..]);
    match JpegHaeder::new(&without_dqt, 0) {
        Err(ImgError::SimpleAddMessage(ErrorKind::IlligalData, m)) => {
            assert_eq!(m, "Maker is shortage")
        }
        _ => panic!("expected a shortage"),
    }
}

#[test]
fn bit_reader_reads_msb_first_and_unstuffs() {
    let mut reader = BitReader::new(&[0b1010_0000, 0xff, 0x00]);
    let bits: Vec<usize> = (0..4).map(|_| reader.get_bit().unwrap()).collect();
    assert_eq!(bits, vec![1, 0, 1, 0]);
    for _ in 0..4 {
        assert_eq!(reader.get_bit().unwrap(), 0);
    }
    for _ in 0..8 {
        assert_eq!(reader.get_bit().unwrap(), 1);
    }
    assert_eq!(reader.offset(), 3);
    assert!(reader.get_bit().is_err());
    assert!(reader.set_offset(3).is_err());
    assert_eq!(reader.set_offset(1).unwrap(), 1);
    reader.reset();
    assert_eq!(reader.offset(), 0);
    assert!(!reader.eof());
}

#[test]
fn bit_reader_checks_restart_marker_order() {
    let mut reader = BitReader::new(&[0xff, 0xd0, 0xff, 0xd2]);
    assert!(reader.get_bit().is_ok());
    let mut reader = BitReader::new(&[0xff, 0xd3]);
    match reader.get_bit() {
        Err(ImgError::SimpleAddMessage(ErrorKind::DecodeError, m)) => {
            assert_eq!(m, "No Interval RST 7 -> 3")
        }
        _ => panic!("expected an out of order restart"),
    }
}

#[test]
fn huffman_extend_splits_tables_by_class() {
    let mut len = vec![0usize; 16];
    len[0] = 1;
    let dc = HuffmanTable::new(false, 0, len.clone(), vec![0; 16], vec![0]);
    let ac = HuffmanTable::new(true, 0, len, vec![0; 16], vec![1]);
    let (ac_tables, dc_tables) = huffman_extend(&vec![dc, ac]);
    assert_eq!(ac_tables.len(), 1);
    assert_eq!(dc_tables.len(), 1);
}
