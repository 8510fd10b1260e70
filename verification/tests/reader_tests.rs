use commp::padreader::{base2_padded, padded};
use commp::stuffreader::BitStuffingReader;

fn drain(read: &mut dyn FnMut(&mut Vec<u8>) -> usize, chunk: usize) -> Vec<u8> {
    let mut out: Vec<u8> = Vec::new();
    let mut buf = vec![0u8; chunk];
    loop {
        let n = read(&mut buf);
        if n == 0 {
            break;
        }
        out.extend_from_slice(&buf[..n]);
    }
    out
}

#[test]
fn zero_pad_reader_serves_source_then_zeros() {
    // 65 declared bytes pad to 127; bytes past the declared size are ignored
    let mut data: Vec<u8> = Vec::new();
    let mut i: usize = 0;
    while i < 70 {
        data.push((i + 1) as u8);
        i += 1;
    }
    let mut r = padded(data, 65);
    let out = drain(&mut |buf| r.read(buf), 10);
    assert_eq!(out.len(), 127);
    let mut k: usize = 0;
    while k < 127 {
        if k < 65 {
            assert_eq!(out[k], (k + 1) as u8);
        } else {
            assert_eq!(out[k], 0);
        }
        k += 1;
    }
    // the stream is exhausted: further reads serve nothing
    let mut buf = vec![9u8; 4];
    assert_eq!(r.read(&mut buf), 0);
}

#[test]
fn base2_padded_matches_padded() {
    let data = vec![5u8; 100];
    let mut a = padded(data.clone(), 100);
    let mut b = base2_padded(data, 100);
    let out_a = drain(&mut |buf| a.read(buf), 7);
    let out_b = drain(&mut |buf| b.read(buf), 13);
    assert_eq!(out_a, out_b);
    assert_eq!(out_a.len(), 127);
}

#[test]
fn bit_stuffing_known_pattern_with_unaligned_buffers() {
    // 127 bytes of ones stuff to 128 bytes: per 32-byte window, 31 full bytes
    // and a final 0x3f carrying the two stuffed zero bits on top
    let data = vec![0xffu8; 127];
    let mut r = BitStuffingReader::new(padded(data, 127));
    let out = drain(&mut |buf| r.read(buf), 5);
    assert_eq!(out.len(), 128);
    let mut w: usize = 0;
    while w < 4 {
        let mut i: usize = 0;
        while i < 31 {
            assert_eq!(out[32 * w + i], 0xff);
            i += 1;
        }
        assert_eq!(out[32 * w + 31], 0x3f);
        w += 1;
    }
}

#[test]
fn bit_stuffing_moves_group_boundary_bits_to_next_window() {
    let mut data = vec![0u8; 127];
    data[0] = 0b1000_0000;
    // bits 254 and 255 of the input stream: the first two bits after the
    // first 254-bit group
    data[31] = 0b1100_0000;
    let mut r = BitStuffingReader::new(padded(data, 127));
    let mut buf = vec![0u8; 128];
    let n = r.read(&mut buf);
    assert_eq!(n, 128);
    assert_eq!(buf[0], 0b1000_0000);
    // the first window's last byte holds input bits 248..253, all zero here
    assert_eq!(buf[31], 0);
    // input bits 254 and 255 open the second window
    assert_eq!(buf[32], 0b0000_0011);
    let mut k: usize = 33;
    while k < 128 {
        assert_eq!(buf[k], 0);
        k += 1;
    }
}

#[test]
fn bit_stuffing_zero_input_stays_zero() {
    let data = vec![0u8; 200];
    let mut r = BitStuffingReader::new(padded(data, 200));
    let out = drain(&mut |buf| r.read(buf), 33);
    // 200 bytes pad to 254 and stuff to 256
    assert_eq!(out.len(), 256);
    let mut k: usize = 0;
    while k < 256 {
        assert_eq!(out[k], 0);
        k += 1;
    }
}
