use base64::Engine as _;
use gitgui::term::kitty::{
    encode_delete_all, encode_delete_placement, encode_direct_payload, encode_direct_place, encode_query_probe,
    encode_shm_place, encode_shm_probe, FrameEncoder, Transport, DIRECT_CHUNK,
};

#[test]
fn query_probe_bytes() {
    let mut out = Vec::new();
    encode_query_probe(&mut out);
    assert_eq!(out, b"\x1b_Gi=31,s=1,v=1,a=q,t=d,f=24;AAAA\x1b\\");
}

#[test]
fn shm_probe_bytes() {
    let mut out = Vec::new();
    encode_shm_probe(&mut out, "/tg-1-1");
    // base64("/tg-1-1") = "L3RnLTEtMQ=="
    assert_eq!(out, b"\x1b_Gi=32,s=1,v=1,a=q,t=s,f=32;L3RnLTEtMQ==\x1b\\");
}

#[test]
fn shm_place_bytes() {
    let mut out = Vec::new();
    encode_shm_place(&mut out, 640, 480, 1, "/tg-1-1", 80, 24);
    assert_eq!(
        out,
        b"\x1b_Ga=T,t=s,f=32,s=640,v=480,c=80,r=24,i=1,p=1,C=1,q=2;L3RnLTEtMQ==\x1b\\"
    );
}

#[test]
fn delete_bytes() {
    let mut out = Vec::new();
    encode_delete_placement(&mut out, 2);
    assert_eq!(out, b"\x1b_Ga=d,d=i,i=2,p=2,q=2\x1b\\");
    out.clear();
    encode_delete_all(&mut out);
    assert_eq!(out, b"\x1b_Ga=d,d=A,q=2\x1b\\");
}

fn split_apcs(bytes: &[u8]) -> Vec<Vec<u8>> {
    let mut seqs = Vec::new();
    let mut i = 0;
    while i + 3 <= bytes.len() {
        if &bytes[i..i + 3] == b"\x1b_G" {
            let end = bytes[i..].windows(2).position(|w| w == b"\x1b\\").unwrap() + i;
            seqs.push(bytes[i + 3..end].to_vec());
            i = end + 2;
        } else {
            i += 1;
        }
    }
    seqs
}

fn inflate(z: &[u8]) -> Vec<u8> {
    let mut dec = flate2::read::ZlibDecoder::new(z);
    let mut back = Vec::new();
    std::io::Read::read_to_end(&mut dec, &mut back).unwrap();
    back
}

#[test]
fn direct_single_chunk() {
    // 2x2 solid image compresses to a handful of bytes: one chunk, m=0.
    let rgba = [200u8, 100, 50, 255].repeat(4);
    let mut out = Vec::new();
    encode_direct_place(&mut out, 2, 2, 1, &rgba, 1, 1);
    let seqs = split_apcs(&out);
    assert_eq!(seqs.len(), 1);
    let s = String::from_utf8(seqs[0].clone()).unwrap();
    let (ctl, payload) = s.split_once(';').unwrap();
    assert_eq!(ctl, "a=T,t=d,o=z,f=32,s=2,v=2,c=1,r=1,i=1,p=1,C=1,q=2,m=0");
    let z = base64::engine::general_purpose::STANDARD
        .decode(payload)
        .unwrap();
    assert_eq!(inflate(&z), rgba);
}

#[test]
fn direct_multi_chunk() {
    // Incompressible noise so the base64 payload exceeds one chunk.
    let mut x: u32 = 0x1234_5678;
    let n = 64 * 64;
    let mut rgba = Vec::with_capacity(n * 4);
    for _ in 0..n * 4 {
        x ^= x << 13;
        x ^= x >> 17;
        x ^= x << 5;
        rgba.push((x & 0xff) as u8);
    }
    let mut out = Vec::new();
    encode_direct_place(&mut out, 64, 64, 2, &rgba, 8, 4);
    let seqs = split_apcs(&out);
    assert!(
        seqs.len() >= 2,
        "expected several chunks, got {}",
        seqs.len()
    );
    let first = String::from_utf8(seqs[0].clone()).unwrap();
    assert!(first.starts_with("a=T,t=d,o=z,f=32,s=64,v=64,c=8,r=4,i=2,p=2,C=1,q=2,m=1;"));
    let mut payload = String::new();
    for (i, s) in seqs.iter().enumerate() {
        let s = String::from_utf8(s.clone()).unwrap();
        let (ctl, chunk) = s.split_once(';').unwrap();
        assert!(chunk.len() <= DIRECT_CHUNK);
        if i > 0 {
            let want = if i + 1 == seqs.len() { "m=0" } else { "m=1" };
            assert_eq!(ctl, want);
        }
        payload.push_str(chunk);
    }
    let z = base64::engine::general_purpose::STANDARD
        .decode(payload)
        .unwrap();
    assert_eq!(inflate(&z), rgba);
}

#[test]
fn frame_sequence_shm() {
    let mut enc = FrameEncoder::new(Transport::Shm, 7);
    let mut out = Vec::new();
    enc.encode_frame(&mut out, 8, 4, 2, 1, &[], Some("/tg-7-1"));
    // base64("/tg-7-1") = "L3RnLTctMQ=="
    assert_eq!(
        out,
        b"\x1b[?2026h\x1b[1;1H\x1b_Ga=T,t=s,f=32,s=8,v=4,c=2,r=1,i=1,p=1,C=1,q=2;L3RnLTctMQ==\x1b\\\x1b[?2026l"
    );
    out.clear();
    enc.encode_frame(&mut out, 8, 4, 2, 1, &[], Some("/tg-7-2"));
    assert_eq!(
        out,
        b"\x1b[?2026h\x1b[1;1H\x1b_Ga=T,t=s,f=32,s=8,v=4,c=2,r=1,i=2,p=2,C=1,q=2;L3RnLTctMg==\x1b\\\x1b_Ga=d,d=i,i=1,p=1,q=2\x1b\\\x1b[?2026l"
    );
    out.clear();
    enc.encode_frame(&mut out, 8, 4, 2, 1, &[], Some("/tg-7-3"));
    assert!(out.windows(7).any(|w| w == b"i=1,p=1"));
    assert!(out.ends_with(b"\x1b_Ga=d,d=i,i=2,p=2,q=2\x1b\\\x1b[?2026l"));
}

#[test]
fn frame_sequence_reset_skips_delete() {
    let mut enc = FrameEncoder::new(Transport::Shm, 7);
    let mut out = Vec::new();
    enc.encode_frame(&mut out, 1, 1, 1, 1, &[], Some("/a"));
    enc.reset();
    out.clear();
    enc.encode_frame(&mut out, 1, 1, 1, 1, &[], Some("/a"));
    assert!(!out.windows(5).any(|w| w == b"a=d,d"));
}

#[test]
fn shm_name_length() {
    let mut enc = FrameEncoder::new(Transport::Shm, u32::MAX);
    for _ in 0..5 {
        assert!(enc.next_shm_name().len() <= 31);
    }
}

#[test]
fn shm_names_count_up() {
    let mut enc = FrameEncoder::new(Transport::Shm, 42);
    assert_eq!(enc.next_shm_name(), "/tg-42-1");
    assert_eq!(enc.next_shm_name(), "/tg-42-2");
}

#[test]
fn direct_frame_wraps_inline_place() {
    let mut enc = FrameEncoder::new(Transport::Direct, 1);
    let rgba = [1u8, 2, 3, 4];
    let mut out = Vec::new();
    enc.encode_frame(&mut out, 1, 1, 1, 1, &rgba, None);
    assert!(out.starts_with(b"\x1b[?2026h\x1b[1;1H\x1b_Ga=T,t=d,o=z,f=32,s=1,v=1,c=1,r=1,i=1,p=1,C=1,q=2,m=0;"));
    assert!(out.ends_with(b"\x1b\\\x1b[?2026l"));
}

#[test]
fn direct_payload_is_base64_in_chunks() {
    let mut out = Vec::new();
    encode_direct_payload(&mut out, 3, 4, 7, b"abc", 2, 1);
    assert_eq!(out, b"\x1b_Ga=T,t=d,o=z,f=32,s=3,v=4,c=2,r=1,i=7,p=7,C=1,q=2,m=0;YWJj\x1b\\".to_vec());
    // 3072 bytes make exactly 4096 base64 characters: one full chunk.
    let mut out = Vec::new();
    encode_direct_payload(&mut out, 1, 1, 2, &vec![0u8; 3072], 1, 1);
    assert_eq!(split_apcs(&out).len(), 1);
    // One byte more spills into a second chunk.
    let mut out = Vec::new();
    encode_direct_payload(&mut out, 1, 1, 2, &vec![0u8; 3073], 1, 1);
    let seqs = split_apcs(&out);
    assert_eq!(seqs.len(), 2);
    assert!(seqs[1].starts_with(b"m=0;"));
}
