use xpt_reader::ibm::decode_ibm;
use xpt_reader::model::{Marker, ParseError, Value, VarKind};
use xpt_reader::reader::{RecordReader, RECORD_LEN};
use xpt_reader::xpt::parse_xpt;

fn record(text: &[u8]) -> Vec<u8> {
    let mut r = text.to_vec();
    assert!(r.len() <= 80);
    r.resize(80, b' ');
    r
}

fn marker_record(word: &str, tail: &str) -> Vec<u8> {
    let mut t = b"HEADER RECORD*******".to_vec();
    t.extend_from_slice(word.as_bytes());
    t.extend_from_slice(b"HEADER RECORD!!!!!!!");
    t.extend_from_slice(tail.as_bytes());
    record(&t)
}

fn padded(s: &str, n: usize) -> Vec<u8> {
    let mut v = s.as_bytes().to_vec();
    v.resize(n, b' ');
    v
}

fn namestr(code: u16, name: &str, len: u16, number: u16) -> Vec<u8> {
    let mut n = Vec::new();
    n.extend_from_slice(&code.to_be_bytes());
    n.extend_from_slice(&0u16.to_be_bytes());
    n.extend_from_slice(&len.to_be_bytes());
    n.extend_from_slice(&number.to_be_bytes());
    n.extend_from_slice(&padded(name, 8));
    n.extend_from_slice(&padded("", 40));
    n.resize(140, 0);
    n
}

fn headers(count: &str, label: &str) -> Vec<u8> {
    let mut f = Vec::new();
    f.extend(marker_record("LIBRARY ", "000000000000000000000000000000"));
    f.extend(record(b"SAS     SAS     SASLIB  9.4     X64_7PRO                        01JAN20:00:00:00"));
    f.extend(record(b"01JAN20:00:00:00"));
    f.extend(marker_record("MEMBER  ", "000000000000000001600000000140"));
    f.extend(marker_record("DSCRPTR ", "000000000000000000000000000000"));
    let mut member = b"SAS     ".to_vec();
    member.extend(padded("DEMO", 8));
    member.extend(b"SASDATA 9.4     X64_7PRO");
    f.extend(record(&member));
    let mut second = padded("01JAN20:00:00:00", 32);
    second.extend(padded(label, 40));
    f.extend(record(&second));
    f.extend(marker_record("NAMESTR ", &format!("000000{}00000000000000000000", count)));
    f
}

fn build(vars: &[(u16, &str, u16)], observations: &[Vec<u8>]) -> Vec<u8> {
    let mut f = headers(&format!("{:04}", vars.len()), "Demo data");
    for (i, (code, name, len)) in vars.iter().enumerate() {
        f.extend(namestr(*code, name, *len, i as u16 + 1));
    }
    while f.len() % 80 != 0 {
        f.push(b' ');
    }
    f.extend(marker_record("OBS     ", "000000000000000000000000000000"));
    for o in observations {
        f.extend_from_slice(o);
    }
    f
}

fn ibm_bytes(x: f64) -> [u8; 8] {
    if x == 0.0 {
        return [0; 8];
    }
    let bits = x.to_bits();
    let sign = (bits >> 63) as u8;
    let exp2 = ((bits >> 52) & 0x7ff) as i64 - 1023;
    let mant = (bits & ((1u64 << 52) - 1)) | (1u64 << 52);
    let t = exp2 - 52;
    let s = t.rem_euclid(4);
    let q = t.div_euclid(4);
    let f = mant << s;
    let e = (q + 78) as u8;
    let mut out = [0u8; 8];
    out[0] = (sign << 7) | e;
    for i in 1..8 {
        out[i] = (f >> (8 * (7 - i))) as u8;
    }
    out
}

fn observation(x: f64, text: &str) -> Vec<u8> {
    let mut o = ibm_bytes(x).to_vec();
    o.extend(padded(text, 8));
    o
}

#[test]
fn zero_decodes_to_zero() {
    assert_eq!(decode_ibm(&[0u8; 8]), 0.0f64.to_bits());
    assert_eq!(decode_ibm(&[0x80, 0, 0, 0, 0, 0, 0, 0]), 0.0f64.to_bits());
}

#[test]
fn canonical_one() {
    assert_eq!(decode_ibm(&[0x41, 0x10, 0, 0, 0, 0, 0, 0]), 1.0f64.to_bits());
}

#[test]
fn known_values() {
    assert_eq!(decode_ibm(&[0xC1, 0x10, 0, 0, 0, 0, 0, 0]), (-1.0f64).to_bits());
    assert_eq!(decode_ibm(&[0x42, 0x64, 0, 0, 0, 0, 0, 0]), 100.0f64.to_bits());
    assert_eq!(decode_ibm(&[0x40, 0x80, 0, 0, 0, 0, 0, 0]), 0.5f64.to_bits());
    assert_eq!(decode_ibm(&ibm_bytes(0.1)), 0.1f64.to_bits());
}

#[test]
fn rounding_to_nearest_even() {
    // 2^53 + 1 needs 54 bits: it rounds down to the even 2^53.
    let f: u64 = (1u64 << 53) + 1;
    let mut b = [0u8; 8];
    b[0] = 0x4E;
    for i in 1..8 {
        b[i] = (f >> (8 * (7 - i))) as u8;
    }
    assert_eq!(decode_ibm(&b), ((1u64 << 53) as f64).to_bits());
}

#[test]
fn empty_buffer_is_empty_input() {
    assert_eq!(parse_xpt(&[]).unwrap_err(), ParseError::EmptyInput);
}

#[test]
fn foreign_buffer_is_malformed_library_header() {
    let inputs: Vec<Vec<u8>> = vec![b"x".to_vec(), b"HEADER".to_vec(), vec![0u8; 200], padded("name,age\n1,2", 400)];
    for i in inputs {
        assert_eq!(parse_xpt(&i).unwrap_err(), ParseError::MalformedHeader(Marker::Library));
    }
}

#[test]
fn round_trip_numeric_and_character() {
    let xs = [1.0, -2.5, 0.1, 123456.789, 1e-30, 6.02e23];
    let obs: Vec<Vec<u8>> = xs.iter().enumerate().map(|(i, x)| observation(*x, &format!("v{}", i))).collect();
    let file = build(&[(1, "AGE", 8), (2, "NAME", 8)], &obs);
    let d = parse_xpt(&file).unwrap();
    assert_eq!(d.title, b"Demo data".to_vec());
    assert_eq!(d.variables.len(), 2);
    assert_eq!(d.variables[0].name, b"AGE".to_vec());
    assert_eq!(d.variables[0].kind, VarKind::Numeric);
    assert_eq!(d.variables[0].offset, 0);
    assert_eq!(d.variables[1].name, b"NAME".to_vec());
    assert_eq!(d.variables[1].kind, VarKind::Character);
    assert_eq!(d.variables[1].offset, 8);
    assert_eq!(d.rows.len(), xs.len());
    for (i, x) in xs.iter().enumerate() {
        match &d.rows[i].values[0] {
            Value::Number(b) => assert_eq!(f64::from_bits(*b).to_bits(), x.to_bits()),
            other => panic!("unexpected {:?}", other),
        }
        match &d.rows[i].values[1] {
            Value::Text(t) => assert_eq!(t, &format!("v{}", i).into_bytes()),
            other => panic!("unexpected {:?}", other),
        }
    }
}

#[test]
fn missing_sentinels_decode_to_missing() {
    let mut obs = Vec::new();
    for first in [b'.', b'_', b'A', b'Z'] {
        let mut o = vec![first, 0, 0, 0, 0, 0, 0, 0];
        o.extend(padded("", 8));
        obs.push(o);
    }
    let file = build(&[(1, "X", 8), (2, "C", 8)], &obs);
    let d = parse_xpt(&file).unwrap();
    assert_eq!(d.rows.len(), 4);
    for r in &d.rows {
        assert!(matches!(r.values[0], Value::Missing));
        assert!(matches!(&r.values[1], Value::Text(t) if t.is_empty()));
    }
}

#[test]
fn short_numeric_is_zero_extended() {
    let file = build(&[(1, "X", 3)], &[vec![0x41, 0x10, 0x00]]);
    let d = parse_xpt(&file).unwrap();
    assert!(matches!(d.rows[0].values[0], Value::Number(b) if b == 1.0f64.to_bits()));
}

#[test]
fn zero_variables_is_no_variables() {
    let mut f = headers("0000", "");
    f.extend(marker_record("OBS     ", "000000000000000000000000000000"));
    assert_eq!(parse_xpt(&f).unwrap_err(), ParseError::NoVariables);
}

#[test]
fn no_observations_is_no_rows() {
    let file = build(&[(1, "X", 8)], &[]);
    assert_eq!(parse_xpt(&file).unwrap_err(), ParseError::NoRows);
}

#[test]
fn tail_shorter_than_an_observation_is_ignored() {
    let mut obs = vec![observation(1.0, "a"), observation(2.0, "b")];
    obs.push(vec![0x41; 15]);
    let file = build(&[(1, "X", 8), (2, "C", 8)], &obs);
    assert_eq!(parse_xpt(&file).unwrap().rows.len(), 2);
}

#[test]
fn bad_type_code_is_unsupported() {
    let file = build(&[(1, "X", 8), (3, "Y", 8)], &[vec![0u8; 16]]);
    assert_eq!(parse_xpt(&file).unwrap_err(), ParseError::UnsupportedType);
}

#[test]
fn bad_lengths_are_malformed_descriptors() {
    for (code, len) in [(1u16, 9u16), (1, 0), (2, 201)] {
        let file = build(&[(code, "X", len)], &[vec![0u8; 16]]);
        assert_eq!(parse_xpt(&file).unwrap_err(), ParseError::MalformedHeader(Marker::VariableDescriptor));
    }
    let file = build(&[(1, "", 8)], &[vec![0u8; 8]]);
    assert_eq!(parse_xpt(&file).unwrap_err(), ParseError::MalformedHeader(Marker::VariableDescriptor));
}

#[test]
fn truncated_files_are_truncated() {
    let file = build(&[(1, "X", 8)], &[vec![0u8; 8]]);
    for cut in [60usize, 100, 300, 500, 600, 700] {
        assert_eq!(parse_xpt(&file[..cut]).unwrap_err(), ParseError::Truncated, "cut at {}", cut);
    }
}

#[test]
fn wrong_markers_are_named() {
    let good = build(&[(1, "X", 8)], &[vec![0u8; 8]]);
    let cases = [
        (80usize, Marker::FirstHeader),
        (240, Marker::Member),
        (320, Marker::Descriptor),
        (400, Marker::MemberData),
        (560, Marker::Namestr),
        (614, Marker::Namestr),
        (800, Marker::Observation),
    ];
    for (pos, m) in cases {
        let mut f = good.clone();
        f[pos] = b'#';
        assert_eq!(parse_xpt(&f).unwrap_err(), ParseError::MalformedHeader(m));
    }
}

#[test]
fn blank_label_falls_back_to_dataset_name() {
    let mut f = headers("0001", "");
    f.extend(namestr(1, "X", 8, 1));
    while f.len() % 80 != 0 {
        f.push(b' ');
    }
    f.extend(marker_record("OBS     ", "000000000000000000000000000000"));
    f.extend(ibm_bytes(3.0));
    let d = parse_xpt(&f).unwrap();
    assert_eq!(d.title, b"DEMO".to_vec());
    assert_eq!(d.variable_names(), vec![b"X".to_vec()]);
}

#[test]
fn reader_takes_records_until_exhausted() {
    let data = vec![7u8; 170];
    let mut r = RecordReader::new(&data);
    assert!(r.peek_matches(&[7, 7]));
    assert_eq!(r.next(RECORD_LEN).unwrap().len(), 80);
    assert_eq!(r.next(RECORD_LEN).unwrap().len(), 80);
    assert!(!r.peek_matches(&[7]));
    assert!(r.next(RECORD_LEN).is_err());
    assert_eq!(r.next(10).unwrap(), &[7u8; 10][..]);
}
