use touchstone::arrays::{square, Matrix, RawComplex, Samples, Tensor};
use touchstone::frequency::{FreqUnit, Frequency};
use touchstone::network::Network;
use touchstone::number::{recognise, Number};
use touchstone::options::{parse_options_line, ParamFormat, ParamType, TouchstoneOptions};
use touchstone::parser::{read_numbers, starts_record, Phase, TouchstoneParser, TouchstoneVersion};
use touchstone::result::{ErrorKind, ParseError};
use touchstone::text::{
    blank, byte_in_class, find_last, has_prefix, lowercase, parse_count, parse_digits, scan,
    split_tokens, to_lower, trimmed, ByteClass,
};
use touchstone::touchstone::rank_from_name;

fn as_float(n: &Number) -> f64 {
    std::str::from_utf8(n.as_bytes()).unwrap().parse::<f64>().unwrap()
}

fn number(text: &str) -> Number {
    Number::parse(text.as_bytes()).unwrap()
}

fn pair(re: &str, im: &str) -> RawComplex {
    RawComplex { re: number(re), im: number(im) }
}

fn floats_of(e: &RawComplex) -> (f64, f64) {
    (as_float(&e.re), as_float(&e.im))
}

#[test]
fn network_test_instantiation() {
    let freq = Frequency::from_samples(vec![number("1e9"), number("2e9"), number("3e9")]).unwrap();
    let s = Tensor::from_values(1, 1, 3, vec![pair("1", "0"), pair("1", "0"), pair("1", "0")])
        .unwrap();
    let z0 = Matrix::filled(1, 3, pair("1", "0")).unwrap();
    let net = Network::new(freq, s, z0);
    assert_eq!(net.f.len(), 3);
    assert_eq!(as_float(&net.f.start), 1e9);
    assert_eq!(as_float(&net.f.stop), 3e9);
    assert_eq!(net.s.dim(), (1, 1, 3));
    assert_eq!(net.z0.dim(), (1, 3));
    assert_eq!(floats_of(net.s.get(0, 0, 2).unwrap()), (1.0, 0.0));
    assert_eq!(floats_of(net.z0.get(0, 2).unwrap()), (1.0, 0.0));
}

#[test]
fn network_from_a_file() {
    let net = Network::from_snp(b"a.s1p", b"# MHz S RI R 75\n1 2 3\n4 5 6\n").unwrap();
    assert_eq!(net.f.len(), 2);
    assert_eq!(as_float(net.f.sample(0).unwrap()), 1.0);
    assert_eq!(as_float(net.f.sample(1).unwrap()), 4.0);
    assert!(net.f.sample(2).is_none());
    assert_eq!(as_float(&net.f.start), 1.0);
    assert_eq!(as_float(&net.f.stop), 4.0);
    assert_eq!(net.s.dim(), (2, 1, 1));
    assert_eq!(floats_of(net.s.get(1, 0, 0).unwrap()), (5.0, 6.0));
    assert_eq!(net.z0.dim(), (1, 2));
    assert_eq!(floats_of(net.z0.get(0, 0).unwrap()), (75.0, 0.0));
    assert_eq!(floats_of(net.z0.get(0, 1).unwrap()), (75.0, 0.0));
    assert!(net.z0.get(1, 0).is_none());
    assert!(net.z0.get(0, 2).is_none());
}

#[test]
fn network_of_a_file_without_frequencies_fails() {
    assert_eq!(Network::from_snp(b"a.s1p", b"# MHz\n").unwrap_err().kind, ErrorKind::EmptySeries);
    assert_eq!(Network::from_snp(b"a.ts", b"").unwrap_err().kind, ErrorKind::NotImplemented);
}

#[test]
fn series_from_samples() {
    let f = Frequency::from_samples(vec![number("20"), number("4"), number("10")]).unwrap();
    assert_eq!(f.len(), 3);
    assert_eq!(f.npoints, 3);
    assert_eq!(as_float(&f.start), 20.0);
    assert_eq!(as_float(&f.stop), 10.0);
    assert_eq!(as_float(f.sample(1).unwrap()), 4.0);
    assert_eq!(f.f.len(), 3);
    let one = Frequency::from_samples(vec![number("7.5")]).unwrap();
    assert_eq!(as_float(&one.start), 7.5);
    assert_eq!(as_float(&one.stop), 7.5);
    assert_eq!(Frequency::from_samples(Vec::new()).unwrap_err().kind, ErrorKind::EmptySeries);
}

#[test]
fn samples_keep_their_order() {
    let s = Samples::from_numbers(vec![number("3"), number("1"), number("2")]);
    assert_eq!(s.len(), 3);
    assert_eq!(as_float(s.get(0).unwrap()), 3.0);
    assert_eq!(as_float(s.get(1).unwrap()), 1.0);
    assert_eq!(as_float(s.get(2).unwrap()), 2.0);
    assert!(s.get(3).is_none());
}

#[test]
fn tensor_is_row_major() {
    let mut values = Vec::new();
    for n in 0..24 {
        values.push(pair(&format!("{}", n), &format!("-{}", n)));
    }
    let t = Tensor::from_values(2, 3, 4, values).unwrap();
    assert_eq!(t.dim(), (2, 3, 4));
    for i in 0..2 {
        for j in 0..3 {
            for k in 0..4 {
                let n = ((i * 3 + j) * 4 + k) as f64;
                assert_eq!(floats_of(t.get(i, j, k).unwrap()), (n, -n));
            }
        }
    }
    let c = t.clone();
    assert_eq!(c.dim(), (2, 3, 4));
    assert_eq!(floats_of(c.get(1, 2, 3).unwrap()), (23.0, -23.0));
}

#[test]
fn tensor_must_be_filled_exactly() {
    let e = Tensor::from_values(1, 2, 2, vec![pair("1", "2")]).unwrap_err();
    assert_eq!(e.kind, ErrorKind::ShapeMismatch);
    let e = Tensor::from_values(0, 2, 2, vec![pair("1", "2")]).unwrap_err();
    assert_eq!(e.kind, ErrorKind::ShapeMismatch);
    let e = Tensor::from_values(0, usize::MAX, usize::MAX, Vec::new()).unwrap_err();
    assert_eq!(e.kind, ErrorKind::ShapeMismatch);
    assert!(Tensor::from_values(0, 2, 2, Vec::new()).is_ok());
    assert!(Tensor::from_values(3, 0, 0, Vec::new()).is_ok());
}

#[test]
fn matrix_is_filled() {
    let m = Matrix::filled(2, 3, pair("50", "0")).unwrap();
    assert_eq!(m.dim(), (2, 3));
    for i in 0..2 {
        for j in 0..3 {
            assert_eq!(floats_of(m.get(i, j).unwrap()), (50.0, 0.0));
        }
    }
    assert!(m.get(2, 0).is_none());
    assert!(m.get(0, 3).is_none());
    let e = Matrix::filled(usize::MAX, 2, pair("50", "0")).unwrap_err();
    assert_eq!(e.kind, ErrorKind::ShapeMismatch);
    let e = Matrix::filled(usize::MAX, 0, pair("50", "0")).unwrap_err();
    assert_eq!(e.kind, ErrorKind::ShapeMismatch);
    assert_eq!(Matrix::filled(0, 0, pair("50", "0")).unwrap().dim(), (0, 0));
}

#[test]
fn squares() {
    assert_eq!(square(0), Some(0));
    assert_eq!(square(3), Some(9));
    assert_eq!(square(65535), Some(4294836225));
    assert_eq!(square(usize::MAX), None);
}

#[test]
fn row_classification() {
    assert!(starts_record(5, 2));
    assert!(starts_record(9, 2));
    assert!(!starts_record(4, 2));
    assert!(!starts_record(8, 2));
    assert!(!starts_record(0, 2));
    assert!(starts_record(7, 3));
    assert!(starts_record(19, 3));
    assert!(!starts_record(6, 3));
    assert!(!starts_record(3, 3));
    assert!(starts_record(3, 1));
    assert!(starts_record(1, 0));
    assert!(!starts_record(0, 0));
    assert!(!starts_record(7, usize::MAX));
}

#[test]
fn unit_names() {
    assert_eq!(FreqUnit::parse(b"hz"), Ok(FreqUnit::Hz));
    assert_eq!(FreqUnit::parse(b"kHz"), Ok(FreqUnit::KHz));
    assert_eq!(FreqUnit::parse(b"MHZ"), Ok(FreqUnit::MHz));
    assert_eq!(FreqUnit::parse(b"GHz"), Ok(FreqUnit::GHz));
    assert_eq!(FreqUnit::parse(b"thz"), Ok(FreqUnit::THz));
    assert_eq!(FreqUnit::parse(b"phz"), Err(ParseError { kind: ErrorKind::InvalidUnit }));
    assert_eq!(FreqUnit::parse(b""), Err(ParseError::new(ErrorKind::InvalidUnit)));
    assert_eq!(ParseError::new(ErrorKind::InvalidUnit).kind(), ErrorKind::InvalidUnit);
}

#[test]
fn unit_factors() {
    assert_eq!(FreqUnit::Hz.multiplier(), 1);
    assert_eq!(FreqUnit::KHz.multiplier(), 1_000);
    assert_eq!(FreqUnit::MHz.multiplier(), 1_000_000);
    assert_eq!(FreqUnit::GHz.multiplier(), 1_000_000_000);
    assert_eq!(FreqUnit::THz.multiplier(), 1_000_000_000_000);
    assert_eq!(FreqUnit::GHz.scale(3), Some(3_000_000_000));
    assert_eq!(FreqUnit::Hz.scale(u64::MAX), Some(u64::MAX));
    assert_eq!(FreqUnit::KHz.scale(u64::MAX), None);
}

#[test]
fn scaling_is_linear() {
    let units = [FreqUnit::Hz, FreqUnit::KHz, FreqUnit::MHz, FreqUnit::GHz, FreqUnit::THz];
    for unit in units {
        for k in 0..6u64 {
            for x in 0..6u64 {
                assert_eq!(unit.scale(k * x).unwrap(), k * unit.scale(x).unwrap());
                assert_eq!(
                    unit.scale(k + x).unwrap(),
                    unit.scale(k).unwrap() + unit.scale(x).unwrap()
                );
            }
        }
    }
}

#[test]
fn kind_and_encoding_names() {
    assert_eq!(ParamType::parse(b"s"), Ok(ParamType::S));
    assert_eq!(ParamType::parse(b"Y"), Ok(ParamType::Y));
    assert_eq!(ParamType::parse(b"z"), Ok(ParamType::Z));
    assert_eq!(ParamType::parse(b"G"), Ok(ParamType::G));
    assert_eq!(ParamType::parse(b"h"), Ok(ParamType::H));
    assert_eq!(ParamType::parse(b"q").unwrap_err().kind, ErrorKind::InvalidParameterKind);
    assert_eq!(ParamFormat::parse(b"db"), Ok(ParamFormat::DBAngle));
    assert_eq!(ParamFormat::parse(b"MA"), Ok(ParamFormat::MagAngle));
    assert_eq!(ParamFormat::parse(b"Ri"), Ok(ParamFormat::RealImag));
    assert_eq!(ParamFormat::parse(b"xx").unwrap_err().kind, ErrorKind::InvalidValueEncoding);
}

#[test]
fn default_options() {
    let o = TouchstoneOptions::default();
    assert_eq!(o.unit, FreqUnit::GHz);
    assert_eq!(o.param_type, ParamType::S);
    assert_eq!(o.param_format, ParamFormat::MagAngle);
    assert_eq!(as_float(&o.resistance), 50.0);
    assert_eq!(TouchstoneVersion::default(), TouchstoneVersion::One);
}

#[test]
fn option_line_in_any_order() {
    let lines: [&[u8]; 6] = [
        b"# MHz Y RI",
        b"# MHz RI Y",
        b"# Y MHz RI",
        b"# Y RI MHz",
        b"# RI MHz Y",
        b"# RI Y MHz",
    ];
    for line in lines {
        let mut o = TouchstoneOptions::default();
        parse_options_line(line, &mut o).unwrap();
        assert_eq!(o.unit, FreqUnit::MHz);
        assert_eq!(o.param_type, ParamType::Y);
        assert_eq!(o.param_format, ParamFormat::RealImag);
        assert_eq!(as_float(&o.resistance), 50.0);
    }
}

#[test]
fn option_line_details() {
    let mut o = TouchstoneOptions::default();
    parse_options_line(b"# kHz Z DB R 75.5 vendor extra", &mut o).unwrap();
    assert_eq!(o.unit, FreqUnit::KHz);
    assert_eq!(o.param_type, ParamType::Z);
    assert_eq!(o.param_format, ParamFormat::DBAngle);
    assert_eq!(as_float(&o.resistance), 75.5);

    let mut o = TouchstoneOptions::default();
    parse_options_line(b"#THz H", &mut o).unwrap();
    assert_eq!(o.unit, FreqUnit::GHz);
    assert_eq!(o.param_type, ParamType::H);

    let mut o = TouchstoneOptions::default();
    parse_options_line(b"# hz khz g h", &mut o).unwrap();
    assert_eq!(o.unit, FreqUnit::KHz);
    assert_eq!(o.param_type, ParamType::H);

    let mut o = TouchstoneOptions::default();
    let e = parse_options_line(b"# MHz Y RI R", &mut o).unwrap_err();
    assert_eq!(e.kind, ErrorKind::MalformedOptionsLine);
    assert_eq!(o.unit, FreqUnit::GHz);
    assert_eq!(o.param_type, ParamType::S);
    assert_eq!(o.param_format, ParamFormat::MagAngle);

    let mut o = TouchstoneOptions::default();
    let e = parse_options_line(b"# R ma", &mut o).unwrap_err();
    assert_eq!(e.kind, ErrorKind::MalformedOptionsLine);

    let mut o = TouchstoneOptions::default();
    let e = parse_options_line(b"# hzz", &mut o).unwrap_err();
    assert_eq!(e.kind, ErrorKind::InvalidUnit);

    let mut o = TouchstoneOptions::default();
    parse_options_line(b"", &mut o).unwrap();
    assert_eq!(o.unit, FreqUnit::GHz);
    let c = o.clone();
    assert_eq!(c.unit, FreqUnit::GHz);
    assert_eq!(as_float(&c.resistance), 50.0);
}

#[test]
fn number_literals() {
    let good: [&[u8]; 24] = [
        b"0", b"50", b"1.0", b"1.", b".5", b"-0.151514165", b"+3", b"1e9", b"1E9", b"1.5e-3",
        b"1.e+3", b".5E0", b"inf", b"-Infinity", b"NaN", b"+nan", b"0001", b"12345678901234567890123",
        b"+.5", b"-.5e-5", b"INF", b"+infinity", b"1e0005", b"1e999999999999999999999",
    ];
    for text in good {
        assert!(recognise(text), "{:?}", std::str::from_utf8(text));
        let n = Number::parse(text).unwrap();
        assert_eq!(n.as_bytes(), text);
        assert!(std::str::from_utf8(text).unwrap().parse::<f64>().is_ok());
        assert_eq!(n.clone().as_bytes(), text);
        assert_eq!(Number::from_vec(text.to_vec()).unwrap().as_bytes(), text);
    }
    let bad: [&[u8]; 26] = [
        b"", b".", b"+", b"-", b"e5", b"1e", b"1e+", b"1.2.3", b"1,5", b"--1", b"1 ", b" 1",
        b"0x10", b"infinit", b"1e5.0", b"1f", b".e5", b"1.e", b"1_000", b"1e5e5", b"nanx", b"in",
        b"+-1", b"1e-", b"-inff", b"!",
    ];
    for text in bad {
        assert!(!recognise(text), "{:?}", std::str::from_utf8(text));
        assert!(Number::parse(text).is_none());
        assert!(std::str::from_utf8(text).unwrap().parse::<f64>().is_err());
    }
    assert_eq!(as_float(&Number::zero()), 0.0);
    assert_eq!(as_float(&Number::fifty()), 50.0);
}

#[test]
fn text_helpers() {
    assert_eq!(lowercase(b"GHz S MA r 50 [End]"), b"ghz s ma r 50 [end]".to_vec());
    assert_eq!(to_lower(b'Z'), b'z');
    assert_eq!(to_lower(b'['), b'[');
    assert_eq!(to_lower(b'@'), b'@');
    assert_eq!(trimmed(b" \t 2.0 \r\n"), b"2.0");
    assert_eq!(trimmed(b"  \r\n"), b"");
    assert_eq!(trimmed(b"a b"), b"a b");
    assert!(blank(b""));
    assert!(blank(b" \t\r\n\x0b\x0c"));
    assert!(!blank(b" . "));
    assert!(has_prefix(b"[end] 1", b"[end]"));
    assert!(!has_prefix(b"[en", b"[end]"));
    assert!(!has_prefix(b" [end]", b"[end]"));
    assert_eq!(find_last(b"a!b!c", b'!'), Some(3));
    assert_eq!(find_last(b"abc", b'!'), None);
    assert_eq!(scan(b"123abc", 0, ByteClass::Digit), 3);
    assert_eq!(scan(b"ab\ncd", 0, ByteClass::Line), 2);
    assert_eq!(scan(b"  ab", 0, ByteClass::Space), 2);
    assert_eq!(scan(b"ab  ", 0, ByteClass::Word), 2);
    assert!(byte_in_class(ByteClass::Word, b'x'));
    assert!(!byte_in_class(ByteClass::Word, b' '));
    assert_eq!(
        split_tokens(b"  1.0\t-2 \r\n 3e5"),
        vec![b"1.0".to_vec(), b"-2".to_vec(), b"3e5".to_vec()]
    );
    assert!(split_tokens(b" \n").is_empty());
}

#[test]
fn counts() {
    assert_eq!(parse_digits(b"0"), Some(0));
    assert_eq!(parse_digits(b"0042"), Some(42));
    assert_eq!(parse_digits(b""), None);
    assert_eq!(parse_digits(b"4 2"), None);
    assert_eq!(parse_digits(b"+4"), None);
    assert_eq!(parse_count(b"+4"), Some(4));
    assert_eq!(parse_count(b"1001"), Some(1001));
    assert_eq!(parse_count(b"+"), None);
    assert_eq!(parse_count(b"-4"), None);
    assert_eq!(parse_count(format!("{}", usize::MAX).as_bytes()), Some(usize::MAX));
    assert_eq!(parse_count(format!("{}0", usize::MAX).as_bytes()), None);
    assert_eq!(parse_count(b"18446744073709551616"), None);
}

#[test]
fn ranks() {
    assert_eq!(rank_from_name(b"a.s2p"), Ok(2));
    assert_eq!(rank_from_name(b"a.S10P"), Ok(10));
    assert_eq!(rank_from_name(b".s4p"), Ok(4));
    assert_eq!(rank_from_name(b"a.s0p"), Ok(0));
    assert_eq!(rank_from_name(b"a.ts").unwrap_err().kind, ErrorKind::NotImplemented);
    assert_eq!(rank_from_name(b"a.s2p.txt").unwrap_err().kind, ErrorKind::UnsupportedFormat);
    assert_eq!(rank_from_name(b"s2p").unwrap_err().kind, ErrorKind::UnsupportedFormat);
    assert_eq!(rank_from_name(b"a.").unwrap_err().kind, ErrorKind::UnsupportedFormat);
}

#[test]
fn parser_line_by_line() {
    let p = TouchstoneParser::new(2);
    assert_eq!(p.phase, Phase::AwaitingOptions);
    assert!(!p.is_done());
    let p = p.consume_line(b"! header\n").unwrap();
    assert_eq!(p.comments, vec![b" header\n".to_vec()]);
    let p = p.consume_line(b"\n").unwrap();
    let p = p.consume_line(b"# GHz S MA R 50\n").unwrap();
    assert_eq!(p.phase, Phase::ParsingData);
    let p = p.consume_line(b"[Reference]\n").unwrap();
    assert!(p.awaiting_reference);
    let p = p.consume_line(b"50 60\n").unwrap();
    assert!(!p.awaiting_reference);
    assert_eq!(p.reference.as_ref().unwrap().len(), 2);
    let p = p.consume_line(b"1 2 3 4 5\n").unwrap();
    assert_eq!(p.freqs.len(), 1);
    assert_eq!(p.values.len(), 2);
    let p = p.consume_line(b"6 7 8 9 ! rest\n").unwrap();
    assert_eq!(p.freqs.len(), 1);
    assert_eq!(p.values.len(), 4);
    assert_eq!(as_float(&p.values[3].re), 8.0);
    assert_eq!(as_float(&p.values[3].im), 9.0);
    let p = p.consume_line(b"[END]\n").unwrap();
    assert_eq!(p.phase, Phase::Done);
    assert!(p.is_done());
    let p = p.consume_line(b"anything at all\n").unwrap();
    let t = p.finish(b"x.s2p").unwrap();
    assert_eq!(t.s_params.dim(), (1, 2, 2));
    assert_eq!(t.rank, 2);

    let p = TouchstoneParser::new(1).consume_line(b"[reference]").unwrap();
    assert_eq!(p.finish(b"x.s1p").unwrap_err().kind, ErrorKind::NumericParseError);
}

#[test]
fn numbers_of_a_row() {
    let row = vec![b"1".to_vec(), b"-2.5".to_vec()];
    let numbers = read_numbers(&row).unwrap();
    assert_eq!(as_float(&numbers[0]), 1.0);
    assert_eq!(as_float(&numbers[1]), -2.5);
    assert!(read_numbers(&vec![b"1".to_vec(), b"x".to_vec()]).is_none());
    assert!(read_numbers(&Vec::new()).unwrap().is_empty());
}
