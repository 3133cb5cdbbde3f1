use ndarray::Array3;
use num::Complex;
use touchstone::arrays::Tensor;
use touchstone::frequency::FreqUnit;
use touchstone::number::Number;
use touchstone::options::{ParamFormat, ParamType};
use touchstone::parser::TouchstoneVersion;
use touchstone::result::ErrorKind;
use touchstone::touchstone::Touchstone;

fn as_float(n: &Number) -> f64 {
    std::str::from_utf8(n.as_bytes()).unwrap().parse::<f64>().unwrap()
}

fn floats(v: &[Number]) -> Vec<f64> {
    v.iter().map(as_float).collect()
}

fn as_array(t: &Tensor) -> Array3<Complex<f64>> {
    let (a, b, c) = t.dim();
    let mut flat = Vec::new();
    for i in 0..a {
        for j in 0..b {
            for k in 0..c {
                let e = t.get(i, j, k).unwrap();
                flat.push(Complex::new(as_float(&e.re), as_float(&e.im)));
            }
        }
    }
    Array3::from_shape_vec((a, b, c), flat).unwrap()
}

/// One record of a `rank`-port file, one matrix row to the line, in the style
/// of the common field solvers: the frequency leads the first line, and the
/// other lines are indented.
fn split_record(freq: f64, rank: usize, seed: usize) -> String {
    let mut out = String::new();
    for row in 0..rank {
        if row == 0 {
            out.push_str(&format!("{:.6}", freq));
        } else {
            out.push_str("        ");
        }
        for col in 0..rank {
            let re = (seed + row * rank + col) as f64 * 0.001;
            let im = -((seed + col) as f64) * 0.5;
            out.push_str(&format!(" {:.9} {:.6}", re, im));
        }
        out.push_str("\r\n");
    }
    out
}

fn split_file(header: &str, rank: usize, count: usize) -> String {
    let mut out = String::from(header);
    for n in 0..count {
        out.push_str(&split_record(1.0 + n as f64 * 0.01, rank, n));
    }
    out
}

#[test]
fn it_works() {
    assert_eq!(2 + 2, 4);
}

#[test]
fn test_hfss_s2p() {
    let header = "! Touchstone file from project twoport\r\n! Exported from HFSS\r\n# GHZ S MA R 50.000000\r\n! Modal data exported\r\n! Port[1] = 1\r\n! Port[2] = 2\r\n";
    let mut content = String::from(header);
    for n in 0..101 {
        let f = 1.0 + n as f64 * 0.09;
        content.push_str(&format!(
            "{:.6} {:.9} {:.6} {:.9} {:.6} {:.9} {:.6} {:.9} {:.6}\r\n",
            f, 0.02, -150.0 + n as f64, 0.93, -17.0, 0.93, -17.0, 0.02, -120.0
        ));
    }
    let touchstone = Touchstone::new(b"tests/hfss_twoport.s2p", content.as_bytes()).unwrap();
    assert_eq!(touchstone.s_params.dim(), (101, 2, 2));
    assert_eq!(touchstone.options.unit, FreqUnit::GHz);
    assert_eq!(touchstone.options.param_type, ParamType::S);
    assert_eq!(touchstone.options.param_format, ParamFormat::MagAngle);
    assert_eq!(touchstone.comments.len(), 2);
    assert_eq!(as_float(&touchstone.options.resistance), 50.0);
}

#[test]
fn test_hfss_s3p() {
    let header = "! Touchstone file from project threeport\n# GHZ S DB R 50.000000\n! Modal data exported\n";
    let content = split_file(header, 3, 451);
    let touchstone = Touchstone::new(b"tests/hfss_threeport_DB.s3p", content.as_bytes()).unwrap();
    assert_eq!(touchstone.s_params.dim(), (451, 3, 3));
    assert_eq!(touchstone.options.unit, FreqUnit::GHz);
    assert_eq!(touchstone.options.param_type, ParamType::S);
    assert_eq!(touchstone.options.param_format, ParamFormat::DBAngle);
}

#[test]
fn test_cst_example_4ports_s4p() {
    let header = "! TOUCHSTONE file generated by a field solver\n! Date and time: Thu Jan 01 00:00:00 2015\n# MHz S MA R 50\n";
    let content = split_file(header, 4, 601);
    let touchstone = Touchstone::new(b"tests/cst_example_4ports.s4p", content.as_bytes()).unwrap();
    assert_eq!(touchstone.s_params.dim(), (601, 4, 4));
    assert_eq!(touchstone.options.unit, FreqUnit::MHz);
    assert_eq!(touchstone.options.param_type, ParamType::S);
    assert_eq!(touchstone.options.param_format, ParamFormat::MagAngle);
}

#[test]
fn test_cst_example_6ports_v2_s6p() {
    let header = "! TOUCHSTONE file generated by a field solver\n[Version] 2.0\n# MHz S MA R 15.063\n[Number of Ports] 6\n[Reference]\n15.063 15.063 15.063 15.063 15.063 15.063\n[Number of Frequencies] 1001\n[Network Data]\n";
    let mut content = split_file(header, 6, 1001);
    content.push_str("[End]\n");
    let touchstone =
        Touchstone::new(b"tests/cst_example_6ports_V2.s6p", content.as_bytes()).unwrap();
    assert_eq!(touchstone.s_params.dim(), (1001, 6, 6));
    assert_eq!(touchstone.options.unit, FreqUnit::MHz);
    assert_eq!(touchstone.options.param_type, ParamType::S);
    assert_eq!(touchstone.options.param_format, ParamFormat::MagAngle);
    assert_eq!(as_float(&touchstone.options.resistance), 15.063);
    assert_eq!(
        touchstone.reference.as_deref().map(floats),
        Some(vec![15.063, 15.063, 15.063, 15.063, 15.063, 15.063])
    );
    assert_eq!(touchstone.version, TouchstoneVersion::Two);
    assert_eq!(touchstone.num_ports, Some(6));
    assert_eq!(touchstone.num_freq_points, Some(1001));
    assert_eq!(touchstone.num_noise_freq_points, None);
    assert_eq!(touchstone.rank, 6);
}

#[test]
fn test_simple_s2p() {
    let content = "!Created by hand.\n# Hz S RI R 50.0\n!freq ReS11 ImS11 ReS21 ImS21 ReS12 ImS12 ReS22 ImS22\n1.0 0.0217920488 -0.151514165 0.926746562 -0.170089428 0.926746562 -0.170089428 0.0234769169 -0.121728077\n4.0 0.0165040395 -0.165812914 0.92149708 -0.186257735 0.92149708 -0.186257735 0.0185387559 -0.133078528\n10.0 0.0107648639 -0.179877134 0.915799359 -0.202194824 0.915799359 -0.202194824 0.0131812086 -0.144202856\n20.0 0.00458796245 -0.193689477 0.909666648 -0.217883591 0.909666648 -0.217883591 0.00741732005 -0.155084364\n";
    let touchstone =
        Touchstone::new(b"tests/ntwk_arbitrary_frequency.s2p", content.as_bytes()).unwrap();
    let good_array = Array3::from_shape_vec(
        (4, 2, 2),
        vec![
            Complex::new(0.0217920488, -0.151514165),
            Complex::new(0.926746562, -0.170089428),
            Complex::new(0.926746562, -0.170089428),
            Complex::new(0.0234769169, -0.121728077),
            Complex::new(0.0165040395, -0.165812914),
            Complex::new(0.92149708, -0.186257735),
            Complex::new(0.92149708, -0.186257735),
            Complex::new(0.0185387559, -0.133078528),
            Complex::new(0.0107648639, -0.179877134),
            Complex::new(0.915799359, -0.202194824),
            Complex::new(0.915799359, -0.202194824),
            Complex::new(0.0131812086, -0.144202856),
            Complex::new(0.00458796245, -0.193689477),
            Complex::new(0.909666648, -0.217883591),
            Complex::new(0.909666648, -0.217883591),
            Complex::new(0.00741732005, -0.155084364),
        ],
    )
    .unwrap();
    assert_eq!(as_array(&touchstone.s_params), good_array);
    assert_eq!(as_array(&touchstone.s_params()), good_array);
    assert_eq!(floats(&touchstone.freqs), vec![1., 4., 10., 20.]);
    assert_eq!(floats(&touchstone.freqs()), vec![1., 4., 10., 20.]);
    assert_eq!(touchstone.options.unit, FreqUnit::Hz);
    assert_eq!(touchstone.options.param_type, ParamType::S);
    assert_eq!(touchstone.options.param_format, ParamFormat::RealImag);
    assert_eq!(touchstone.comments.len(), 1);
    assert_eq!(touchstone.comments[0], b"created by hand.\n".to_vec());
}

#[test]
fn two_port_file_with_one_row() {
    let content = b"# GHz S MA R 50\n1.0 0.02 -0.15 0.93 -0.17 0.93 -0.17 0.02 -0.12\n";
    let t = Touchstone::new(b"demo.s2p", content).unwrap();
    assert_eq!(t.s_params.dim(), (1, 2, 2));
    let a = as_array(&t.s_params);
    assert_eq!(a[[0, 0, 0]], Complex::new(0.02, -0.15));
    assert_eq!(a[[0, 0, 1]], Complex::new(0.93, -0.17));
    assert_eq!(a[[0, 1, 0]], Complex::new(0.93, -0.17));
    assert_eq!(a[[0, 1, 1]], Complex::new(0.02, -0.12));
    assert_eq!(floats(&t.freqs), vec![1.0]);
    assert_eq!(t.filename, b"demo.s2p".to_vec());
    assert!(t.noise.is_none());
    assert!(t.s_params.get(1, 0, 0).is_none());
    assert!(t.s_params.get(0, 2, 0).is_none());
    assert!(t.s_params.get(0, 0, 2).is_none());
}

#[test]
fn six_port_file_with_reference_line() {
    let mut content =
        String::from("# MHz S MA R 15.063\n[Reference]\n15.063 15.063 15.063 15.063 15.063 15.063\n");
    content.push_str(&split_record(100.0, 6, 0));
    let t = Touchstone::new(b"x.s6p", content.as_bytes()).unwrap();
    assert_eq!(as_float(&t.options.resistance), 15.063);
    assert_eq!(t.reference.as_deref().map(floats), Some(vec![15.063; 6]));
    assert_eq!(t.s_params.dim(), (1, 6, 6));
}

#[test]
fn reference_on_the_directive_line() {
    let t = Touchstone::new(b"x.s1p", b"[Reference] 75 25.5\n1 2 3\n").unwrap();
    assert_eq!(t.reference.as_deref().map(floats), Some(vec![75.0, 25.5]));
    assert_eq!(t.s_params.dim(), (1, 1, 1));
}

#[test]
fn reference_without_values_fails() {
    let e = Touchstone::new(b"x.s1p", b"[Reference]\n").unwrap_err();
    assert_eq!(e.kind, ErrorKind::NumericParseError);
    let e = Touchstone::new(b"x.s1p", b"[Reference]\n\n1 2 3\n").unwrap_err();
    assert_eq!(e.kind, ErrorKind::NumericParseError);
    let e = Touchstone::new(b"x.s1p", b"[Reference] fifty\n").unwrap_err();
    assert_eq!(e.kind, ErrorKind::NumericParseError);
}

#[test]
fn row_without_frequency_is_a_shape_mismatch() {
    let e = Touchstone::new(b"x.s2p", b"# GHz S MA R 50\n0.02 -0.15 0.93 -0.17\n").unwrap_err();
    assert_eq!(e.kind, ErrorKind::ShapeMismatch);
    let e = Touchstone::new(
        b"x.s2p",
        b"# GHz S MA R 50\n1.0 0.02 -0.15 0.93 -0.17\n2.0 0.02 -0.15 0.93 -0.17\n",
    )
    .unwrap_err();
    assert_eq!(e.kind, ErrorKind::ShapeMismatch);
}

#[test]
fn row_with_an_odd_value_is_a_shape_mismatch() {
    let e = Touchstone::new(b"x.s2p", b"1 2 3 4 5\n6 7 8\n").unwrap_err();
    assert_eq!(e.kind, ErrorKind::ShapeMismatch);
}

#[test]
fn row_with_a_word_is_a_numeric_error() {
    let e = Touchstone::new(b"x.s1p", b"1.0 0.5 half\n").unwrap_err();
    assert_eq!(e.kind, ErrorKind::NumericParseError);
    let e = Touchstone::new(b"x.s1p", b"1.0 0.5 1e\n").unwrap_err();
    assert_eq!(e.kind, ErrorKind::NumericParseError);
}

#[test]
fn unsupported_extensions() {
    assert_eq!(Touchstone::new(b"a.ts", b"").unwrap_err().kind, ErrorKind::NotImplemented);
    assert_eq!(Touchstone::new(b"a.TS", b"").unwrap_err().kind, ErrorKind::NotImplemented);
    assert_eq!(Touchstone::new(b"a.txt", b"").unwrap_err().kind, ErrorKind::UnsupportedFormat);
    assert_eq!(Touchstone::new(b"a", b"").unwrap_err().kind, ErrorKind::UnsupportedFormat);
    assert_eq!(Touchstone::new(b"a.sp", b"").unwrap_err().kind, ErrorKind::UnsupportedFormat);
    assert_eq!(Touchstone::new(b"a.sxp", b"").unwrap_err().kind, ErrorKind::UnsupportedFormat);
    assert_eq!(Touchstone::new(b"a.s+2p", b"").unwrap_err().kind, ErrorKind::UnsupportedFormat);
    assert_eq!(
        Touchstone::new(b"a.s99999999999999999999999999p", b"").unwrap_err().kind,
        ErrorKind::UnsupportedFormat
    );
    assert_eq!(Touchstone::new(b"a.S12P", b"").unwrap().rank, 12);
    assert_eq!(Touchstone::new(b"dir.d/a.b.s3p", b"").unwrap().rank, 3);
}

#[test]
fn empty_file_gives_an_empty_tensor_and_the_defaults() {
    let t = Touchstone::new(b"a.s2p", b"").unwrap();
    assert_eq!(t.s_params.dim(), (0, 2, 2));
    assert_eq!(t.options.unit, FreqUnit::GHz);
    assert_eq!(t.options.param_type, ParamType::S);
    assert_eq!(t.options.param_format, ParamFormat::MagAngle);
    assert_eq!(as_float(&t.options.resistance), 50.0);
    assert_eq!(t.version, TouchstoneVersion::One);
    assert!(t.reference.is_none());
    assert!(t.freqs.is_empty());
}

#[test]
fn file_without_option_line_keeps_the_defaults() {
    let t = Touchstone::new(b"a.s1p", b"1 2 3\n4 5 6").unwrap();
    assert_eq!(t.s_params.dim(), (2, 1, 1));
    assert_eq!(t.options.unit, FreqUnit::GHz);
    assert_eq!(floats(&t.freqs), vec![1.0, 4.0]);
}

#[test]
fn comments_before_and_after_the_option_line() {
    let content = b"! first ! second\n1 2 3 ! a whole row lost\n# Hz\n! dropped\n4 5 6 ! cut off\n   ! indented\n7 8 9\n";
    let t = Touchstone::new(b"a.s1p", content).unwrap();
    assert_eq!(t.comments, vec![b" second\n".to_vec(), b" a whole row lost\n".to_vec()]);
    assert_eq!(floats(&t.freqs), vec![4.0, 7.0]);
    assert_eq!(t.s_params.dim(), (2, 1, 1));
}

#[test]
fn comment_is_cut_at_the_last_mark() {
    let e = Touchstone::new(b"a.s1p", b"# Hz\n4 5 6 ! one ! two\n").unwrap_err();
    assert_eq!(e.kind, ErrorKind::NumericParseError);
}

#[test]
fn second_option_line_is_ignored() {
    let t = Touchstone::new(b"a.s1p", b"# MHz Y RI R 75\n# kHz Z DB R 1\n1 2 3\n").unwrap();
    assert_eq!(t.options.unit, FreqUnit::MHz);
    assert_eq!(t.options.param_type, ParamType::Y);
    assert_eq!(t.options.param_format, ParamFormat::RealImag);
    assert_eq!(as_float(&t.options.resistance), 75.0);
}

#[test]
fn end_directive_stops_the_parse() {
    let t = Touchstone::new(b"a.s1p", b"1 2 3\n[End]\nthis is not read\n4 5 6\n").unwrap();
    assert_eq!(t.s_params.dim(), (1, 1, 1));
}

#[test]
fn version_directive() {
    assert_eq!(
        Touchstone::new(b"a.s1p", b"[Version] 2.0\n").unwrap().version,
        TouchstoneVersion::Two
    );
    assert_eq!(
        Touchstone::new(b"a.s1p", b"[Version] 1.0\n").unwrap().version,
        TouchstoneVersion::One
    );
    assert_eq!(Touchstone::new(b"a.s1p", b"[Version]\n").unwrap().version, TouchstoneVersion::One);
    assert_eq!(
        Touchstone::new(b"a.s1p", b"[Version] 2.0\n[Version] 1.0\n").unwrap().version,
        TouchstoneVersion::Two
    );
}

#[test]
fn count_directives() {
    let t = Touchstone::new(
        b"a.s1p",
        b"[Number of Ports] 1\n[Number of Frequencies]  +12 \n[Number of Noise Frequencies] 3\n[Network Data]\n",
    )
    .unwrap();
    assert_eq!(t.num_ports, Some(1));
    assert_eq!(t.num_freq_points, Some(12));
    assert_eq!(t.num_noise_freq_points, Some(3));
    let t = Touchstone::new(
        b"a.s1p",
        b"[Number of Ports] one\n[Number of Frequencies] -1\n[Number of Noise Frequencies] 99999999999999999999999999\n",
    )
    .unwrap();
    assert_eq!(t.num_ports, None);
    assert_eq!(t.num_freq_points, None);
    assert_eq!(t.num_noise_freq_points, None);
    let t = Touchstone::new(b"a.s1p", b"[Number of Ports] 4\n[Number of Ports]\n").unwrap();
    assert_eq!(t.num_ports, None);
}

#[test]
fn bad_option_lines() {
    assert_eq!(
        Touchstone::new(b"a.s1p", b"# parsecs-hz\n").unwrap_err().kind,
        ErrorKind::InvalidUnit
    );
    assert_eq!(
        Touchstone::new(b"a.s1p", b"# GHz S MA R\n").unwrap_err().kind,
        ErrorKind::MalformedOptionsLine
    );
    assert_eq!(
        Touchstone::new(b"a.s1p", b"# GHz S MA R fifty\n").unwrap_err().kind,
        ErrorKind::MalformedOptionsLine
    );
}

#[test]
fn split_and_flat_layouts_agree() {
    for rank in 1..5usize {
        let mut split = String::from("# GHz S RI R 50\n");
        let mut flat = String::from("# GHz S RI R 50\n");
        for n in 0..7 {
            let record = split_record(1.0 + n as f64, rank, n);
            split.push_str(&record);
            let line: Vec<&str> = record.split_whitespace().collect();
            flat.push_str(&line.join(" "));
            flat.push('\n');
        }
        let name = format!("a.s{}p", rank);
        let a = Touchstone::new(name.as_bytes(), split.as_bytes()).unwrap();
        let b = Touchstone::new(name.as_bytes(), flat.as_bytes()).unwrap();
        assert_eq!(a.s_params.dim(), (7, rank, rank));
        assert_eq!(as_array(&a.s_params), as_array(&b.s_params));
        assert_eq!(floats(&a.freqs), floats(&b.freqs));
    }
}

#[test]
fn rows_of_one_port_files_give_the_shape() {
    for count in 0..20usize {
        let mut content = String::new();
        for n in 0..count {
            content.push_str(&format!("{} {} {}\n", n, n + 1, n + 2));
        }
        let t = Touchstone::new(b"a.s1p", content.as_bytes()).unwrap();
        assert_eq!(t.s_params.dim(), (count, 1, 1));
    }
    let t = Touchstone::new(b"a.s0p", b"1\n2\n3\n").unwrap();
    assert_eq!(t.s_params.dim(), (3, 0, 0));
    let e = Touchstone::new(b"a.s2p", b"1 2 3 4 5\n").unwrap_err();
    assert_eq!(e.kind, ErrorKind::ShapeMismatch);
}

#[test]
fn numbers_that_are_not_finite_are_read() {
    let t = Touchstone::new(b"a.s1p", b"1 -Inf NaN\n").unwrap();
    let e = t.s_params.get(0, 0, 0).unwrap();
    assert_eq!(as_float(&e.re), f64::NEG_INFINITY);
    assert!(as_float(&e.im).is_nan());
}
