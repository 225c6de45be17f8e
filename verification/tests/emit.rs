use seq::emit::{admits, pad, width, Action, Emitter};
use seq::number::Number;
use seq::options::Invocation;
use seq::sequence::{sequence_of, Sequence};
use seq::text::trim;

type Numbers = (f64, f64, f64, usize);

struct WidthCase<'a> {
    desc: &'a str,
    seq: Numbers,
    exp: usize,
}

struct TestCase<'a> {
    desc: &'a str,
    seq: Numbers,
    sep: &'a str,
    width: usize,
    term: Option<String>,
    args: Vec<String>,
    exp: String,
}

fn number(value: f64) -> Number {
    Number::from_bits(value.to_bits())
}

fn double(number: Number) -> f64 {
    f64::from_bits(number.to_bits())
}

fn sequence(seq: Numbers) -> Sequence {
    Sequence {
        first: number(seq.0),
        increment: number(seq.1),
        last: number(seq.2),
        precision: seq.3,
    }
}

fn render(value: f64, precision: usize) -> String {
    format!("{0:.1$}", value, precision)
}

fn read(text: &String) -> Option<Number> {
    trim(text).parse::<f64>().ok().map(number)
}

fn strings(args: &[&str]) -> Vec<String> {
    args.iter().map(|arg| arg.to_string()).collect()
}

fn drive(out: &mut Vec<u8>, mut emitter: Emitter) {
    let first = double(emitter.sequence.first);
    let increment = double(emitter.sequence.increment);
    let precision = emitter.sequence.precision;
    let mut cur = first;
    loop {
        assert!(emitter.count < u64::MAX);
        match emitter.step(number(cur), &render(cur, precision)) {
            Action::Write { text, next } => {
                out.extend_from_slice(text.as_bytes());
                cur = first + increment * next as f64;
            }
            Action::Finish { text } => {
                if let Some(text) = text {
                    out.extend_from_slice(text.as_bytes());
                }
                return;
            }
        }
    }
}

fn emitseq(
    out: &mut Vec<u8>,
    s: Numbers,
    sep: &str,
    width: usize,
    term: Option<String>,
) -> Result<(), String> {
    drive(out, Emitter::new(sequence(s), sep.to_string(), width, term));
    Ok(())
}

fn run(out: &mut Vec<u8>, argv: Vec<String>) -> Result<(), String> {
    let invocation = seq::options::run(&argv).map_err(|e| e.message())?;
    let values: Vec<Option<Number>> = invocation.free.iter().map(read).collect();
    let s = sequence_of(&invocation, &values).map_err(|e| e.message())?;
    let first = render(double(s.first), s.precision);
    let last = render(double(s.last), s.precision);
    drive(out, Emitter::of(invocation, s, &first, &last));
    Ok(())
}

fn output(args: &[&str]) -> Result<String, String> {
    let mut buf: Vec<u8> = vec![];
    run(&mut buf, strings(args))?;
    Ok(String::from_utf8(buf).unwrap())
}

fn width_of_sequence(s: Numbers) -> usize {
    width(true, &render(s.0, s.3), &render(s.2, s.3))
}

#[test]
fn test_width() {
    for item in vec![
        WidthCase {
            desc: "one",
            seq: (1.0, 1.0, 1.0, 0),
            exp: 1,
        },
        WidthCase {
            desc: "two",
            seq: (1.0, 1.0, 10.0, 0),
            exp: 2,
        },
        WidthCase {
            desc: "three",
            seq: (100.0, 1.0, 10.0, 0),
            exp: 3,
        },
        WidthCase {
            desc: "one.one",
            seq: (1.0, 1.0, 1.0, 1),
            exp: 3,
        },
        WidthCase {
            desc: "one.two",
            seq: (1.0, 1.0, 1.0, 2),
            exp: 4,
        },
        WidthCase {
            desc: "two.two",
            seq: (1.0, 10.0, 1.0, 2),
            exp: 4,
        },
    ] {
        assert_eq!(
            width_of_sequence(item.seq),
            item.exp,
            "Failed testing width {}",
            item.desc
        );
    }
}

#[test]
fn test_emitseq_run() {
    for item in vec![
            TestCase {
                desc: "1-3",
                seq: (1.0, 1.0, 3.0, 0),
                sep: "\n",
                width: 1,
                term: None,
                args: vec!["3".into()],
                exp: "1\n2\n3\n".into(),
            },
            TestCase {
                desc: "neg 1-3",
                seq: (-1.0, -1.0, -3.0, 0),
                sep: "\n",
                width: 1,
                term: None,
                args: vec!["--".into(), "-1".into(), "-3".into()],
                exp: "-1\n-2\n-3\n".into(),
            },
            TestCase {
                desc: "neg 3-1",
                seq: (-3.0, 1.0, -1.0, 0),
                sep: "\n",
                width: 1,
                term: None,
                args: vec!["--".into(), "-3".into(), "-1".into()],
                exp: "-3\n-2\n-1\n".into(),
            },
            TestCase {
                desc: "1, 3, 5",
                seq: (1.0, 2.0, 5.0, 0),
                sep: "\n",
                width: 1,
                term: None,
                args: vec!["1".into(), "2".into(), "5".into()],
                exp: "1\n3\n5\n".into(),
            },
            TestCase {
                desc: "neg 1, 3, 5",
                seq: (-1.0, -2.0, -5.0, 0),
                sep: "\n",
                width: 1,
                term: None,
                args: vec!["--".into(), "-1".into(), "-2".into(), "-5".into()],
                exp: "-1\n-3\n-5\n".into(),
            },
            TestCase {
                desc: "1.0-3.0",
                seq: (1.0, 1.0, 3.0, 1),
                sep: "\n",
                width: 1,
                term: None,
                args: vec!["3.0".into()],
                exp: "1.0\n2.0\n3.0\n".into(),
            },
            TestCase {
                desc: "1-3 x 0.5",
                seq: (1.0, 0.5, 3.0, 1),
                sep: "\n",
                width: 1,
                term: None,
                args: vec!["1".into(), "0.5".into(), "3".into()],
                exp: "1.0\n1.5\n2.0\n2.5\n3.0\n".into(),
            },
            TestCase {
                desc: "1-2.1 x 0.3",
                seq: (1.0, 0.3, 2.1, 1),
                sep: ",",
                width: 1,
                term: None,
                args: vec!["-s,".into(), "1".into(), "0.3".into(), "2.1".into()],
                exp: "1.0,1.3,1.6,1.9,".into(),
            },
            TestCase {
                desc: "neg 1-2.1 x 0.3",
                seq: (-1.0, -0.3, -2.1, 1),
                sep: ",",
                width: 1,
                term: None,
                args: vec![
                    "-s,".into(),
                    "--".into(),
                    "-1".into(),
                    "-0.3".into(),
                    "-2.1".into(),
                ],
                exp: "-1.0,-1.3,-1.6,-1.9,".into(),
            },
            TestCase {
                desc: "1-3 precision 3",
                seq: (1.0, 1.0, 3.0, 3),
                sep: ",",
                width: 1,
                term: None,
                args: vec!["-s,".into(), "3.000".into()],
                exp: "1.000,2.000,3.000,".into(),
            },
            TestCase {
                desc: "8-10 width 6 precision 3",
                seq: (8.0, 1.0, 10.0, 3),
                sep: ",",
                width: 6,
                term: None,
                args: vec!["-s,".into(), "-w".into(), "8.000".into(), "10".into()],
                exp: "08.000,09.000,10.000,".into(),
            },
            TestCase {
                desc: "8-10 x 0.25 width 5",
                seq: (8.0, 0.25, 10.0, 2),
                sep: ",",
                width: 5,
                term: None,
                args: vec![
                    "-s,".into(),
                    "-w".into(),
                    "8".into(),
                    ".25".into(),
                    "10".into(),
                ],
                exp: "08.00,08.25,08.50,08.75,09.00,09.25,09.50,09.75,10.00,".into(),
            },
            TestCase {
                desc: "simple 1-100",
                seq: (1.0, 1.0, 100.0, 0),
                sep: "\n",
                width: 1,
                term: None,
                args: vec!["100".into()],
                exp: (1..=100)
                    .map(|x| x.to_string())
                    .collect::<Vec<String>>()
                    .join("\n")
                    + "\n",
            },
            TestCase {
                desc: "1-100 with alt sep",
                seq: (1.0, 1.0, 100.0, 0),
                sep: ":",
                width: 1,
                term: None,
                args: vec!["-s:".into(), "100".into()],
                exp: (1..=100)
                    .map(|x| x.to_string())
                    .collect::<Vec<String>>()
                    .join(":")
                    + ":",
            },
            TestCase {
                desc: "1-100 with width",
                seq: (1.0, 1.0, 100.0, 0),
                sep: "\n",
                width: 3,
                term: None,
                args: vec!["-w".into(), "100".into()],
                exp: (1..=100)
                    .map(|x| format!("{:0>3}", x))
                    .collect::<Vec<String>>()
                    .join("\n")
                    + "\n",
            },
            TestCase {
                desc: "1-100 with term",
                seq: (1.0, 1.0, 100.0, 0),
                sep: "\n",
                width: 1,
                term: Some("foo".into()),
                args: vec!["-tfoo".into(), "100".into()],
                exp: (1..=100)
                    .map(|x| x.to_string())
                    .collect::<Vec<String>>()
                    .join("\n")
                    + "\n"
                    + "foo",
            },
            TestCase {
                desc: "-5 0.25 2",
                seq: (-5.0, 0.25, 2.0, 2),
                sep: ",",
                width: 1,
                term: None,
                args: vec!["-s,".into(), "--".into(), "-5".into(), "0.25".into(), "2".into()],
                exp: "-5.00,-4.75,-4.50,-4.25,-4.00,-3.75,-3.50,-3.25,-3.00,-2.75,-2.50,-2.25,-2.00,-1.75,-1.50,-1.25,-1.00,-0.75,-0.50,-0.25,0.00,0.25,0.50,0.75,1.00,1.25,1.50,1.75,2.00,".into(),
            },
        ] {
            let mut buf: Vec<u8> = vec![];
            emitseq(&mut buf, item.seq, item.sep, item.width, item.term).unwrap();
            assert_eq!(
                item.exp,
                String::from_utf8(buf).unwrap(),
                "Invalid output for {}",
                item.desc,
            );

            let mut buf: Vec<u8> = vec![];
            run(&mut buf, item.args).unwrap();
            assert_eq!(
                item.exp,
                String::from_utf8(buf).unwrap(),
                "Invalid run output for {}",
                item.desc,
            );
        }
}

#[test]
fn one_argument_counts_from_one() {
    assert_eq!(output(&["1"]), Ok("1\n".to_string()));
    assert_eq!(output(&["3"]), Ok("1\n2\n3\n".to_string()));
    assert_eq!(output(&["3.9"]), Ok("1.0\n2.0\n3.0\n".to_string()));
    assert_eq!(output(&["5"]), Ok("1\n2\n3\n4\n5\n".to_string()));
}

#[test]
fn one_argument_below_one_counts_down_from_one() {
    assert_eq!(output(&["0"]), Ok("1\n0\n".to_string()));
    assert_eq!(output(&["--", "-2"]), Ok("1\n0\n-1\n-2\n".to_string()));
}

#[test]
fn three_arguments_step_from_the_first_by_the_increment() {
    assert_eq!(output(&["2", "3", "11"]), Ok("2\n5\n8\n11\n".to_string()));
    assert_eq!(output(&["2", "3", "12"]), Ok("2\n5\n8\n11\n".to_string()));
    assert_eq!(output(&["--", "10", "-4", "1"]), Ok("10\n6\n2\n".to_string()));
    assert_eq!(output(&["4", "2", "4"]), Ok("4\n".to_string()));
}

#[test]
fn equal_ends_give_one_row() {
    assert_eq!(output(&["5", "5"]), Ok("5\n".to_string()));
}

#[test]
fn precision_two_renders_two_digits() {
    assert_eq!(output(&["1.50", "3"]), Ok("1.50\n2.50\n".to_string()));
    assert_eq!(output(&["-s,", "1.50", "3.5"]), Ok("1.50,2.50,3.50,".to_string()));
}

#[test]
fn eight_to_ten_by_quarters_in_equal_width() {
    assert_eq!(
        output(&["-w", "-s", ",", "8", "0.25", "10"]),
        Ok("08.00,08.25,08.50,08.75,09.00,09.25,09.50,09.75,10.00,".to_string())
    );
}

#[test]
fn equal_width_pads_in_front_of_the_sign() {
    assert_eq!(output(&["-w", "-s", ",", "--", "-1", "10"]).unwrap(), "-1,00,01,02,03,04,05,06,07,08,09,10,");
    assert_eq!(output(&["-w", "-s", ",", "--", "9", "-1", "-10"]).unwrap(),
        "009,008,007,006,005,004,003,002,001,000,0-1,0-2,0-3,0-4,0-5,0-6,0-7,0-8,0-9,-10,");
}

#[test]
fn every_row_is_as_wide_as_the_wider_end() {
    let text = output(&["-w", "-s", ",", "95", "1.5", "103"]).unwrap();
    let rows: Vec<&str> = text.split_terminator(',').collect();
    assert_eq!(rows, vec!["095.0", "096.5", "098.0", "099.5", "101.0", "102.5"]);
    for row in rows {
        assert!(row.len() >= 5);
    }
}

#[test]
fn the_terminator_follows_the_last_separator() {
    assert_eq!(output(&["-t", "end", "-s", " ", "3"]), Ok("1 2 3 end".to_string()));
    assert_eq!(output(&["-t", "end", "nan"]), Ok("end".to_string()));
}

#[test]
fn a_bound_that_is_no_number_gives_no_row() {
    assert_eq!(output(&["nan"]), Ok("".to_string()));
    assert_eq!(output(&["1", "NaN"]), Ok("".to_string()));
    assert_eq!(output(&["nan", "5"]), Ok("".to_string()));
}

#[test]
fn errors_come_before_any_output() {
    assert_eq!(
        output(&[]),
        Err("Usage: seq [-w] [-s string] [-t string] [first [incr]] last".to_string())
    );
    assert_eq!(
        output(&["1", "2", "3", "4"]),
        Err("Usage: seq [-w] [-s string] [-t string] [first [incr]] last".to_string())
    );
    assert_eq!(output(&["1", "0", "5"]), Err("seq: zero increment".to_string()));
    assert_eq!(output(&["--", "1", "-1", "5"]), Err("seq: needs positive increment".to_string()));
    assert_eq!(
        output(&["1", "x"]),
        Err("seq: invalid floating point argument: x".to_string())
    );
    assert_eq!(
        output(&["-q", "1"]),
        Err("Unrecognized option: 'q'\nUsage: seq [-w] [-s string] [-t string] [first [incr]] last"
            .to_string())
    );
}

#[test]
fn pad_fills_with_zeros_on_the_left() {
    assert_eq!(pad("7", 3), "007");
    assert_eq!(pad("7", 1), "7");
    assert_eq!(pad("7", 0), "7");
    assert_eq!(pad("", 2), "00");
    assert_eq!(pad("", 0), "");
    assert_eq!(pad("-1.5", 6), "00-1.5");
    assert_eq!(pad("12345", 3), "12345");
    assert_eq!(pad("NaN", 5), "00NaN");
    assert_eq!(pad("\u{e9}", 3), "00\u{e9}");
}

#[test]
fn pad_is_as_the_formatter_pads() {
    for text in ["", "1", "-1", "10.250", "-0.5", "inf", "123456789"] {
        for width in 0..12usize {
            assert_eq!(pad(text, width), format!("{:0>1$}", text, width));
        }
    }
}

#[test]
fn width_is_one_unless_equal_width_is_asked_for() {
    assert_eq!(width(false, "100", "1000000"), 1);
    assert_eq!(width(false, "", ""), 1);
    assert_eq!(width(true, "100", "1000000"), 7);
    assert_eq!(width(true, "-100.25", "1"), 7);
    assert_eq!(width(true, "", ""), 0);
}

#[test]
fn admits_follows_the_direction() {
    let up = sequence((1.0, 1.0, 3.0, 0));
    assert!(admits(&up, number(1.0)));
    assert!(admits(&up, number(3.0)));
    assert!(admits(&up, number(-7.0)));
    assert!(!admits(&up, number(3.5)));
    assert!(!admits(&up, number(f64::NAN)));
    let down = sequence((3.0, -1.0, 1.0, 0));
    assert!(admits(&down, number(3.0)));
    assert!(admits(&down, number(1.0)));
    assert!(admits(&down, number(9.0)));
    assert!(!admits(&down, number(0.5)));
    assert!(!admits(&down, number(f64::NAN)));
    let level = sequence((2.0, 1.0, 2.0, 0));
    assert!(admits(&level, number(2.0)));
    assert!(!admits(&level, number(3.0)));
}

#[test]
fn step_writes_counts_and_finishes() {
    let mut emitter = Emitter::new(sequence((1.0, 1.0, 2.0, 0)), ";".to_string(), 3, Some("!".to_string()));
    assert_eq!(emitter.count, 0);
    assert_eq!(
        emitter.step(number(1.0), "1"),
        Action::Write { text: "001;".to_string(), next: 1 }
    );
    assert_eq!(emitter.count, 1);
    assert_eq!(
        emitter.step(number(2.0), "2"),
        Action::Write { text: "002;".to_string(), next: 2 }
    );
    assert_eq!(emitter.count, 2);
    let before = emitter.clone();
    assert_eq!(
        emitter.step(number(3.0), "3"),
        Action::Finish { text: Some("!".to_string()) }
    );
    assert_eq!(emitter, before);
}

#[test]
fn an_emitter_is_made_as_the_command_line_asks() {
    let invocation = Invocation {
        equal_width: true,
        separator: ",".to_string(),
        terminator: Some("x".to_string()),
        free: vec![],
    };
    let s = sequence((8.0, 1.0, 10.0, 2));
    assert_eq!(
        Emitter::of(invocation, s, "8.00", "10.00"),
        Emitter { sequence: s, separator: ",".to_string(), width: 5, terminator: Some("x".to_string()), count: 0 }
    );
    let invocation = Invocation {
        equal_width: false,
        separator: "\n".to_string(),
        terminator: None,
        free: vec![],
    };
    assert_eq!(
        Emitter::of(invocation, s, "8.00", "10.00"),
        Emitter { sequence: s, separator: "\n".to_string(), width: 1, terminator: None, count: 0 }
    );
}
