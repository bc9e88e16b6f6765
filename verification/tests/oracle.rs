use atrac3_rs::error::Atrac3Error;
use atrac3_rs::oracle::{decode_at3, encode_reference, ReferenceEncode};

#[test]
fn encode_arguments_carry_bitrate_loop_and_files() {
    let plain = ReferenceEncode { bitrate_kbps: 132, loop_start: None, loop_end: None, whole_loop: false };
    assert_eq!(
        encode_reference("in.wav", "out.at3", &plain).unwrap(),
        vec!["-e", "-br", "132", "in.wav", "out.at3"]
    );
    let whole = ReferenceEncode { whole_loop: true, loop_start: Some(1), loop_end: Some(9000), ..plain.clone() };
    assert_eq!(
        encode_reference("a", "b", &whole).unwrap(),
        vec!["-e", "-br", "132", "-wholeloop", "a", "b"]
    );
    let looped = ReferenceEncode { loop_start: Some(0), loop_end: Some(6143), ..plain.clone() };
    assert_eq!(
        encode_reference("a", "b", &looped).unwrap(),
        vec!["-e", "-br", "132", "-loop", "0", "6143", "a", "b"]
    );
}

#[test]
fn loop_ranges_the_tool_refuses_are_refused() {
    let base = ReferenceEncode { bitrate_kbps: 66, loop_start: Some(10), loop_end: Some(10), whole_loop: false };
    assert_eq!(encode_reference("a", "b", &base), Err(Atrac3Error::LoopStartNotBeforeEnd));
    let short = ReferenceEncode { loop_end: Some(6152), ..base.clone() };
    assert_eq!(encode_reference("a", "b", &short), Err(Atrac3Error::LoopRangeTooShort));
    let whole_but_bad = ReferenceEncode { whole_loop: true, ..base.clone() };
    assert_eq!(encode_reference("a", "b", &whole_but_bad), Err(Atrac3Error::LoopStartNotBeforeEnd));
}

#[test]
fn decode_arguments() {
    assert_eq!(decode_at3("x.at3", "y.wav"), vec!["-d", "x.at3", "y.wav"]);
}
