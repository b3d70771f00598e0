use rune_core::elprop::{frame_complete, is_whitespace, process_eval_result, FrameError};

fn chars(text: &str) -> Vec<char> {
    text.chars().collect()
}

fn eval(count: usize, header: &str, text: &str) -> Result<String, FrameError> {
    process_eval_result(count, &chars(header), &chars(text)).map(|body| body.into_iter().collect())
}

#[test]
fn a_framed_answer_gives_its_body() {
    assert_eq!(eval(0, ";; ELPROP_START:0\n", "(+ 1 2)\n;; ELPROP_END\n"), Ok("(+ 1 2)".to_string()));
    assert_eq!(
        eval(17, ";; ELPROP_START: 17 \n", "  first\nsecond \n\n;; ELPROP_END\n"),
        Ok("first\nsecond".to_string())
    );
    assert_eq!(eval(3, ";; ELPROP_START:+3", "\n;; ELPROP_END\n"), Ok(String::new()));
    assert_eq!(eval(5, ";; ELPROP_START:\u{a0}5\u{2003}", " \t\n;; ELPROP_END\n"), Ok(String::new()));
}

#[test]
fn a_header_without_the_start_tag() {
    assert_eq!(eval(0, "Error: boom\n", "x\n;; ELPROP_END\n"), Err(FrameError::MissingStart));
    assert_eq!(eval(0, "", "x\n;; ELPROP_END\n"), Err(FrameError::MissingStart));
    assert_eq!(eval(0, ";; ELPROP_START", "x\n;; ELPROP_END\n"), Err(FrameError::MissingStart));
    assert_eq!(eval(0, " ;; ELPROP_START:0", "x\n;; ELPROP_END\n"), Err(FrameError::MissingStart));
}

#[test]
fn a_counter_that_is_no_number() {
    for header in [
        ";; ELPROP_START:",
        ";; ELPROP_START:  \n",
        ";; ELPROP_START:-1",
        ";; ELPROP_START:1 2",
        ";; ELPROP_START:+",
        ";; ELPROP_START:++1",
        ";; ELPROP_START:12a",
        ";; ELPROP_START:0x10",
        ";; ELPROP_START:99999999999999999999999999",
    ] {
        assert_eq!(eval(0, header, "x\n;; ELPROP_END\n"), Err(FrameError::BadCount));
    }
}

#[test]
fn the_largest_counter() {
    let header = format!(";; ELPROP_START:{}", usize::MAX);
    assert_eq!(eval(usize::MAX, &header, "x\n;; ELPROP_END\n"), Ok("x".to_string()));
    let header = format!(";; ELPROP_START:{}0", usize::MAX);
    assert_eq!(eval(usize::MAX, &header, "x\n;; ELPROP_END\n"), Err(FrameError::BadCount));
    assert_eq!(eval(7, ";; ELPROP_START:007", "x\n;; ELPROP_END\n"), Ok("x".to_string()));
}

#[test]
fn a_counter_that_is_off() {
    assert_eq!(
        eval(4, ";; ELPROP_START:5\n", "x\n;; ELPROP_END\n"),
        Err(FrameError::CountMismatch { expected: 4, actual: 5 })
    );
}

#[test]
fn an_answer_that_is_not_complete() {
    assert_eq!(eval(1, ";; ELPROP_START:1\n", "x\n;; ELPROP_END"), Err(FrameError::MissingEnd));
    assert_eq!(eval(1, ";; ELPROP_START:1\n", ""), Err(FrameError::MissingEnd));
    assert_eq!(eval(1, ";; ELPROP_START:1\n", ";; ELPROP_END\n"), Err(FrameError::MissingEnd));
    assert!(!frame_complete(&chars("x\n;; ELPROP_END")));
    assert!(!frame_complete(&chars("")));
    assert!(frame_complete(&chars("\n;; ELPROP_END\n")));
    assert!(frame_complete(&chars("(a\n b)\n;; ELPROP_END\n")));
}

#[test]
fn white_space_is_what_trim_takes_off() {
    for code in 0u32..0x3100 {
        if let Some(c) = char::from_u32(code) {
            assert_eq!(is_whitespace(c), c.is_whitespace(), "U+{:04X}", code);
        }
    }
    for text in ["  a b  ", "\u{3000}x\u{85}", "\n\n", "", "x", "\u{200b}x"] {
        let framed = format!("{}\n;; ELPROP_END\n", text);
        assert_eq!(eval(0, ";; ELPROP_START:0", &framed), Ok(text.trim().to_string()));
    }
}
