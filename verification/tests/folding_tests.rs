use icalnigma::folding::{append_bytes, write_ical_line};
use icalnigma::icalendar::write_ical_field;

fn folded(line: &str) -> Vec<u8> {
    let mut output = Vec::new();
    write_ical_line(&mut output, line);
    output
}

fn physical_lines(written: &[u8]) -> Vec<Vec<u8>> {
    assert!(written.is_empty() || written.ends_with(b"\r\n"));
    let mut lines = Vec::new();
    let mut start = 0;
    let mut i = 0;
    while i + 1 < written.len() {
        if written[i] == b'\r' && written[i + 1] == b'\n' {
            lines.push(written[start..i].to_vec());
            start = i + 2;
            i += 2;
        } else {
            i += 1;
        }
    }
    lines
}

fn unfolded(written: &[u8]) -> Vec<u8> {
    let mut out = Vec::new();
    let mut i = 0;
    while i < written.len() {
        if written[i..].starts_with(b"\r\n ") {
            i += 3;
        } else {
            out.push(written[i]);
            i += 1;
        }
    }
    out
}

fn unescaped(text: &str) -> String {
    text.replace("\\,", ",")
}

#[test]
fn short_line_is_written_whole() {
    assert_eq!(folded("VERSION:2.0"), b"VERSION:2.0\r\n".to_vec());
}

#[test]
fn empty_line_writes_nothing() {
    assert_eq!(folded(""), Vec::<u8>::new());
}

#[test]
fn writing_appends_to_what_is_there() {
    let mut output = b"X".to_vec();
    write_ical_line(&mut output, "A");
    write_ical_line(&mut output, "B");
    assert_eq!(output, b"XA\r\nB\r\n".to_vec());
    append_bytes(&mut output, b"tail");
    assert_eq!(output, b"XA\r\nB\r\ntail".to_vec());
}

#[test]
fn line_of_72_bytes_is_not_folded() {
    let line = "a".repeat(72);
    assert_eq!(folded(&line), format!("{}\r\n", line).into_bytes());
}

#[test]
fn line_of_73_bytes_is_folded_after_72() {
    let line = format!("{}b", "a".repeat(72));
    assert_eq!(folded(&line), format!("{}\r\n b\r\n", "a".repeat(72)).into_bytes());
}

#[test]
fn long_line_is_folded_every_72_bytes() {
    let line = format!("{}{}{}", "a".repeat(72), "b".repeat(72), "c".repeat(10));
    assert_eq!(
        folded(&line),
        format!("{}\r\n {}\r\n {}\r\n", "a".repeat(72), "b".repeat(72), "c".repeat(10))
            .into_bytes()
    );
}

#[test]
fn two_byte_character_across_the_cut_moves_to_the_next_line() {
    let line = format!("{}ö", "a".repeat(71));
    assert_eq!(line.len(), 73);
    assert_eq!(folded(&line), format!("{}\r\n ö\r\n", "a".repeat(71)).into_bytes());
}

#[test]
fn two_byte_character_that_ends_at_the_cut_stays() {
    let line = format!("{}öb", "a".repeat(70));
    assert_eq!(folded(&line), format!("{}ö\r\n b\r\n", "a".repeat(70)).into_bytes());
}

#[test]
fn three_byte_character_across_the_cut_moves_to_the_next_line() {
    for before in [70, 71] {
        let line = format!("{}€x", "a".repeat(before));
        assert_eq!(folded(&line), format!("{}\r\n €x\r\n", "a".repeat(before)).into_bytes());
    }
    let line = format!("{}€x", "a".repeat(69));
    assert_eq!(folded(&line), format!("{}€\r\n x\r\n", "a".repeat(69)).into_bytes());
}

#[test]
fn four_byte_character_across_the_cut_moves_to_the_next_line() {
    for before in [69, 70, 71] {
        let line = format!("{}😀x", "a".repeat(before));
        assert_eq!(folded(&line), format!("{}\r\n 😀x\r\n", "a".repeat(before)).into_bytes());
    }
    let line = format!("{}😀x", "a".repeat(68));
    assert_eq!(folded(&line), format!("{}😀\r\n x\r\n", "a".repeat(68)).into_bytes());
}

#[test]
fn no_physical_line_holds_more_than_72_bytes_or_half_a_character() {
    let fillers = ["a", "ö", "€", "😀", "aö€😀", "😀€öa"];
    for filler in fillers {
        for head in 0..8 {
            for length in 60..160 {
                let mut line = "x".repeat(head);
                while line.len() < length {
                    line.push_str(filler);
                }
                let written = folded(&line);
                let lines = physical_lines(&written);
                for (i, physical) in lines.iter().enumerate() {
                    let content = if i == 0 { &physical[..] } else {
                        assert_eq!(physical[0], b' ');
                        &physical[1..]
                    };
                    assert!(!content.is_empty());
                    assert!(content.len() <= 72);
                    assert!(std::str::from_utf8(content).is_ok());
                }
                let mut restored = unfolded(&written);
                assert_eq!(restored.split_off(restored.len() - 2), b"\r\n".to_vec());
                assert_eq!(restored, line.clone().into_bytes());
            }
        }
    }
}

#[test]
fn lines_of_70_to_75_bytes_with_a_character_at_each_place() {
    for length in 70..=75usize {
        for wide in ["ö", "€", "😀"] {
            for place in 0..length {
                if place + wide.len() > length {
                    continue;
                }
                let line = format!(
                    "{}{}{}",
                    "a".repeat(place),
                    wide,
                    "b".repeat(length - place - wide.len())
                );
                assert_eq!(line.len(), length);
                let written = folded(&line);
                for (i, physical) in physical_lines(&written).iter().enumerate() {
                    let content = if i == 0 { &physical[..] } else { &physical[1..] };
                    assert!(content.len() <= 72);
                    assert!(std::str::from_utf8(content).is_ok());
                }
                let restored = unfolded(&written);
                assert_eq!(restored, format!("{}\r\n", line).into_bytes());
            }
        }
    }
}

#[test]
fn field_escapes_commas() {
    let mut output = Vec::new();
    write_ical_field(&mut output, "LOCATION", "A, B");
    assert_eq!(output, b"LOCATION:A\\, B\r\n".to_vec());
}

#[test]
fn field_is_folded_after_escaping() {
    let value = format!("{},b", "a".repeat(62));
    let mut output = Vec::new();
    write_ical_field(&mut output, "SUMMARY", &value);
    assert_eq!(output, format!("SUMMARY:{}\\,\r\n b\r\n", "a".repeat(62)).into_bytes());
}

#[test]
fn field_is_read_back_by_unfolding_and_unescaping() {
    let values = [
        "",
        "plain",
        "a,b,,c",
        "back\\slash, and \\, both",
        "Hörsaal 1, Gebäude ÄÖÜ, €, 😀",
        &"long, ".repeat(50),
        &"äöü€😀,".repeat(40),
    ];
    for value in values {
        let mut output = Vec::new();
        write_ical_field(&mut output, "DESCRIPTION", value);
        let logical = String::from_utf8(unfolded(&output)).unwrap();
        let line = logical.strip_suffix("\r\n").unwrap();
        let escaped = line.strip_prefix("DESCRIPTION:").unwrap();
        assert_eq!(unescaped(escaped), value);
    }
}

#[test]
fn a_fold_mark_in_the_value_is_lost_on_the_way_back() {
    let mut output = Vec::new();
    write_ical_field(&mut output, "X", "a\r\n b");
    assert_eq!(unfolded(&output), b"X:ab\r\n".to_vec());
}
