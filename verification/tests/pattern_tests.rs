use icalnigma::clock::read_span;
use icalnigma::resources::is_course_code;
use icalnigma::text::chars_of;
use regex::Regex;

fn words(alphabet: &[char], length: usize) -> Vec<String> {
    let mut all = vec![String::new()];
    let mut last = vec![String::new()];
    for _ in 0..length {
        let mut next = Vec::new();
        for word in &last {
            for c in alphabet {
                let mut longer = word.clone();
                longer.push(*c);
                next.push(longer);
            }
        }
        all.extend(next.iter().cloned());
        last = next;
    }
    all
}

#[test]
fn course_codes_are_what_the_pattern_matches() {
    let pattern = Regex::new(r"^[A-Z]{3}-[A-Z0-9 ]+$").unwrap();
    for word in words(&['A', 'Z', 'a', '0', '-', ' ', 'Ä', '\n'], 6) {
        assert_eq!(is_course_code(&chars_of(&word)), pattern.is_match(&word));
    }
    for word in ["INF-23A", "WWI-2021 A B", "INF-23A\n", "INF-23A ", "ABCD-1", "AB-1", "ABC-é"] {
        assert_eq!(is_course_code(&chars_of(word)), pattern.is_match(word));
    }
}

#[test]
fn spans_are_what_the_pattern_matches() {
    let pattern = Regex::new(r"^(\d{1,2}):(\d{1,2})\s*-\s*(\d{1,2}):(\d{1,2})").unwrap();
    let numbers = ["", "7", "08", "123"];
    let colons = [":", ";"];
    let spaces = ["", " ", "\u{a0}\t", "x"];
    let dashes = ["-", "–"];
    let tails = ["", "5", " INF-23A, Raum"];
    let mut count = 0;
    for a in numbers {
        for b in numbers {
            for c in numbers {
                for d in numbers {
                    for first in colons {
                        for second in colons {
                            for before in spaces {
                                for after in spaces {
                                    for dash in dashes {
                                        for tail in tails {
                                            let text = format!(
                                                "{}{}{}{}{}{}{}{}{}{}",
                                                a, first, b, before, dash, after, c, second, d, tail
                                            );
                                            let ours = read_span(&chars_of(&text)).map(|span| {
                                                (
                                                    span.begin_hour,
                                                    span.begin_minute,
                                                    span.end_hour,
                                                    span.end_minute,
                                                    span.rest,
                                                )
                                            });
                                            let theirs = pattern.captures(&text).map(|found| {
                                                let number =
                                                    |i: usize| found[i].parse::<u32>().unwrap();
                                                let end = found.get(0).unwrap().end();
                                                (
                                                    number(1),
                                                    number(2),
                                                    number(3),
                                                    number(4),
                                                    text[..end].chars().count(),
                                                )
                                            });
                                            assert_eq!(ours, theirs);
                                            count += 1;
                                        }
                                    }
                                }
                            }
                        }
                    }
                }
            }
        }
    }
    assert_eq!(count, 256 * 4 * 16 * 2 * 3);
}
