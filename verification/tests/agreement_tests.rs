use sidemantic::definitions::split_lines;
use sidemantic::dependency::is_number;
use sidemantic::rewriter::plan::split_at_dots;
use sidemantic::text::{find_sub, from_chars, replace_str, str_contains, to_chars, trim_chars};

/// A small generator of texts over an alphabet, the same on every run.
struct Texts {
    state: u64,
    alphabet: Vec<char>,
}

impl Texts {
    fn new(alphabet: &str) -> Self {
        Texts { state: 0x2545F4914F6CDD1D, alphabet: alphabet.chars().collect() }
    }

    fn number(&mut self, below: usize) -> usize {
        self.state ^= self.state << 13;
        self.state ^= self.state >> 7;
        self.state ^= self.state << 17;
        (self.state % below as u64) as usize
    }

    fn text(&mut self, longest: usize) -> String {
        let n = self.number(longest + 1);
        let mut out = String::new();
        for _ in 0..n {
            let k = self.number(self.alphabet.len());
            out.push(self.alphabet[k]);
        }
        out
    }
}

#[test]
fn numbers_are_what_the_standard_library_reads_as_numbers() {
    let mut texts = Texts::new("0123456789..eE+-infatyINFANTY x");
    for _ in 0..20000 {
        let s = texts.text(8);
        assert_eq!(is_number(&s), s.parse::<f64>().is_ok(), "{s:?}");
    }
    for s in ["inf", "-inf", "+Infinity", "infinit", "nan", "-NaN", "1e+5", "1e+", ".e1", "0x10", "1_000", "٣"] {
        assert_eq!(is_number(s), s.parse::<f64>().is_ok(), "{s:?}");
    }
}

#[test]
fn replacing_and_finding_agree_with_the_standard_library() {
    let mut texts = Texts::new("ab.");
    for _ in 0..5000 {
        let s = texts.text(12);
        let from = texts.text(3);
        let to = texts.text(3);
        if !from.is_empty() {
            assert_eq!(replace_str(&s, &from, &to), s.replace(&from, &to), "{s:?} {from:?} {to:?}");
        }
        assert_eq!(str_contains(&s, &from), s.contains(&from), "{s:?} {from:?}");
        let found = find_sub(&to_chars(&s), &to_chars(&from), 0);
        assert_eq!(found, s.find(&from), "{s:?} {from:?}");
        let parts: Vec<String> = s.split('.').map(str::to_string).collect();
        assert_eq!(split_at_dots(&s), parts, "{s:?}");
    }
}

#[test]
fn lines_and_trimming_agree_with_the_standard_library() {
    let mut texts = Texts::new("a \r\n\t");
    for _ in 0..5000 {
        let s = texts.text(10);
        let lines: Vec<String> = split_lines(&to_chars(&s)).iter().map(from_chars).collect();
        let expected: Vec<String> = s.lines().map(str::to_string).collect();
        assert_eq!(lines, expected, "{s:?}");
        assert_eq!(from_chars(&trim_chars(&to_chars(&s))), s.trim(), "{s:?}");
    }
}
