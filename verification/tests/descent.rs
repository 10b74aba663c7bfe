//! Holds the validator against a second reading of the two notations: a
//! recursive descent over the bytes, which shares nothing with the library.

use valaddr::ValAddr;

/// A cursor over the bytes that are still to be read.
struct Reader<'a> {
    rest: &'a [u8],
}

impl<'a> Reader<'a> {
    /// Runs `inner`; if it fails, nothing has been read.
    fn atomically<T>(&mut self, inner: impl FnOnce(&mut Reader<'a>) -> Option<T>) -> Option<T> {
        let saved = self.rest;
        let result = inner(self);
        if result.is_none() {
            self.rest = saved;
        }
        result
    }

    fn read_byte(&mut self) -> Option<u8> {
        let (&first, rest) = self.rest.split_first()?;
        self.rest = rest;
        Some(first)
    }

    fn read_given(&mut self, byte: u8) -> Option<()> {
        self.atomically(|r| if r.read_byte()? == byte { Some(()) } else { None })
    }

    /// Reads `inner`, after `separator` unless this is the first item.
    fn read_separated<T>(
        &mut self,
        separator: u8,
        index: usize,
        inner: impl FnOnce(&mut Reader<'a>) -> Option<T>,
    ) -> Option<T> {
        self.atomically(|r| {
            if index > 0 {
                r.read_given(separator)?;
            }
            inner(r)
        })
    }

    /// Reads all the digits that follow, as a number below `bound`.
    fn read_number(&mut self, radix: u32, max_digits: usize, zero_in_front: bool, bound: u32) -> Option<u32> {
        self.atomically(|r| {
            let leading_zero = r.rest.first() == Some(&b'0');
            let mut value: u32 = 0;
            let mut digits: usize = 0;
            while let Some(digit) = r.atomically(|r| (r.read_byte()? as char).to_digit(radix)) {
                value = value * radix + digit;
                if value >= bound {
                    return None;
                }
                digits += 1;
                if digits > max_digits {
                    return None;
                }
            }
            if digits == 0 || (!zero_in_front && leading_zero && digits > 1) {
                None
            } else {
                Some(value)
            }
        })
    }

    fn read_ipv4(&mut self) -> Option<[u8; 4]> {
        self.atomically(|r| {
            let mut octets = [0u8; 4];
            for index in 0..4 {
                octets[index] = r.read_separated(b'.', index, |r| r.read_number(10, 3, false, 256))? as u8;
            }
            Some(octets)
        })
    }

    /// Reads up to `limit` groups; says how many, and whether an IPv4 literal
    /// stood for the last two.
    fn read_groups(&mut self, limit: usize) -> (usize, bool) {
        for index in 0..limit {
            if index + 1 < limit {
                if self.read_separated(b':', index, |r| r.read_ipv4()).is_some() {
                    return (index + 2, true);
                }
            }
            if self.read_separated(b':', index, |r| r.read_number(16, 4, true, 0x10000)).is_none() {
                return (index, false);
            }
        }
        (limit, false)
    }

    fn read_ipv6(&mut self) -> Option<()> {
        self.atomically(|r| {
            let (head, head_mixed) = r.read_groups(8);
            if head == 8 {
                return Some(());
            }
            if head_mixed {
                return None;
            }
            r.read_given(b':')?;
            r.read_given(b':')?;
            r.read_groups(7 - head);
            Some(())
        })
    }
}

/// Whether all of `text` reads as an address of either version.
fn reads_as_ip(text: &str) -> bool {
    let mut reader = Reader { rest: text.as_bytes() };
    let read = match reader.read_ipv4() {
        Some(_) => Some(()),
        None => reader.read_ipv6(),
    };
    read.is_some() && reader.rest.is_empty()
}

/// Checks every text of `length` characters from `alphabet` that starts with
/// `prefix`; returns how many of them are address literals.
fn sweep(prefix: &str, alphabet: &[u8], length: usize) -> usize {
    let mut text: Vec<u8> = prefix.bytes().collect();
    let fixed = text.len();
    let mut choice = vec![0usize; length - fixed];
    text.extend(choice.iter().map(|&c| alphabet[c]));
    let mut accepted = 0;
    loop {
        let candidate = std::str::from_utf8(&text).unwrap();
        let verdict = ValAddr::is_ip(candidate);
        assert_eq!(verdict, reads_as_ip(candidate), "{:?}", candidate);
        if verdict {
            accepted += 1;
        }
        let mut at = choice.len();
        loop {
            if at == 0 {
                return accepted;
            }
            at -= 1;
            choice[at] += 1;
            if choice[at] < alphabet.len() {
                text[fixed + at] = alphabet[choice[at]];
                break;
            }
            choice[at] = 0;
            text[fixed + at] = alphabet[0];
        }
    }
}

#[test]
fn descent_agrees_on_the_scenarios() {
    assert!(reads_as_ip("192.168.176.43"));
    assert!(reads_as_ip("2001:0db8:85a3:0000:0000:8a2e:0370:7334"));
    assert!(!reads_as_ip("not-an-ip"));
    assert!(reads_as_ip("::ffff:1.2.3.4"));
    assert!(reads_as_ip("1:2:3:4:5:6:7::"));
    assert!(!reads_as_ip("1:2:3:4::5:6:7:8"));
    assert!(!reads_as_ip("1.2.3.04"));
}

#[test]
fn all_short_texts() {
    let alphabet = b"01:.ag";
    let mut accepted = 0;
    for length in 0..=6 {
        accepted += sweep("", alphabet, length);
    }
    assert!(accepted > 0);
}

#[test]
fn all_texts_of_seven() {
    assert!(sweep("", b"01:.a", 7) > 0);
}

#[test]
fn all_texts_of_eight() {
    assert!(sweep("", b"1:.a", 8) > 0);
}

#[test]
fn all_texts_of_ten_after_a_double_colon() {
    assert!(sweep("::", b"1:.a", 10) > 0);
}

#[test]
fn all_texts_of_ten_before_a_double_colon() {
    let mut accepted = 0;
    for prefix in ["1", "a", ":", "."] {
        accepted += sweep_with_suffix(prefix, b"1:.a", 8, "::");
    }
    assert!(accepted > 0);
}

/// As `sweep`, with `suffix` behind each text.
fn sweep_with_suffix(prefix: &str, alphabet: &[u8], length: usize, suffix: &str) -> usize {
    let mut accepted = 0;
    let mut choice = vec![0usize; length - prefix.len()];
    loop {
        let mut candidate = String::from(prefix);
        candidate.extend(choice.iter().map(|&c| alphabet[c] as char));
        candidate.push_str(suffix);
        let verdict = ValAddr::is_ip(&candidate);
        assert_eq!(verdict, reads_as_ip(&candidate), "{:?}", candidate);
        if verdict {
            accepted += 1;
        }
        let mut at = choice.len();
        loop {
            if at == 0 {
                return accepted;
            }
            at -= 1;
            choice[at] += 1;
            if choice[at] < alphabet.len() {
                break;
            }
            choice[at] = 0;
        }
    }
}

/// A small generator of numbers that look random; the same run each time.
struct Dice(u64);

impl Dice {
    fn roll(&mut self, sides: usize) -> usize {
        self.0 = self.0.wrapping_mul(6364136223846793005).wrapping_add(1442695040888963407);
        ((self.0 >> 33) % sides as u64) as usize
    }
}

/// A text put together from the pieces that literals are made of.
fn assemble(dice: &mut Dice) -> String {
    let pieces = [
        "0", "1", "9", "10", "99", "100", "199", "255", "256", "01", "00", "a", "F", "ffff", "0000", "fffff", "1f", "g",
        ":", ":", ":", "::", ".", ".", "1.2.3.4", "255.255.255.255", "0.0.0.0", " ", "%", "[", "]", "-", "",
    ];
    let count = 1 + dice.roll(17);
    let mut text = String::new();
    for _ in 0..count {
        text.push_str(pieces[dice.roll(pieces.len())]);
    }
    text
}

/// A literal with one change made to it.
fn disturb(dice: &mut Dice, literal: &str) -> String {
    let marks = b"0123456789abcdefABCDEFg:. %";
    let mut bytes: Vec<u8> = literal.bytes().collect();
    let at = dice.roll(bytes.len() + 1);
    match dice.roll(3) {
        0 => bytes.insert(at, marks[dice.roll(marks.len())]),
        1 if at < bytes.len() => {
            bytes.remove(at);
        }
        _ if at < bytes.len() => bytes[at] = marks[dice.roll(marks.len())],
        _ => bytes.push(marks[dice.roll(marks.len())]),
    }
    String::from_utf8(bytes).unwrap()
}

#[test]
fn assembled_texts() {
    let mut dice = Dice(1);
    let mut accepted = 0;
    for _ in 0..300_000 {
        let text = assemble(&mut dice);
        let verdict = ValAddr::is_ip(&text);
        assert_eq!(verdict, reads_as_ip(&text), "{:?}", text);
        if verdict {
            accepted += 1;
        }
    }
    assert!(accepted > 100, "{}", accepted);
}

#[test]
fn disturbed_literals() {
    let literals = [
        "192.168.176.43",
        "255.255.255.255",
        "0.0.0.0",
        "2001:0db8:85a3:0000:0000:8a2e:0370:7334",
        "1:2:3:4:5:6:7:8",
        "::",
        "::1",
        "1::",
        "1:2:3:4:5:6:7::",
        "::2:3:4:5:6:7:8",
        "1:2:3::6:7:8",
        "::ffff:192.0.2.33",
        "1:2:3:4:5:6:1.2.3.4",
        "1:2:3:4:5::1.2.3.4",
        "ffff:ffff:ffff:ffff:ffff:ffff:255.255.255.255",
    ];
    let mut dice = Dice(2);
    let mut accepted = 0;
    let mut refused = 0;
    for round in 0..200_000 {
        let literal = literals[round % literals.len()];
        assert!(ValAddr::is_ip(literal));
        let once = disturb(&mut dice, literal);
        let text = if dice.roll(2) == 0 { once } else { disturb(&mut dice, &once) };
        let verdict = ValAddr::is_ip(&text);
        assert_eq!(verdict, reads_as_ip(&text), "{:?}", text);
        if verdict {
            accepted += 1;
        } else {
            refused += 1;
        }
    }
    assert!(accepted > 1000 && refused > 1000, "{} {}", accepted, refused);
}
