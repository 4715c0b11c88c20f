//! The grammar, as spec functions over the characters of a document.
//!
//! Positions are character indices. A rule that can fail gives, on failure,
//! its frames: `(position, kind)` pairs, innermost first, each naming what was
//! expected and where.
use vstd::prelude::*;
use nom::error::{ErrorKind, VerboseErrorKind};
use crate::model::{PinView, PartView, ChipView};
use crate::text::{low_byte, alphanumeric, digits_value};

verus! {

pub const CHIP_LABEL: &'static str = "symbol \"CHIP\"";

pub const PARTS_LABEL: &'static str = "symbol \"PARTS:\"";

pub const IDENT_LABEL: &'static str = "expected nonzero length alphanumeric identifier";

pub const OPEN_LABEL: &'static str = "symbol \"(\"";

pub const CLOSE_LABEL: &'static str = "symbol \");\"";

pub const PIN_LABEL: &'static str = "Pin";

/// Where and why a rule failed, innermost first.
pub type Frames = Seq<(int, VerboseErrorKind)>;

/// `lit` occurs in `s` at `i`.
pub open spec fn at(s: Seq<char>, i: int, lit: Seq<char>) -> bool {
    0 <= i && i + lit.len() <= s.len() && s.subrange(i, i + lit.len()) == lit
}

/// The first position `k >= i` at which `lit` occurs.
pub open spec fn find_from(s: Seq<char>, i: int, lit: Seq<char>) -> Option<int>
    decreases s.len() - i,
{
    if i < 0 || i >= s.len() || i + lit.len() > s.len() {
        None
    } else if at(s, i, lit) {
        Some(i)
    } else {
        find_from(s, i + 1, lit)
    }
}

/// The characters at which a run stops.
#[derive(Clone, Copy)]
pub enum Stop {
    /// one of `,` `)` `;` `=` `[` `/` and whitespace, which end a pin's name
    Delimiter,
    /// anything but an ASCII letter or digit (by the low byte)
    NonAlphanumeric,
    /// anything but an ASCII decimal digit
    NonDigit,
}

pub open spec fn stops_at(stop: Stop, c: char) -> bool {
    match stop {
        Stop::Delimiter => c == ',' || c == ')' || c == ';' || c == '=' || c == '[' || c == '/'
            || multispace(c),
        Stop::NonAlphanumeric => !alphanumeric(low_byte(c)),
        Stop::NonDigit => !('0' <= c && c <= '9'),
    }
}

/// The first position `k >= i` whose character stops the run, or the end.
pub open spec fn scan(s: Seq<char>, i: int, stop: Stop) -> int
    decreases s.len() - i,
{
    if i < 0 || i >= s.len() || stops_at(stop, s[i]) {
        i
    } else {
        scan(s, i + 1, stop)
    }
}

pub open spec fn multispace(c: char) -> bool {
    c == ' ' || c == '\t' || c == '\r' || c == '\n'
}

/// The end of the trivia item at `i`: one whitespace character, a `//`
/// comment with its line end, or a `/** ... */` comment.
pub open spec fn trivia_item(s: Seq<char>, i: int) -> Option<int> {
    if 0 <= i < s.len() && multispace(s[i]) {
        Some(i + 1)
    } else if at(s, i, seq!['/', '/']) {
        match find_from(s, i + 2, seq!['\n']) {
            Some(k) => Some(k + 1),
            None => None,
        }
    } else if at(s, i, seq!['/', '*', '*']) {
        match find_from(s, i + 3, seq!['*', '/']) {
            Some(k) => Some(k + 2),
            None => None,
        }
    } else {
        None
    }
}

/// The end of the longest run of trivia that starts at `i`.
pub open spec fn trivia_end(s: Seq<char>, i: int) -> int
    decreases s.len() - i,
{
    match trivia_item(s, i) {
        Some(j) => if i < j <= s.len() {
            trivia_end(s, j)
        } else {
            i
        },
        None => i,
    }
}

/// A bit index: the value of its digits, or zero where that does not fit in
/// `u32` (a lenient reading of an index that overflows).
pub open spec fn index_value(d: Seq<char>) -> u32 {
    if digits_value(d) <= u32::MAX {
        digits_value(d) as u32
    } else {
        0
    }
}

/// The index `[n]` or range `[n..m]` at `i`: its bounds and its end.
pub open spec fn pin_index(s: Seq<char>, i: int) -> Option<(u32, u32, int)> {
    if at(s, i, seq!['[']) {
        let d1 = scan(s, i + 1, Stop::NonDigit);
        let v1 = index_value(s.subrange(i + 1, d1));
        if d1 == i + 1 {
            None
        } else if d1 < s.len() && s[d1] == ']' {
            Some((v1, v1, d1 + 1))
        } else if at(s, d1, seq!['.', '.']) {
            let d2 = scan(s, d1 + 2, Stop::NonDigit);
            if d2 > d1 + 2 && d2 < s.len() && s[d2] == ']' {
                Some((v1, index_value(s.subrange(d1 + 2, d2)), d2 + 1))
            } else {
                None
            }
        } else {
            None
        }
    } else {
        None
    }
}

/// The pin reference at `i`, and where it ends. Trivia is skipped; the name
/// runs to the next delimiter; trivia, an optional index and trivia follow.
/// A pin without an index is bit 0. The name may be empty: no pin stands
/// there.
pub open spec fn pin_of(s: Seq<char>, i: int) -> (PinView, int) {
    let a = trivia_end(s, i);
    let b = scan(s, a, Stop::Delimiter);
    let c = trivia_end(s, b);
    match pin_index(s, c) {
        Some((lo, hi, e)) => (PinView { name: s.subrange(a, b), start: lo, end: hi }, trivia_end(s, e)),
        None => (PinView { name: s.subrange(a, b), start: 0, end: 0 }, c),
    }
}

/// The position after an optional `,` at `i` and the trivia that follows.
pub open spec fn after_comma(s: Seq<char>, i: int) -> int {
    trivia_end(s, if at(s, i, seq![',']) { i + 1 } else { i })
}

/// The `internal=external` pairs from `i` on, each with an optional `,` and
/// trivia after it: the internal pins, the external pins, and where the
/// pairs stop.
pub open spec fn pairs_from(s: Seq<char>, i: int) -> (Seq<PinView>, Seq<PinView>, int)
    decreases s.len() - i,
{
    if at(s, i, seq![')']) {
        (seq![], seq![], i)
    } else {
        let (p1, e1) = pin_of(s, i);
        if p1.name.len() > 0 && at(s, e1, seq!['=']) {
            let (p2, e2) = pin_of(s, e1 + 1);
            let k = after_comma(s, e2);
            if p2.name.len() > 0 && i < k <= s.len() {
                let (ins, exs, k) = pairs_from(s, k);
                (seq![p1] + ins, seq![p2] + exs, k)
            } else {
                (seq![], seq![], i)
            }
        } else {
            (seq![], seq![], i)
        }
    }
}

/// The part at `i` (`Name(a=b, ...);` between trivia), and where it ends.
pub open spec fn part_of(s: Seq<char>, i: int) -> Result<(PartView, int), Frames> {
    let t = trivia_end(s, i);
    let n = scan(s, t, Stop::NonAlphanumeric);
    if n == t {
        Err(seq![(t, VerboseErrorKind::Nom(ErrorKind::TakeWhile1)), (t, VerboseErrorKind::Context(IDENT_LABEL))])
    } else {
        let u = trivia_end(s, n);
        if !at(s, u, seq!['(']) {
            Err(seq![(u, VerboseErrorKind::Nom(ErrorKind::Tag)), (u, VerboseErrorKind::Context(OPEN_LABEL))])
        } else {
            let (ins, exs, k) = pairs_from(s, trivia_end(s, u + 1));
            if !at(s, k, seq![')', ';']) {
                Err(seq![(k, VerboseErrorKind::Nom(ErrorKind::Tag)), (k, VerboseErrorKind::Context(CLOSE_LABEL))])
            } else {
                Ok((PartView { name: s.subrange(t, n), internal: ins, external: exs }, trivia_end(s, k + 2)))
            }
        }
    }
}

/// A part's name starts at `i`, after trivia.
pub open spec fn part_starts(s: Seq<char>, i: int) -> bool {
    scan(s, trivia_end(s, i), Stop::NonAlphanumeric) > trivia_end(s, i)
}

/// The parts from `i` on, up to the first place where no part's name starts,
/// and that place; the frames of the first part that starts and fails.
pub open spec fn parts_from(s: Seq<char>, i: int) -> Result<(Seq<PartView>, int), Frames>
    decreases s.len() - i,
{
    if !part_starts(s, i) {
        Ok((seq![], i))
    } else {
        match part_of(s, i) {
            Ok((p, e)) => if i < e <= s.len() {
                match parts_from(s, e) {
                    Ok((ps, k)) => Ok((seq![p] + ps, k)),
                    Err(f) => Err(f),
                }
            } else {
                Ok((seq![], i))
            },
            Err(f) => Err(f),
        }
    }
}

/// The pins of an interface list from `i` up to its `;`, and the position of
/// that `;`; or the position where a pin was expected and none stands (the
/// end of the text included).
pub open spec fn list_pins(s: Seq<char>, i: int) -> Result<(Seq<PinView>, int), int>
    decreases s.len() - i,
{
    if i < 0 || i >= s.len() {
        Err(i)
    } else if s[i] == ';' {
        Ok((seq![], i))
    } else {
        let (p, e) = pin_of(s, i);
        let k = after_comma(s, e);
        if p.name.len() > 0 && i < k <= s.len() {
            match list_pins(s, k) {
                Ok((ps, j)) => Ok((seq![p] + ps, j)),
                Err(m) => Err(m),
            }
        } else {
            Err(i)
        }
    }
}

/// The interface list labelled `label` (`IN a, b;`), searched for from `i`
/// on, and where it ends.
pub open spec fn io_list_of(s: Seq<char>, i: int, label: &'static str) -> Result<(Seq<PinView>, int), Frames> {
    let t = trivia_end(s, i);
    match find_from(s, t, label@) {
        None => Err(seq![(t, VerboseErrorKind::Nom(ErrorKind::TakeUntil)), (t, VerboseErrorKind::Context(label))]),
        Some(q) => {
            let r = trivia_end(s, q + label@.len());
            if r < s.len() && s[r] == ';' {
                Err(seq![
                    (r, VerboseErrorKind::Nom(ErrorKind::Not)),
                    (r, VerboseErrorKind::Context(PIN_LABEL)),
                    (r, VerboseErrorKind::Nom(ErrorKind::Many1)),
                    (t, VerboseErrorKind::Context(label)),
                ])
            } else {
                match list_pins(s, r) {
                    Err(m) => Err(seq![(m, VerboseErrorKind::Context(PIN_LABEL)), (t, VerboseErrorKind::Context(label))]),
                    Ok((ps, k)) => Ok((ps, trivia_end(s, k + 1))),
                }
            }
        }
    }
}

/// The chip that the document `s` declares, or the frames of its first failure.
pub open spec fn chip_of(s: Seq<char>) -> Result<ChipView, Frames> {
    let t0 = trivia_end(s, 0);
    if !at(s, t0, "CHIP"@) {
        Err(seq![(t0, VerboseErrorKind::Nom(ErrorKind::Tag)), (t0, VerboseErrorKind::Context(CHIP_LABEL))])
    } else {
        let t1 = trivia_end(s, t0 + "CHIP"@.len());
        let n = scan(s, t1, Stop::NonAlphanumeric);
        match io_list_of(s, n, "IN") {
            Err(f) => Err(f),
            Ok((ins, i1)) => match io_list_of(s, i1, "OUT") {
                Err(f) => Err(f),
                Ok((outs, i2)) => match find_from(s, i2, "PARTS:"@) {
                    None => Err(seq![(i2, VerboseErrorKind::Nom(ErrorKind::TakeUntil)), (i2, VerboseErrorKind::Context(PARTS_LABEL))]),
                    Some(p) => match parts_from(s, trivia_end(s, p + "PARTS:"@.len())) {
                        Err(f) => Err(f),
                        Ok((parts, _)) => Ok(ChipView { name: s.subrange(t1, n), inputs: ins, outputs: outs, parts }),
                    },
                },
            },
        }
    }
}

} // verus!
