//! The parsed structure: pins, parts and chips, with their mathematical views.
use vstd::prelude::*;
use crate::text::{decimal, push_char, string_of};

verus! {

/// A wire, or a contiguous range of bits of a bus.
pub struct PinView {
    pub name: Seq<char>,
    pub start: u32,
    pub end: u32,
}

/// One instantiation of a sub-component: `internal[i]` is wired to `external[i]`.
pub struct PartView {
    pub name: Seq<char>,
    pub internal: Seq<PinView>,
    pub external: Seq<PinView>,
}

/// A whole chip declaration.
pub struct ChipView {
    pub name: Seq<char>,
    pub inputs: Seq<PinView>,
    pub outputs: Seq<PinView>,
    pub parts: Seq<PartView>,
}

/// A type that represents a pin: `a[0..3]` is named `a` and spans bits 0 to 3;
/// a pin written without an index is bit 0.
#[derive(Eq, PartialEq, Hash, Clone, Debug)]
pub struct Pin {
    /// Holds the name of the pin
    pub name: String,
    /// Holds the start of the slice range
    pub start: u32,
    /// Holds the end of the slice range
    pub end: u32,
}

/// A type that represents a chip.
#[derive(Eq, PartialEq, Hash, Clone, Debug)]
pub struct Chip {
    /// Holds the name of the chip
    pub name: String,
    /// Holds a list of input pins
    pub inputs: Vec<Pin>,
    /// Holds a list of output pins
    pub outputs: Vec<Pin>,
    /// Holds a list of parts
    pub parts: Vec<Part>,
}

/// A type that represents a part.
/// Internal pins match up to an input/output of the part: the first pin in a `{}={}` pair.
/// External pins are the wires of the enclosing chip: the second pin in a `{}={}` pair.
#[derive(Eq, PartialEq, Hash, Clone, Debug)]
pub struct Part {
    /// Holds the name of the part
    pub name: String,
    /// Holds internal connections (the pins which match up to the input pins of the part)
    pub internal: Vec<Pin>,
    /// Holds external connections
    pub external: Vec<Pin>,
}

/// Error returned when HDL cannot be parsed
#[derive(Debug)]
pub struct HDLParseError {
    /// The rendered description of where and why parsing failed.
    pub details: String,
}

pub open spec fn pins_view(v: Seq<Pin>) -> Seq<PinView> {
    v.map_values(|p: Pin| p@)
}

pub open spec fn parts_view(v: Seq<Part>) -> Seq<PartView> {
    v.map_values(|p: Part| p@)
}

impl View for Pin {
    type V = PinView;

    open spec fn view(&self) -> PinView {
        PinView { name: self.name@, start: self.start, end: self.end }
    }
}

impl View for Part {
    type V = PartView;

    open spec fn view(&self) -> PartView {
        PartView {
            name: self.name@,
            internal: pins_view(self.internal@),
            external: pins_view(self.external@),
        }
    }
}

impl View for Chip {
    type V = ChipView;

    open spec fn view(&self) -> ChipView {
        ChipView {
            name: self.name@,
            inputs: pins_view(self.inputs@),
            outputs: pins_view(self.outputs@),
            parts: parts_view(self.parts@),
        }
    }
}

impl PartView {
    /// Every internal pin has its external partner.
    pub open spec fn wf(self) -> bool {
        self.internal.len() == self.external.len()
    }
}

impl ChipView {
    /// Both interface lists are non-empty and every part pairs its pins.
    pub open spec fn wf(self) -> bool {
        &&& self.inputs.len() >= 1
        &&& self.outputs.len() >= 1
        &&& forall|k: int| 0 <= k < self.parts.len() ==> (#[trigger] self.parts[k]).wf()
    }
}

/// The text that `Pin::to_debug_string` gives: the name as `quoted`, then one
/// `index` when the range is a single bit, else its `start` and `end`.
pub open spec fn pin_debug_text(quoted: Seq<char>, start: u32, end: u32) -> Seq<char> {
    if start == end {
        "Pin { name: "@ + quoted + ", index: "@ + decimal(start as nat) + " }"@
    } else {
        "Pin { name: "@ + quoted + ", start: "@ + decimal(start as nat) + ", end: "@
            + decimal(end as nat) + " }"@
    }
}

/// What `format!("{:?}", s)` gives for a string: `s` quoted, with its special
/// characters escaped.
pub uninterp spec fn debug_quoted(s: Seq<char>) -> Seq<char>;

/// Relies on the `Debug` impl of `str` (through `format!`): the quoted, escaped text.
#[verifier::external_body]
fn quote_debug(s: &str) -> (r: String)
    ensures
        r@ == debug_quoted(s@),
{
    format!("{:?}", s)
}

/// The decimal digits of `n`.
pub fn decimal_string(n: u32) -> (r: String)
    ensures
        r@ == decimal(n as nat),
{
    let mut digits: Vec<char> = Vec::new();
    let mut m = n;
    // the digits of n come out last first
    loop
        invariant_except_break
            decimal(n as nat) =~= decimal(m as nat) + digits@,
        ensures
            decimal(n as nat) =~= digits@,
        decreases m,
    {
        let c = ((48 + m % 10) as u8) as char;
        proof {
            if m >= 10 {
                assert(decimal(m as nat) == decimal((m / 10) as nat).push(c));
            } else {
                assert(decimal(m as nat) == seq![c]);
            }
        }
        digits.insert(0, c);
        if m < 10 {
            break ;
        }
        m = m / 10;
    }
    let mut r = String::new();
    let mut i: usize = 0;
    while i < digits.len()
        invariant
            i <= digits@.len(),
            decimal(n as nat) =~= digits@,
            r@ == digits@.take(i as int),
        decreases digits.len() - i,
    {
        push_char(&mut r, digits[i]);
        assert(digits@.take(i + 1) =~= digits@.take(i as int).push(digits@[i as int]));
        i += 1;
    }
    assert(digits@.take(digits@.len() as int) =~= digits@);
    r
}

/// The `Debug` text of a pin whose name, quoted, is `quoted`.
pub fn pin_debug_string(quoted: &str, start: u32, end: u32) -> (r: String)
    ensures
        r@ == pin_debug_text(quoted@, start, end),
{
    let mut r = String::from_str("Pin { name: ");
    r.append(quoted);
    if start == end {
        r.append(", index: ");
        r.append(decimal_string(start).as_str());
    } else {
        r.append(", start: ");
        r.append(decimal_string(start).as_str());
        r.append(", end: ");
        r.append(decimal_string(end).as_str());
    }
    r.append(" }");
    r
}

impl Pin {
    /// The pin as its `Debug` text: `Pin { name: "a", index: 0 }` for a single
    /// bit, `Pin { name: "a", start: 3, end: 4 }` for a range.
    pub fn to_debug_string(&self) -> (r: String)
        ensures
            r@ == pin_debug_text(debug_quoted(self.name@), self.start, self.end),
    {
        let quoted = quote_debug(self.name.as_str());
        pin_debug_string(quoted.as_str(), self.start, self.end)
    }
}

impl HDLParseError {
    /// An error whose description is `msg`.
    pub fn new(msg: &str) -> (r: HDLParseError)
        ensures
            r.details@ == msg@,
    {
        HDLParseError { details: String::from_str(msg) }
    }

    /// The rendered description of the failure.
    pub fn description(&self) -> (r: &str)
        ensures
            r@ == self.details@,
    {
        self.details.as_str()
    }
}

} // verus!
