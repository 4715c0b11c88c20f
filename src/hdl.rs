//! The entry points, on whole strings.
use vstd::prelude::*;
use vstd::string::StrSliceExecFns;
use crate::grammar::{trivia_end, pin_of, part_of, io_list_of, chip_of};
use crate::model::{Pin, Part, Chip, HDLParseError, pins_view};
use crate::parser::{skip_trivia, read_pin, read_part, read_io_pins, read_chip};
use crate::report::{converted, byte_frames, context_label, first_expectation, contains, failure, frames_view};
use crate::text::chars_of;

verus! {

/// Skips the whitespace, `//` line comments and `/** */` block comments at
/// the start of `text`; gives what follows.
pub fn separator(text: &str) -> (r: &str)
    ensures
        r@ == text@.subrange(trivia_end(text@, 0), text@.len() as int),
{
    let s = chars_of(text);
    let k = skip_trivia(&s, 0);
    text.substring_char(k, s.len())
}

/// Parses the pin reference at the start of `text` (`a[0..3]` becomes
/// `Pin { name: "a", start: 0, end: 3 }`); gives the rest of the text and
/// the pin.
pub fn pin(text: &str) -> (r: (&str, Pin))
    ensures
        r.1@ == pin_of(text@, 0).0,
        r.0@ == text@.subrange(pin_of(text@, 0).1, text@.len() as int),
{
    let s = chars_of(text);
    let (p, e) = read_pin(&s, 0);
    (text.substring_char(e, s.len()), p)
}

/// Parses the part at the start of `text` (`Test(a=a, b=b);`); gives the
/// rest of the text and the part.
pub fn part(text: &str) -> (r: Result<(&str, Part), HDLParseError>)
    ensures
        match part_of(text@, 0) {
            Ok((p, e)) => r is Ok && r->Ok_0.1@ == p && r->Ok_0.0@ == text@.subrange(e, text@.len() as int),
            Err(g) => {
                &&& r is Err
                &&& r->Err_0.details@ == converted(text@, byte_frames(text@, g))
                &&& forall|k: int|
                    0 <= k < g.len() && context_label(#[trigger] g[k].1) is Some ==> contains(
                        r->Err_0.details@,
                        context_label(g[k].1)->Some_0,
                    )
            },
        },
{
    let s = chars_of(text);
    match read_part(&s, 0) {
        Ok((p, e)) => Ok((text.substring_char(e, s.len()), p)),
        Err(f) => {
            let e = failure(text, &s, f);
            assert(forall|k: int| 0 <= k < f@.len() ==> #[trigger] frames_view(f@)[k].1 == f@[k].1);
            Err(e)
        },
    }
}

/// Parses the interface list labelled `label` (`IN a, b;`), searched for from
/// the start of `text`; gives the rest of the text and the pins.
pub fn parse_io_pins<'a>(text: &'a str, label: &'static str) -> (r: Result<(&'a str, Vec<Pin>), HDLParseError>)
    ensures
        match io_list_of(text@, 0, label) {
            Ok((ps, e)) => r is Ok && pins_view(r->Ok_0.1@) == ps && r->Ok_0.0@ == text@.subrange(e, text@.len() as int),
            Err(g) => {
                &&& r is Err
                &&& r->Err_0.details@ == converted(text@, byte_frames(text@, g))
                &&& forall|k: int|
                    0 <= k < g.len() && context_label(#[trigger] g[k].1) is Some ==> contains(
                        r->Err_0.details@,
                        context_label(g[k].1)->Some_0,
                    )
            },
        },
{
    let s = chars_of(text);
    match read_io_pins(&s, 0, label) {
        Ok((ps, e)) => Ok((text.substring_char(e, s.len()), ps)),
        Err(f) => {
            let e = failure(text, &s, f);
            assert(forall|k: int| 0 <= k < f@.len() ==> #[trigger] frames_view(f@)[k].1 == f@[k].1);
            Err(e)
        },
    }
}

/// Parses a whole chip declaration. On failure the error's description
/// gives, for each frame from the innermost out, the line and column where
/// it stands and what was expected there.
pub fn parse_hdl(text: &str) -> (r: Result<Chip, HDLParseError>)
    ensures
        match chip_of(text@) {
            Ok(c) => r is Ok && r->Ok_0@ == c && c.wf(),
            Err(g) => {
                &&& r is Err
                &&& r->Err_0.details@ == converted(text@, byte_frames(text@, g))
                &&& first_expectation(g) is Some
                &&& contains(r->Err_0.details@, first_expectation(g)->Some_0)
            },
        },
{
    let s = chars_of(text);
    match read_chip(&s) {
        Ok(c) => {
            proof {
                crate::laws::lemma_parsed_chip_well_formed(text@);
            }
            Ok(c)
        },
        Err(f) => {
            let ghost g = chip_of(text@)->Err_0;
            proof {
                crate::laws::lemma_rejection_names_expectation(text@);
                reveal_with_fuel(first_expectation, 2);
            }
            let e = failure(text, &s, f);
            assert(contains(e.details@, first_expectation(g)->Some_0)) by {
                let k = if crate::report::context_label(g[0].1) is Some { 0int } else { 1int };
                assert(g[k].1 == f@[k].1);
            }
            Err(e)
        },
    }
}

} // verus!
