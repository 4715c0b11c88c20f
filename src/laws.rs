//! Laws of the parser, stated over the spec functions that its contracts use.
use vstd::prelude::*;
use crate::model::ChipView;
use crate::grammar::{after_comma, at, chip_of, find_from, io_list_of, pairs_from, part_of, part_starts, parts_from, pin_of, scan, trivia_end, Stop};
use crate::canonical::{chip_text, lemma_canonical_text_parses, valid_chip};
use crate::report::{byte_frames, context_label, converted, first_expectation};

verus! {

/// A part that starts and fails does so with two frames, the outer one a
/// context frame; so does a run of parts.
pub proof fn lemma_parts_failure_named(s: Seq<char>, i: int)
    ensures
        parts_from(s, i) is Err ==> {
            let g = parts_from(s, i)->Err_0;
            &&& g.len() == 2
            &&& context_label(g[1].1) is Some
        },
    decreases s.len() - i,
{
    if part_starts(s, i) {
        match part_of(s, i) {
            Ok((p, e)) => {
                if i < e <= s.len() {
                    lemma_parts_failure_named(s, e);
                }
            },
            Err(_) => {},
        }
    }
}

/// A document that is rejected is rejected with a frame that names the
/// first expectation it violated; that frame is the innermost or the next
/// one out.
pub proof fn lemma_rejection_names_expectation(s: Seq<char>)
    ensures
        chip_of(s) is Err ==> {
            let g = chip_of(s)->Err_0;
            &&& g.len() >= 2
            &&& first_expectation(g) is Some
            &&& (first_expectation(g) == context_label(g[0].1) || first_expectation(g)
                == context_label(g[1].1))
        },
{
    reveal_with_fuel(first_expectation, 3);
    let t0 = trivia_end(s, 0);
    let t1 = trivia_end(s, t0 + "CHIP"@.len());
    let n = scan(s, t1, Stop::NonAlphanumeric);
    if io_list_of(s, n, "IN") is Ok {
        let i1 = io_list_of(s, n, "IN")->Ok_0.1;
        if io_list_of(s, i1, "OUT") is Ok {
            let i2 = io_list_of(s, i1, "OUT")->Ok_0.1;
            match find_from(s, i2, "PARTS:"@) {
                Some(p) => lemma_parts_failure_named(s, trivia_end(s, p + "PARTS:"@.len())),
                None => {},
            }
        }
    }
}

/// The pairs of a part give as many internal pins as external ones.
pub proof fn lemma_pairs_paired(s: Seq<char>, i: int)
    ensures
        pairs_from(s, i).0.len() == pairs_from(s, i).1.len(),
    decreases s.len() - i,
{
    if !at(s, i, seq![')']) {
        let (p1, e1) = pin_of(s, i);
        if p1.name.len() > 0 && at(s, e1, seq!['=']) {
            let (p2, e2) = pin_of(s, e1 + 1);
            let k = after_comma(s, e2);
            if p2.name.len() > 0 && i < k <= s.len() {
                lemma_pairs_paired(s, k);
            }
        }
    }
}

/// A part that parses pairs each internal pin with an external one.
pub proof fn lemma_part_paired(s: Seq<char>, i: int)
    ensures
        part_of(s, i) is Ok ==> part_of(s, i)->Ok_0.0.wf(),
{
    let t = trivia_end(s, i);
    let n = scan(s, t, Stop::NonAlphanumeric);
    let u = trivia_end(s, n);
    lemma_pairs_paired(s, trivia_end(s, u + 1));
}

/// Every part of a run of parts that parses pairs its pins.
pub proof fn lemma_parts_paired(s: Seq<char>, i: int)
    ensures
        parts_from(s, i) is Ok ==> forall|k: int|
            0 <= k < parts_from(s, i)->Ok_0.0.len() ==> (#[trigger] parts_from(s, i)->Ok_0.0[k]).wf(),
    decreases s.len() - i,
{
    lemma_part_paired(s, i);
    if part_starts(s, i) {
        match part_of(s, i) {
            Ok((p, e)) => {
                if i < e <= s.len() {
                    lemma_parts_paired(s, e);
                    if parts_from(s, e) is Ok {
                        let rest = parts_from(s, e)->Ok_0.0;
                        assert forall|k: int| 0 <= k < parts_from(s, i)->Ok_0.0.len() implies (
                        #[trigger] parts_from(s, i)->Ok_0.0[k]).wf() by {
                            if k > 0 {
                                assert(parts_from(s, i)->Ok_0.0[k] == rest[k - 1]);
                            }
                        }
                    }
                }
            },
            Err(_) => {},
        }
    }
}

/// An interface list that parses holds at least one pin.
pub proof fn lemma_io_list_nonempty(s: Seq<char>, i: int, label: &'static str)
    ensures
        io_list_of(s, i, label) is Ok ==> io_list_of(s, i, label)->Ok_0.0.len() >= 1,
{
}

/// Every chip that parses has at least one input and one output, and each of
/// its parts pairs every internal pin with an external one.
pub proof fn lemma_parsed_chip_well_formed(s: Seq<char>)
    ensures
        chip_of(s) is Ok ==> chip_of(s)->Ok_0.wf(),
{
    let t0 = trivia_end(s, 0);
    let t1 = trivia_end(s, t0 + "CHIP"@.len());
    let n = scan(s, t1, Stop::NonAlphanumeric);
    lemma_io_list_nonempty(s, n, "IN");
    if io_list_of(s, n, "IN") is Ok {
        let i1 = io_list_of(s, n, "IN")->Ok_0.1;
        lemma_io_list_nonempty(s, i1, "OUT");
        if io_list_of(s, i1, "OUT") is Ok {
            let i2 = io_list_of(s, i1, "OUT")->Ok_0.1;
            match find_from(s, i2, "PARTS:"@) {
                Some(p) => lemma_parts_paired(s, trivia_end(s, p + "PARTS:"@.len())),
                None => {},
            }
        }
    }
}

/// Parsing depends on the text alone: equal texts give equal chips, or
/// equal failures with equal messages.
pub proof fn lemma_parse_deterministic(a: Seq<char>, b: Seq<char>)
    requires
        a == b,
    ensures
        chip_of(a) == chip_of(b),
        chip_of(a) is Err ==> converted(a, byte_frames(a, chip_of(a)->Err_0)) == converted(
            b,
            byte_frames(b, chip_of(b)->Err_0),
        ),
{
}

/// A document written in the canonical layout is accepted, and gives a
/// well-formed chip: the very chip it was written from.
pub proof fn lemma_valid_document_parses(c: ChipView)
    requires
        valid_chip(c),
    ensures
        chip_of(chip_text(c)) == Ok::<ChipView, crate::grammar::Frames>(c),
        c.wf(),
{
    lemma_canonical_text_parses(c);
    lemma_parsed_chip_well_formed(chip_text(c));
}

/// Parsing a valid document twice accepts it both times, with equal chips.
pub proof fn lemma_valid_document_parses_alike(c: ChipView, a: Seq<char>, b: Seq<char>)
    requires
        valid_chip(c),
        a == chip_text(c),
        b == chip_text(c),
    ensures
        chip_of(a) is Ok,
        chip_of(a) == chip_of(b),
{
    lemma_canonical_text_parses(c);
}

} // verus!
