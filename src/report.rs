//! Turning the frames of a failed parse into a readable message, through
//! nom's `convert_error`.
use vstd::prelude::*;
use nom::error::{ErrorKind, VerboseErrorKind, VerboseError};
use vstd::utf8::is_char_boundary;
use vstd::string::StringSliceAdditionalSpecFns;
use crate::grammar::Frames;
use crate::model::HDLParseError;
use crate::text::{utf8_len, utf8_offset, lemma_prefix_is_boundary};

verus! {

/// nom's `ErrorKind`, declared with its variants: the kind of rule that failed
/// (`Tag`, `TakeUntil`, `Many1`, ...), as an error frame names it.
#[verifier::external_type_specification]
pub struct ExErrorKind(ErrorKind);

/// nom's `VerboseErrorKind`, declared with its variants: what an error frame
/// says, a rule's kind (`Nom`) or a context label (`Context`).
#[verifier::external_type_specification]
pub struct ExVerboseErrorKind(VerboseErrorKind);

/// `lit` occurs somewhere in `s`.
pub open spec fn contains(s: Seq<char>, lit: Seq<char>) -> bool {
    exists|k: int| 0 <= k && k + lit.len() <= s.len() && #[trigger] s.subrange(k, k + lit.len()) == lit
}

/// The label of a context frame.
pub open spec fn context_label(kind: VerboseErrorKind) -> Option<Seq<char>> {
    match kind {
        VerboseErrorKind::Context(label) => Some(label@),
        _ => None,
    }
}

/// The message that nom's `convert_error` writes for `input` and the error
/// frames `errors`, each given by the byte offset at which it stands.
pub uninterp spec fn converted(input: Seq<char>, errors: Seq<(usize, VerboseErrorKind)>) -> Seq<char>;

/// Relies on `nom::error::convert_error`: one paragraph per frame, with the
/// line and a caret under the column where it stands; a paragraph for a
/// context frame holds its label.
#[verifier::external_body]
fn convert_error(text: &str, errors: &Vec<(usize, VerboseErrorKind)>) -> (r: String)
    requires
        forall|k: int|
            0 <= k < errors@.len() ==> is_char_boundary(text.spec_bytes(), #[trigger] errors@[k].0 as int),
    ensures
        r@ == converted(text@, errors@),
        forall|k: int|
            0 <= k < errors@.len() && context_label(#[trigger] errors@[k].1) is Some ==> contains(
                r@,
                context_label(errors@[k].1)->Some_0,
            ),
{
    let errors = errors.iter().map(|(offset, kind)| (&text[*offset..], kind.clone())).collect();
    nom::error::convert_error(text, VerboseError { errors })
}

/// Frames with their positions as integers.
pub open spec fn frames_view(v: Seq<(usize, VerboseErrorKind)>) -> Frames {
    v.map_values(|f: (usize, VerboseErrorKind)| (f.0 as int, f.1))
}

/// Every frame stands within a text of `n` characters.
pub open spec fn frames_within(v: Seq<(usize, VerboseErrorKind)>, n: int) -> bool {
    forall|k: int| 0 <= k < v.len() ==> #[trigger] v[k].0 <= n
}

/// The frames `g` of a failure in `text`, each placed at the byte offset of
/// its character position.
pub open spec fn byte_frames(text: Seq<char>, g: Frames) -> Seq<(usize, VerboseErrorKind)> {
    g.map_values(|f: (int, VerboseErrorKind)| (utf8_len(text.take(f.0)) as usize, f.1))
}

/// The label of the innermost context frame of `g`.
pub open spec fn first_expectation(g: Frames) -> Option<Seq<char>>
    decreases g.len(),
{
    if g.len() == 0 {
        None
    } else {
        match context_label(g[0].1) {
            Some(label) => Some(label),
            None => first_expectation(g.drop_first()),
        }
    }
}

/// The error for the failure `frames` (character positions in `s`, which
/// holds the characters of `text`).
pub fn failure(text: &str, s: &Vec<char>, frames: Vec<(usize, VerboseErrorKind)>) -> (r: HDLParseError)
    requires
        s@ == text@,
        frames_within(frames@, s@.len() as int),
    ensures
        r.details@ == converted(text@, byte_frames(text@, frames_view(frames@))),
        forall|k: int|
            0 <= k < frames@.len() && context_label(#[trigger] frames@[k].1) is Some ==> contains(
                r.details@,
                context_label(frames@[k].1)->Some_0,
            ),
{
    let bytes = text.as_bytes();
    let _n = bytes.len();
    assert(utf8_len(text@) <= usize::MAX);
    let ghost g = frames_view(frames@);
    let ghost all = frames@;
    let mut rest = frames;
    let mut out: Vec<(usize, VerboseErrorKind)> = Vec::new();
    while rest.len() > 0
        invariant
            s@ == text@,
            utf8_len(text@) <= usize::MAX,
            g == frames_view(all),
            out@.len() + rest@.len() == all.len(),
            forall|k: int| 0 <= k < rest@.len() ==> #[trigger] rest@[k] == all[out@.len() + k],
            forall|k: int| 0 <= k < all.len() ==> #[trigger] all[k].0 <= s@.len(),
            forall|k: int| 0 <= k < out@.len() ==> #[trigger] out@[k] == byte_frames(text@, g)[k],
            forall|k: int|
                0 <= k < out@.len() ==> is_char_boundary(text.spec_bytes(), #[trigger] out@[k].0 as int),
        decreases rest@.len(),
    {
        let ghost before = rest@;
        let (p, kind) = rest.remove(0);
        assert(before[0] == all[out@.len() as int]);
        let off = utf8_offset(s, p);
        proof {
            lemma_prefix_is_boundary(text@, p as int);
            assert forall|k: int| 0 <= k < rest@.len() implies #[trigger] rest@[k] == all[out@.len() + 1 + k] by {
                assert(rest@[k] == before[k + 1]);
            }
        }
        out.push((off, kind));
    }
    assert(out@ =~= byte_frames(text@, g));
    let details = convert_error(text, &out);
    proof {
        assert forall|k: int|
            0 <= k < all.len() && context_label(#[trigger] all[k].1) is Some implies contains(
                details@,
                context_label(all[k].1)->Some_0,
            ) by {
            assert(out@[k].1 == all[k].1);
        }
    }
    HDLParseError { details }
}

} // verus!
